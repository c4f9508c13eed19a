use vstd::prelude::*;

use crate::record::{CpuReading, ProcessRecord};

verus! {

/// The column a table can be ranked by.
#[derive(Clone, Copy, PartialEq, Eq, Structural, Debug)]
pub enum SortColumn {
    Pid,
    Name,
    Memory,
    Cpu,
}

/// The direction the ranked rows are displayed in.
#[derive(Clone, Copy, PartialEq, Eq, Structural, Debug)]
pub enum SortDirection {
    Ascending,
    Descending,
}

/// The ranking state: the active sort column and direction. Owned by
/// the table and mutated only through column selection.
#[derive(Clone, Copy, PartialEq, Eq, Structural, Debug)]
pub struct RankingState {
    pub column: SortColumn,
    pub direction: SortDirection,
}

impl SortDirection {
    /// The other direction.
    pub open spec fn opposite(self) -> SortDirection {
        match self {
            SortDirection::Ascending => SortDirection::Descending,
            SortDirection::Descending => SortDirection::Ascending,
        }
    }
}

impl RankingState {
    /// The state after the user selects `requested`: reselecting the
    /// active column flips the direction, selecting any other column
    /// activates it and resets the direction to ascending.
    pub open spec fn selected(self, requested: SortColumn) -> RankingState {
        if requested == self.column {
            RankingState { column: self.column, direction: self.direction.opposite() }
        } else {
            RankingState { column: requested, direction: SortDirection::Ascending }
        }
    }

    /// Applies a column selection: click the active header to reverse,
    /// click another header to rank by it ascending.
    pub fn select_column(&mut self, requested: SortColumn)
        ensures
            *final(self) == old(self).selected(requested),
    {
        if requested == self.column {
            self.direction = match self.direction {
                SortDirection::Ascending => SortDirection::Descending,
                SortDirection::Descending => SortDirection::Ascending,
            };
        } else {
            self.column = requested;
            self.direction = SortDirection::Ascending;
        }
    }
}

/// Ascending comparison of two CPU readings: ordered readings compare
/// by their key; a pair with an incomparable side counts as tied (both
/// directions hold), never as an error.
pub open spec fn cpu_le(a: CpuReading, b: CpuReading) -> bool {
    match (a, b) {
        (CpuReading::Ordered(x), CpuReading::Ordered(y)) => x <= y,
        _ => true,
    }
}

/// Lexicographic "less or equal" on display strings, by code point: an
/// empty or exhausted left side precedes, the first differing code
/// point decides.
pub open spec fn lex_le(a: Seq<char>, b: Seq<char>) -> bool
    decreases a.len(),
{
    if a.len() == 0 {
        true
    } else if b.len() == 0 {
        false
    } else if a[0] as u32 == b[0] as u32 {
        lex_le(a.drop_first(), b.drop_first())
    } else {
        (a[0] as u32) < (b[0] as u32)
    }
}

/// The ascending base comparison for one column. Total: for every pair
/// of records at least one direction holds, whichever column is active.
pub open spec fn record_le(c: SortColumn, a: ProcessRecord, b: ProcessRecord) -> bool {
    match c {
        SortColumn::Pid => a.pid <= b.pid,
        SortColumn::Name => lex_le(a.name@, b.name@),
        SortColumn::Memory => a.memory_mb <= b.memory_mb,
        SortColumn::Cpu => cpu_le(a.cpu_percent, b.cpu_percent),
    }
}

/// Two rows tie under a column: the base comparison holds both ways,
/// so neither strictly precedes the other.
pub open spec fn tied(c: SortColumn, a: ProcessRecord, b: ProcessRecord) -> bool {
    record_le(c, a, b) && record_le(c, b, a)
}

/// The rows tied with a pivot row are pairwise tied with each other —
/// the hypothesis of the stability law — under every column except
/// CPU, where it also needs the pivot's reading to be ordered: an
/// incomparable reading ties with every row at once, including rows
/// that are not tied with each other.
pub proof fn lemma_tie_class_equivalence(c: SortColumn, k: ProcessRecord)
    requires
        c == SortColumn::Cpu ==> k.cpu_percent is Ordered,
    ensures
        forall|a: ProcessRecord, b: ProcessRecord|
            tied(c, a, k) && tied(c, b, k) ==> #[trigger] tied(c, a, b),
{
    assert forall|a: ProcessRecord, b: ProcessRecord|
        tied(c, a, k) && tied(c, b, k) implies #[trigger] tied(c, a, b) by {
        match c {
            SortColumn::Name => {
                lemma_lex_le_trans(a.name@, k.name@, b.name@);
                lemma_lex_le_trans(b.name@, k.name@, a.name@);
            },
            _ => {},
        }
    }
}

proof fn lemma_lex_le_trans(a: Seq<char>, b: Seq<char>, z: Seq<char>)
    requires
        lex_le(a, b),
        lex_le(b, z),
    ensures
        lex_le(a, z),
    decreases a.len(),
{
    if a.len() == 0 {
    } else {
        if a[0] as u32 == b[0] as u32 && b[0] as u32 == z[0] as u32 {
            lemma_lex_le_trans(a.drop_first(), b.drop_first(), z.drop_first());
        }
    }
}

/// The base comparison is total: every pair is ordered one way or the
/// other (possibly both, for ties).
pub proof fn lemma_record_le_total(c: SortColumn, a: ProcessRecord, b: ProcessRecord)
    ensures
        record_le(c, a, b) || record_le(c, b, a),
{
    match c {
        SortColumn::Name => {
            lemma_lex_le_total(a.name@, b.name@);
        },
        _ => {},
    }
}

proof fn lemma_lex_le_total(a: Seq<char>, b: Seq<char>)
    ensures
        lex_le(a, b) || lex_le(b, a),
    decreases a.len(),
{
    if a.len() == 0 || b.len() == 0 {
    } else if a[0] as u32 == b[0] as u32 {
        lemma_lex_le_total(a.drop_first(), b.drop_first());
    }
}

fn cpu_le_exec(a: CpuReading, b: CpuReading) -> (r: bool)
    ensures
        r == cpu_le(a, b),
{
    match (a, b) {
        (CpuReading::Ordered(x), CpuReading::Ordered(y)) => x <= y,
        _ => true,
    }
}

fn lex_le_exec(a: &str, b: &str) -> (r: bool)
    ensures
        r == lex_le(a@, b@),
{
    let a_len = a.unicode_len();
    let b_len = b.unicode_len();
    let mut i: usize = 0;
    proof {
        assert(a@.skip(0) =~= a@);
        assert(b@.skip(0) =~= b@);
    }
    loop
        invariant
            i <= a_len,
            i <= b_len,
            a_len == a@.len(),
            b_len == b@.len(),
            lex_le(a@, b@) == lex_le(a@.skip(i as int), b@.skip(i as int)),
        decreases a_len - i,
    {
        if i == a_len {
            proof {
                assert(a@.skip(i as int).len() == 0);
            }
            return true;
        }
        if i == b_len {
            proof {
                assert(b@.skip(i as int).len() == 0);
                assert(a@.skip(i as int).len() > 0);
            }
            return false;
        }
        let ca = a.get_char(i);
        let cb = b.get_char(i);
        proof {
            assert(a@.skip(i as int)[0] == a@[i as int]);
            assert(b@.skip(i as int)[0] == b@[i as int]);
            assert(a@.skip(i as int).drop_first() =~= a@.skip(i as int + 1));
            assert(b@.skip(i as int).drop_first() =~= b@.skip(i as int + 1));
        }
        if ca as u32 == cb as u32 {
            i = i + 1;
        } else {
            return (ca as u32) < (cb as u32);
        }
    }
}

/// Decides the ascending base comparison for one column on two rows.
pub fn record_le_exec(c: SortColumn, a: &ProcessRecord, b: &ProcessRecord) -> (r: bool)
    ensures
        r == record_le(c, *a, *b),
{
    match c {
        SortColumn::Pid => a.pid <= b.pid,
        SortColumn::Name => lex_le_exec(a.name.as_str(), b.name.as_str()),
        SortColumn::Memory => a.memory_mb <= b.memory_mb,
        SortColumn::Cpu => cpu_le_exec(a.cpu_percent, b.cpu_percent),
    }
}

} // verus!
