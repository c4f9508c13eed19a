use vstd::multiset::Multiset;
use vstd::prelude::*;

use crate::ranking::{
    lemma_record_le_total, record_le, record_le_exec, tied, RankingState, SortColumn,
    SortDirection,
};
use crate::record::ProcessRecord;

verus! {

/// Where a stable insertion places `x` in the already-ranked `s`:
/// after every row that strictly precedes it, before the first row it
/// precedes or ties with. A newly inserted row therefore lands in
/// front of the rows it ties with, which is what keeps the input order
/// of ties when the rows are inserted back to front.
pub open spec fn insert_ordered(
    c: SortColumn,
    x: ProcessRecord,
    s: Seq<ProcessRecord>,
) -> Seq<ProcessRecord>
    decreases s.len(),
{
    if s.len() == 0 {
        seq![x]
    } else if record_le(c, x, s[0]) {
        seq![x] + s
    } else {
        seq![s[0]] + insert_ordered(c, x, s.drop_first())
    }
}

/// The stable ascending ranking of `s` under column `c`: rows are
/// taken back to front, each inserted in front of its ties, so rows
/// with equal keys keep their relative input order.
pub open spec fn sort_by_column(c: SortColumn, s: Seq<ProcessRecord>) -> Seq<ProcessRecord>
    decreases s.len(),
{
    if s.len() == 0 {
        Seq::empty()
    } else {
        insert_ordered(c, s[0], sort_by_column(c, s.drop_first()))
    }
}

/// The rows as displayed under a ranking state: the stable ascending
/// ranking, reversed as a whole when the direction is descending. The
/// per-pair comparator is never flipped, so a descending toggle
/// reverses tie groups along with everything else.
pub open spec fn ordered_by(state: RankingState, s: Seq<ProcessRecord>) -> Seq<ProcessRecord> {
    if state.direction == SortDirection::Ascending {
        sort_by_column(state.column, s)
    } else {
        sort_by_column(state.column, s).reverse()
    }
}

/// Adjacent ordering under column `c`: every row precedes or ties with
/// its successor.
pub open spec fn sorted_by_column(c: SortColumn, s: Seq<ProcessRecord>) -> bool {
    forall|i: int| 0 <= i < s.len() - 1 ==> record_le(c, #[trigger] s[i], s[i + 1])
}

proof fn lemma_insert_len(c: SortColumn, x: ProcessRecord, s: Seq<ProcessRecord>)
    ensures
        insert_ordered(c, x, s).len() == s.len() + 1,
    decreases s.len(),
{
    if s.len() == 0 {
    } else if record_le(c, x, s[0]) {
    } else {
        lemma_insert_len(c, x, s.drop_first());
    }
}

proof fn lemma_insert_head(c: SortColumn, x: ProcessRecord, s: Seq<ProcessRecord>)
    ensures
        insert_ordered(c, x, s)[0] == x || (s.len() > 0 && insert_ordered(c, x, s)[0] == s[0]),
{
    if s.len() == 0 {
    } else if record_le(c, x, s[0]) {
        assert((seq![x] + s)[0] == x);
    } else {
        assert((seq![s[0]] + insert_ordered(c, x, s.drop_first()))[0] == s[0]);
    }
}

proof fn lemma_drop_first_sorted(c: SortColumn, s: Seq<ProcessRecord>)
    requires
        sorted_by_column(c, s),
        s.len() > 0,
    ensures
        sorted_by_column(c, s.drop_first()),
{
    let t = s.drop_first();
    assert forall|i: int| 0 <= i < t.len() - 1 implies record_le(c, #[trigger] t[i], t[i + 1]) by {
        assert(t[i] == s[i + 1]);
        assert(t[i + 1] == s[i + 2]);
        assert(record_le(c, s[i + 1], s[i + 2]));
    }
}

proof fn lemma_insert_sorted(c: SortColumn, x: ProcessRecord, s: Seq<ProcessRecord>)
    requires
        sorted_by_column(c, s),
    ensures
        sorted_by_column(c, insert_ordered(c, x, s)),
    decreases s.len(),
{
    if s.len() == 0 {
    } else if record_le(c, x, s[0]) {
        let r = seq![x] + s;
        assert forall|i: int| 0 <= i < r.len() - 1 implies record_le(c, #[trigger] r[i], r[i + 1]) by {
            if i == 0 {
                assert(r[0] == x);
                assert(r[1] == s[0]);
            } else {
                assert(r[i] == s[i - 1]);
                assert(r[i + 1] == s[i]);
                assert(record_le(c, s[i - 1], s[i]));
            }
        }
    } else {
        lemma_record_le_total(c, x, s[0]);
        let t = s.drop_first();
        lemma_drop_first_sorted(c, s);
        lemma_insert_sorted(c, x, t);
        lemma_insert_head(c, x, t);
        lemma_insert_len(c, x, t);
        let r2 = insert_ordered(c, x, t);
        let r = seq![s[0]] + r2;
        assert forall|i: int| 0 <= i < r.len() - 1 implies record_le(c, #[trigger] r[i], r[i + 1]) by {
            if i == 0 {
                assert(r[0] == s[0]);
                assert(r[1] == r2[0]);
                if r2[0] == x {
                    assert(record_le(c, s[0], x));
                } else {
                    assert(t.len() > 0 && r2[0] == t[0]);
                    assert(t[0] == s[1]);
                    assert(record_le(c, s[0], s[1]));
                }
            } else {
                assert(r[i] == r2[i - 1]);
                assert(r[i + 1] == r2[i]);
                assert(record_le(c, r2[i - 1], r2[i]));
            }
        }
    }
}

/// Law: the ascending ranking is adjacently ordered — every displayed
/// row precedes or ties with the row below it.
pub proof fn lemma_sort_sorted(c: SortColumn, s: Seq<ProcessRecord>)
    ensures
        sorted_by_column(c, sort_by_column(c, s)),
    decreases s.len(),
{
    if s.len() == 0 {
    } else {
        lemma_sort_sorted(c, s.drop_first());
        lemma_insert_sorted(c, s[0], sort_by_column(c, s.drop_first()));
    }
}

/// Law: ranking rows that are already in order changes nothing. Ties
/// included: rows with equal keys stay exactly where they were, which
/// is the engine's stability policy, and it makes a repeated ranking
/// idempotent.
pub proof fn lemma_sort_fixes_sorted(c: SortColumn, s: Seq<ProcessRecord>)
    requires
        sorted_by_column(c, s),
    ensures
        sort_by_column(c, s) == s,
    decreases s.len(),
{
    if s.len() == 0 {
        assert(sort_by_column(c, s) =~= s);
    } else {
        let t = s.drop_first();
        lemma_drop_first_sorted(c, s);
        lemma_sort_fixes_sorted(c, t);
        if t.len() == 0 {
            assert(insert_ordered(c, s[0], t) =~= s);
        } else {
            assert(t[0] == s[1]);
            assert(record_le(c, s[0], s[1]));
            assert(seq![s[0]] + t =~= s);
        }
    }
}

proof fn lemma_insert_multiset(c: SortColumn, x: ProcessRecord, s: Seq<ProcessRecord>)
    ensures
        insert_ordered(c, x, s).to_multiset() == s.to_multiset().insert(x),
    decreases s.len(),
{
    broadcast use vstd::seq_lib::group_to_multiset_ensures;

    if s.len() == 0 {
        assert(seq![x] =~= Seq::<ProcessRecord>::empty().push(x));
        assert(seq![x].to_multiset() =~= s.to_multiset().insert(x));
    } else if record_le(c, x, s[0]) {
        vstd::seq_lib::lemma_multiset_commutative(seq![x], s);
        assert(seq![x] =~= Seq::<ProcessRecord>::empty().push(x));
        assert(seq![x].to_multiset() =~= Multiset::<ProcessRecord>::empty().insert(x));
        assert((seq![x] + s).to_multiset() =~= s.to_multiset().insert(x));
    } else {
        let t = s.drop_first();
        lemma_insert_multiset(c, x, t);
        vstd::seq_lib::lemma_multiset_commutative(seq![s[0]], insert_ordered(c, x, t));
        assert(s =~= seq![s[0]] + t);
        vstd::seq_lib::lemma_multiset_commutative(seq![s[0]], t);
        assert((seq![s[0]] + insert_ordered(c, x, t)).to_multiset() =~= s.to_multiset().insert(x));
    }
}

/// Law: ranking never loses, invents or duplicates a row — the ranked
/// rows are exactly the input rows as a multiset.
pub proof fn lemma_sort_multiset(c: SortColumn, s: Seq<ProcessRecord>)
    ensures
        sort_by_column(c, s).to_multiset() == s.to_multiset(),
    decreases s.len(),
{
    broadcast use vstd::seq_lib::group_to_multiset_ensures;

    if s.len() == 0 {
    } else {
        let t = s.drop_first();
        lemma_sort_multiset(c, t);
        lemma_insert_multiset(c, s[0], sort_by_column(c, t));
        assert(s =~= seq![s[0]] + t);
        vstd::seq_lib::lemma_multiset_commutative(seq![s[0]], t);
        assert(seq![s[0]] =~= Seq::<ProcessRecord>::empty().push(s[0]));
        assert(seq![s[0]].to_multiset() =~= Multiset::<ProcessRecord>::empty().insert(s[0]));
        assert(sort_by_column(c, s).to_multiset() =~= s.to_multiset());
    }
}

/// Law: whatever the ranking state, the displayed rows are exactly the
/// given rows as a multiset.
pub proof fn lemma_ordered_by_multiset(state: RankingState, s: Seq<ProcessRecord>)
    ensures
        ordered_by(state, s).to_multiset() == s.to_multiset(),
{
    lemma_sort_multiset(state.column, s);
    if state.direction != SortDirection::Ascending {
        sort_by_column(state.column, s).lemma_reverse_to_multiset();
    }
}

/// Law (idempotent re-sort): selecting the same column twice in a row
/// keeps that column active and flips the direction; the displayed
/// rows stay the same multiset throughout; and whenever the first
/// selection displays ascending, the second displays the exact
/// whole-sequence reversal of the first.
pub proof fn lemma_select_column_twice(
    state: RankingState,
    rows: Seq<ProcessRecord>,
    requested: SortColumn,
)
    ensures
        state.selected(requested).column == requested,
        state.selected(requested).selected(requested).column == requested,
        state.selected(requested).selected(requested).direction == state.selected(
            requested,
        ).direction.opposite(),
        ordered_by(state.selected(requested), rows).to_multiset() == rows.to_multiset(),
        ordered_by(
            state.selected(requested).selected(requested),
            ordered_by(state.selected(requested), rows),
        ).to_multiset() == rows.to_multiset(),
        state.selected(requested).direction == SortDirection::Ascending ==> ordered_by(
            state.selected(requested).selected(requested),
            ordered_by(state.selected(requested), rows),
        ) == ordered_by(state.selected(requested), rows).reverse(),
{
    let s1 = state.selected(requested);
    let s2 = s1.selected(requested);
    let r1 = ordered_by(s1, rows);
    lemma_ordered_by_multiset(s1, rows);
    lemma_ordered_by_multiset(s2, r1);
    if s1.direction == SortDirection::Ascending {
        lemma_sort_sorted(s1.column, rows);
        lemma_sort_fixes_sorted(s1.column, r1);
    }
}

proof fn lemma_filter_singleton(x: ProcessRecord, p: spec_fn(ProcessRecord) -> bool)
    ensures
        p(x) ==> seq![x].filter(p) == seq![x],
        !p(x) ==> seq![x].filter(p) == Seq::<ProcessRecord>::empty(),
{
    reveal_with_fuel(Seq::<ProcessRecord>::filter, 2);
    assert(seq![x].drop_last() =~= Seq::<ProcessRecord>::empty());
    assert(seq![x].last() == x);
    if p(x) {
        assert(seq![x].filter(p) =~= seq![x]);
    }
}

proof fn lemma_insert_filter(
    c: SortColumn,
    x: ProcessRecord,
    t: Seq<ProcessRecord>,
    p: spec_fn(ProcessRecord) -> bool,
)
    requires
        forall|a: ProcessRecord, b: ProcessRecord| p(a) && p(b) ==> #[trigger] tied(c, a, b),
    ensures
        p(x) ==> insert_ordered(c, x, t).filter(p) == seq![x] + t.filter(p),
        !p(x) ==> insert_ordered(c, x, t).filter(p) == t.filter(p),
    decreases t.len(),
{
    broadcast use Seq::filter_distributes_over_add;

    if t.len() == 0 {
        lemma_filter_singleton(x, p);
        reveal_with_fuel(Seq::<ProcessRecord>::filter, 1);
        if !p(x) {
            assert(insert_ordered(c, x, t).filter(p) =~= t.filter(p));
        }
    } else if record_le(c, x, t[0]) {
        lemma_filter_singleton(x, p);
        assert((seq![x] + t).filter(p) == seq![x].filter(p) + t.filter(p));
    } else {
        let t1 = t.drop_first();
        lemma_insert_filter(c, x, t1, p);
        lemma_filter_singleton(t[0], p);
        assert(t =~= seq![t[0]] + t1);
        assert(t.filter(p) == seq![t[0]].filter(p) + t1.filter(p));
        assert(insert_ordered(c, x, t).filter(p) == seq![t[0]].filter(p) + insert_ordered(
            c,
            x,
            t1,
        ).filter(p));
        if p(x) {
            // the row being placed ties with everything the class
            // holds, so it cannot have been ordered strictly past the
            // head: the head is outside the class.
            assert(!p(t[0])) by {
                if p(t[0]) {
                    assert(tied(c, x, t[0]));
                }
            }
            assert(insert_ordered(c, x, t).filter(p) =~= seq![x] + t.filter(p));
        }
    }
}

proof fn lemma_filter_reverse(s: Seq<ProcessRecord>, p: spec_fn(ProcessRecord) -> bool)
    ensures
        s.reverse().filter(p) == s.filter(p).reverse(),
    decreases s.len(),
{
    broadcast use Seq::filter_distributes_over_add;

    if s.len() == 0 {
        assert(s.reverse() =~= s);
        reveal_with_fuel(Seq::<ProcessRecord>::filter, 1);
        assert(s.filter(p).reverse() =~= s.filter(p));
    } else {
        let t = s.drop_first();
        lemma_filter_reverse(t, p);
        lemma_filter_singleton(s[0], p);
        assert(s.reverse() =~= t.reverse() + seq![s[0]]);
        assert(s =~= seq![s[0]] + t);
        assert(s.reverse().filter(p) == t.reverse().filter(p) + seq![s[0]].filter(p));
        assert(s.filter(p) == seq![s[0]].filter(p) + t.filter(p));
        assert(s.filter(p).reverse() =~= t.filter(p).reverse() + seq![s[0]].filter(p).reverse());
        assert(seq![s[0]].filter(p).reverse() =~= seq![s[0]].filter(p));
        assert(s.reverse().filter(p) =~= s.filter(p).reverse());
    }
}

/// Law (stability under ties): a class of pairwise-tied rows keeps
/// its input order through the ascending ranking — filtering the
/// ranked rows down to the class gives exactly the input rows
/// filtered down to it — and, since a descending toggle is a
/// whole-sequence reversal, the descending display shows the class in
/// exactly the reverse input order. The pairwise hypothesis holds of
/// the rows tied with any pivot under the PID, name and memory
/// columns, and under the CPU column for pivots with an ordered
/// reading (see the tie-class lemma beside the comparison).
pub proof fn lemma_stability_under_ties(
    c: SortColumn,
    s: Seq<ProcessRecord>,
    p: spec_fn(ProcessRecord) -> bool,
)
    requires
        forall|a: ProcessRecord, b: ProcessRecord| p(a) && p(b) ==> #[trigger] tied(c, a, b),
    ensures
        sort_by_column(c, s).filter(p) == s.filter(p),
        sort_by_column(c, s).reverse().filter(p) == s.filter(p).reverse(),
    decreases s.len(),
{
    lemma_filter_reverse(sort_by_column(c, s), p);
    broadcast use Seq::filter_distributes_over_add;

    if s.len() == 0 {
    } else {
        let t = s.drop_first();
        lemma_stability_under_ties(c, t, p);
        lemma_insert_filter(c, s[0], sort_by_column(c, t), p);
        lemma_filter_singleton(s[0], p);
        assert(s =~= seq![s[0]] + t);
        assert(s.filter(p) == seq![s[0]].filter(p) + t.filter(p));
        if p(s[0]) {
            assert(sort_by_column(c, s).filter(p) =~= s.filter(p));
        }
    }
}

/// Law (stability under ties): rows already in ascending order — tied
/// rows included — are displayed unchanged by the ascending ranking,
/// and exactly reversed, tie groups included, by the descending one.
/// This is the engine's explicit tie policy: a descending toggle is a
/// whole-sequence reversal of the stable ascending ranking, so it
/// inverts the relative order of tied rows too.
pub proof fn lemma_tie_policy(c: SortColumn, s: Seq<ProcessRecord>)
    requires
        sorted_by_column(c, s),
    ensures
        ordered_by((RankingState { column: c, direction: SortDirection::Ascending }), s) == s,
        ordered_by((RankingState { column: c, direction: SortDirection::Descending }), s)
            == s.reverse(),
{
    lemma_sort_fixes_sorted(c, s);
}

proof fn lemma_insert_ordered_at(c: SortColumn, x: ProcessRecord, s: Seq<ProcessRecord>, j: int)
    requires
        0 <= j <= s.len(),
        forall|k: int| 0 <= k < j ==> !record_le(c, x, #[trigger] s[k]),
        j < s.len() ==> record_le(c, x, s[j]),
    ensures
        insert_ordered(c, x, s) == s.take(j) + seq![x] + s.skip(j),
    decreases j,
{
    if j == 0 {
        if s.len() == 0 {
            assert(insert_ordered(c, x, s) =~= s.take(0) + seq![x] + s.skip(0));
        } else {
            assert(record_le(c, x, s[0]));
            assert(seq![x] + s =~= s.take(0) + seq![x] + s.skip(0));
        }
    } else {
        assert(!record_le(c, x, s[0]));
        let t = s.drop_first();
        assert forall|k: int| 0 <= k < j - 1 implies !record_le(c, x, #[trigger] t[k]) by {
            assert(t[k] == s[k + 1]);
        }
        if j - 1 < t.len() {
            assert(t[j - 1] == s[j]);
        }
        lemma_insert_ordered_at(c, x, t, j - 1);
        assert(seq![s[0]] + (t.take(j - 1) + seq![x] + t.skip(j - 1)) =~= s.take(j) + seq![x]
            + s.skip(j));
    }
}

fn insert_record(c: SortColumn, out: &mut Vec<ProcessRecord>, x: ProcessRecord)
    ensures
        final(out)@ == insert_ordered(c, x, old(out)@),
{
    let mut j: usize = 0;
    while j < out.len() && !record_le_exec(c, &x, &out[j])
        invariant
            j <= out.len(),
            out@ == old(out)@,
            forall|k: int| 0 <= k < j ==> !record_le(c, x, #[trigger] out@[k]),
        decreases out.len() - j,
    {
        j = j + 1;
    }
    proof {
        lemma_insert_ordered_at(c, x, out@, j as int);
    }
    out.insert(j, x);
    proof {
        assert(old(out)@.take(j as int) + seq![x] + old(out)@.skip(j as int) =~= old(
            out,
        )@.insert(j as int, x));
    }
}

/// Ranks the given rows ascending under column `c` with a stable
/// insertion sort: the result is exactly the specified stable ranking.
pub fn sort_records(c: SortColumn, records: Vec<ProcessRecord>) -> (r: Vec<ProcessRecord>)
    ensures
        r@ == sort_by_column(c, records@),
{
    let ghost orig: Seq<ProcessRecord> = records@;
    let mut rest = records;
    let mut out: Vec<ProcessRecord> = Vec::new();
    proof {
        assert(orig.take(orig.len() as int) =~= orig);
        assert(orig.skip(orig.len() as int) =~= Seq::<ProcessRecord>::empty());
    }
    while rest.len() > 0
        invariant
            rest@.len() <= orig.len(),
            rest@ == orig.take(rest@.len() as int),
            out@ == sort_by_column(c, orig.skip(rest@.len() as int)),
        decreases rest.len(),
    {
        let ghost i: int = rest@.len() as int - 1;
        let x = rest.pop().unwrap();
        proof {
            assert(x == orig[i]);
            assert(rest@ =~= orig.take(i));
        }
        insert_record(c, &mut out, x);
        proof {
            let s = orig.skip(i);
            assert(s[0] == orig[i]);
            assert(s.drop_first() =~= orig.skip(i + 1));
        }
    }
    proof {
        assert(orig.skip(0) =~= orig);
    }
    out
}

/// Reverses the given rows: the result is the input back to front.
pub fn reverse_records(records: Vec<ProcessRecord>) -> (r: Vec<ProcessRecord>)
    ensures
        r@ == records@.reverse(),
{
    let ghost orig: Seq<ProcessRecord> = records@;
    let mut rest = records;
    let mut out: Vec<ProcessRecord> = Vec::new();
    proof {
        assert(orig.take(orig.len() as int) =~= orig);
        assert(orig.skip(orig.len() as int).reverse() =~= Seq::<ProcessRecord>::empty());
    }
    while rest.len() > 0
        invariant
            rest@.len() <= orig.len(),
            rest@ == orig.take(rest@.len() as int),
            out@ == orig.skip(rest@.len() as int).reverse(),
        decreases rest.len(),
    {
        let ghost i: int = rest@.len() as int - 1;
        let x = rest.pop().unwrap();
        out.push(x);
        proof {
            assert(x == orig[i]);
            assert(rest@ =~= orig.take(i));
            assert(out@ =~= orig.skip(i).reverse());
        }
    }
    proof {
        assert(orig.skip(0) =~= orig);
    }
    out
}

/// Orders the given rows for display under a ranking state: stable
/// ascending ranking, then a whole-sequence reversal when descending.
pub fn order_records(state: RankingState, records: Vec<ProcessRecord>) -> (r: Vec<ProcessRecord>)
    ensures
        r@ == ordered_by(state, records@),
{
    let sorted = sort_records(state.column, records);
    match state.direction {
        SortDirection::Ascending => sorted,
        SortDirection::Descending => reverse_records(sorted),
    }
}

} // verus!
