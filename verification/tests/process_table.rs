use proctable::ranking::{RankingState, SortColumn, SortDirection};
use proctable::record::{build_record, CpuReading, RawProcess};
use proctable::table::ProcessTable;

/// Maps the provider's floating-point CPU percentage to the
/// order-preserving key the library stores: an IEEE total-order bit
/// trick for ordered values, `Incomparable` for NaN.
fn cpu(value: f32) -> CpuReading {
    if value.is_nan() {
        CpuReading::Incomparable
    } else {
        let bits = value.to_bits();
        let key = if bits & 0x8000_0000 != 0 { !bits } else { bits | 0x8000_0000 };
        CpuReading::Ordered(key as u64)
    }
}

fn raw(pid: u32, name: &str, memory_bytes: u64, cpu_percent: f32) -> RawProcess {
    RawProcess { pid, name: name.to_string(), memory_bytes, cpu_percent: cpu(cpu_percent) }
}

fn pids(t: &ProcessTable) -> Vec<u32> {
    t.records.iter().map(|r| r.pid).collect()
}

#[test]
fn unit_conversion_truncates_to_whole_megabytes() {
    let r = build_record(raw(1, "a", 2_097_152, 0.0));
    assert_eq!(r.memory_mb, 2);
    let r = build_record(raw(1, "a", 1_000_000, 0.0));
    assert_eq!(r.memory_mb, 0);
    let r = build_record(raw(1, "a", 1_048_575, 0.0));
    assert_eq!(r.memory_mb, 0);
    let r = build_record(raw(1, "a", 1_048_576, 0.0));
    assert_eq!(r.memory_mb, 1);
}

#[test]
fn build_record_is_total_and_passes_cpu_through() {
    let r = build_record(raw(0, "", 0, 250.0));
    assert_eq!(r.pid, 0);
    assert_eq!(r.name, "");
    assert_eq!(r.memory_mb, 0);
    assert_eq!(r.cpu_percent, cpu(250.0));
}

#[test]
fn end_to_end_scenario() {
    let mut t = ProcessTable::new();
    assert_eq!(t.ranking.column, SortColumn::Pid);
    assert_eq!(t.ranking.direction, SortDirection::Ascending);
    t.refresh(vec![raw(10, "a", 3_145_728, 1.0), raw(20, "b", 1_048_576, 9.5)]);
    assert_eq!(pids(&t), vec![10, 20]);

    t.select_column(SortColumn::Memory);
    assert_eq!(pids(&t), vec![20, 10]);
    assert_eq!(t.records[0].memory_mb, 1);
    assert_eq!(t.records[1].memory_mb, 3);

    t.select_column(SortColumn::Memory);
    assert_eq!(pids(&t), vec![10, 20]);
}

#[test]
fn ties_keep_input_order_ascending_and_reverse_on_toggle() {
    let mut t = ProcessTable::new();
    t.refresh(vec![raw(1, "p", 0, 5.0), raw(2, "q", 0, 5.0)]);
    t.select_column(SortColumn::Cpu);
    // Equal CPU keys: the stable ascending ranking keeps input order.
    assert_eq!(pids(&t), vec![1, 2]);
    t.select_column(SortColumn::Cpu);
    // The descending toggle reverses the whole sequence, ties included.
    assert_eq!(pids(&t), vec![2, 1]);
}

#[test]
fn kill_always_refreshes_exactly_once() {
    let mut t = ProcessTable::new();
    t.refresh(vec![raw(7, "a", 0, 0.0), raw(8, "b", 0, 0.0)]);
    assert_eq!(t.generation, 1);

    // The pid was found and terminated: the fresh snapshot no longer has it.
    t.kill(7, vec![raw(8, "b", 0, 0.0)]);
    assert_eq!(t.generation, 2);
    assert_eq!(pids(&t), vec![8]);

    // A stale pid: no process was found, the table still reconciles once.
    t.kill(999, vec![raw(8, "b", 0, 0.0)]);
    assert_eq!(t.generation, 3);
    assert_eq!(pids(&t), vec![8]);
}

#[test]
fn select_column_takes_no_snapshot() {
    let mut t = ProcessTable::new();
    t.refresh(vec![raw(3, "c", 9_999_999, 1.0), raw(4, "d", 5, 2.0)]);
    let generation_before = t.generation;
    let mut seen_before = pids(&t);
    t.select_column(SortColumn::Name);
    // Re-ordering the existing rows queries nothing: the generation
    // count, which every snapshot replacement bumps, is unchanged, and
    // the rows are the same set.
    assert_eq!(t.generation, generation_before);
    let mut seen_after = pids(&t);
    seen_before.sort_unstable();
    seen_after.sort_unstable();
    assert_eq!(seen_after, seen_before);
}

#[test]
fn selecting_another_column_resets_direction_to_ascending() {
    let mut state = RankingState { column: SortColumn::Pid, direction: SortDirection::Ascending };
    state.select_column(SortColumn::Pid);
    assert_eq!(state.column, SortColumn::Pid);
    assert_eq!(state.direction, SortDirection::Descending);
    state.select_column(SortColumn::Cpu);
    assert_eq!(state.column, SortColumn::Cpu);
    assert_eq!(state.direction, SortDirection::Ascending);
    state.select_column(SortColumn::Cpu);
    assert_eq!(state.direction, SortDirection::Descending);
}

#[test]
fn name_sorting_is_lexicographic() {
    let mut t = ProcessTable::new();
    t.refresh(vec![
        raw(1, "systemd", 0, 0.0),
        raw(2, "bash", 0, 0.0),
        raw(3, "Bash", 0, 0.0),
        raw(4, "", 0, 0.0),
        raw(5, "bas", 0, 0.0),
    ]);
    t.select_column(SortColumn::Name);
    // By code point: "" < "Bash" < "bas" < "bash" < "systemd".
    assert_eq!(pids(&t), vec![4, 3, 5, 2, 1]);
}

#[test]
fn name_sorting_compares_code_points_not_bytes_count() {
    let mut t = ProcessTable::new();
    t.refresh(vec![raw(1, "bär", 0, 0.0), raw(2, "baz", 0, 0.0), raw(3, "ba", 0, 0.0)]);
    t.select_column(SortColumn::Name);
    // "ba" is a prefix of both; 'z' (U+007A) precedes 'ä' (U+00E4).
    assert_eq!(pids(&t), vec![3, 2, 1]);
}

#[test]
fn incomparable_cpu_ties_with_every_reading() {
    let mut t = ProcessTable::new();
    t.refresh(vec![raw(1, "a", 0, 9.0), raw(2, "b", 0, f32::NAN), raw(3, "c", 0, 1.0)]);
    t.select_column(SortColumn::Cpu);
    // The NaN row ties with both neighbours, and the stable ranking
    // never moves a row past one it ties with: everything stays put,
    // even though the comparable readings around the NaN are out of
    // order with each other.
    assert_eq!(pids(&t), vec![1, 2, 3]);
}

#[test]
fn refresh_keeps_ranking_state_across_generations() {
    let mut t = ProcessTable::new();
    t.refresh(vec![raw(1, "a", 1_048_576, 0.0), raw(2, "b", 3_145_728, 0.0)]);
    t.select_column(SortColumn::Memory);
    t.select_column(SortColumn::Memory);
    assert_eq!(t.ranking.direction, SortDirection::Descending);
    assert_eq!(pids(&t), vec![2, 1]);
    // A new generation is ordered under the same held ranking state.
    t.refresh(vec![raw(5, "e", 2_097_152, 0.0), raw(6, "f", 7_340_032, 0.0)]);
    assert_eq!(t.ranking.column, SortColumn::Memory);
    assert_eq!(t.ranking.direction, SortDirection::Descending);
    assert_eq!(pids(&t), vec![6, 5]);
    assert_eq!(t.generation, 2);
}

#[test]
fn refresh_with_empty_snapshot_clears_the_table() {
    let mut t = ProcessTable::new();
    t.refresh(vec![raw(1, "a", 0, 0.0)]);
    assert_eq!(t.records.len(), 1);
    t.refresh(Vec::new());
    assert!(t.records.is_empty());
    assert_eq!(t.generation, 2);
}

#[test]
fn descending_pid_reverses_the_ascending_order() {
    let mut t = ProcessTable::new();
    t.refresh(vec![raw(30, "a", 0, 0.0), raw(10, "b", 0, 0.0), raw(20, "c", 0, 0.0)]);
    assert_eq!(pids(&t), vec![10, 20, 30]);
    t.select_column(SortColumn::Pid);
    assert_eq!(pids(&t), vec![30, 20, 10]);
}

#[test]
fn stable_ranking_keeps_input_order_on_equal_memory() {
    let mut t = ProcessTable::new();
    t.refresh(vec![
        raw(9, "z", 1_048_576, 0.0),
        raw(4, "y", 1_048_576, 0.0),
        raw(6, "x", 1_048_576, 0.0),
    ]);
    t.select_column(SortColumn::Memory);
    // All keys equal: ascending input order is the PID order the
    // default ranking produced beforehand.
    assert_eq!(pids(&t), vec![4, 6, 9]);
}

#[test]
fn cpu_ranking_orders_by_reported_percentage() {
    let mut t = ProcessTable::new();
    t.refresh(vec![raw(1, "a", 0, 120.5), raw(2, "b", 0, 0.5), raw(3, "c", 0, 99.9)]);
    t.select_column(SortColumn::Cpu);
    assert_eq!(pids(&t), vec![2, 3, 1]);
    t.select_column(SortColumn::Cpu);
    assert_eq!(pids(&t), vec![1, 3, 2]);
}
