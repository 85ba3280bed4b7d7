use nmbrs_runtime::executor::cursor::{
    cursor_slots, live_extent_of, live_rows_of, over_fault, partition_banner, plan_source, progress_name,
    resolve_over, retries, stride_warning, CursorKind, CursorSchema, ExtensionPolicy, OverValue, Partition, PolicyArgs,
    RuntimeCursors, Scaled, SlotValue, SourcePlan,
};
use nmbrs_runtime::value::Float;

fn float(f: f64) -> Float {
    Float { bits: f.to_bits(), text: f.to_string() }
}

fn part(start_ord: u64, end_ord: u64, base_extent: u64) -> Partition {
    Partition {
        idx: 1,
        count: 4,
        start_ord,
        end_ord,
        start_pct: float(25.0),
        end_pct: float(50.0),
        base_extent,
    }
}

fn scaled(base: u64) -> Scaled {
    Scaled { part: part(25, 50, base), start: 250, end: 500 }
}

fn schema(kind: CursorKind, extent: Option<u64>) -> Vec<CursorSchema> {
    vec![CursorSchema { name: "c".into(), extent, kind }]
}

#[test]
fn a_partition_follows_the_extent_of_its_cursor() {
    assert_eq!(resolve_over(&OverValue::Absent, 1000, false), Ok(None));
    let moved = resolve_over(&OverValue::Part(scaled(100)), 1000, false).unwrap().unwrap();
    assert_eq!((moved.start_ord, moved.end_ord, moved.base_extent), (250, 500, 1000));
    let same = resolve_over(&OverValue::Part(scaled(1000)), 1000, false).unwrap().unwrap();
    assert_eq!((same.start_ord, same.end_ord), (25, 50));
    let empty = resolve_over(&OverValue::Part(scaled(100)), 0, false).unwrap().unwrap();
    assert_eq!((empty.start_ord, empty.end_ord, empty.base_extent), (25, 50, 100));
    let list = resolve_over(&OverValue::List(vec![scaled(100)]), 1000, false).unwrap().unwrap();
    assert_eq!(list.start_ord, 250);
    let spec = OverValue::Spec(Ok(vec![part(3, 4, 5)]));
    assert_eq!(resolve_over(&spec, 5, false), Ok(Some(part(3, 4, 5))));
}

#[test]
fn an_open_cursor_keeps_ordinals() {
    let kept = resolve_over(&OverValue::Part(scaled(100)), 1000, true).unwrap().unwrap();
    assert_eq!(kept, part(25, 50, 100));
    let e = resolve_over(&OverValue::Spec(Ok(vec![part(0, 1, 1)])), 1000, true).unwrap_err();
    assert!(e.starts_with("an open-extent cursor (`until_*`) has no extent"));
}

#[test]
fn a_cursor_takes_a_single_partition() {
    assert_eq!(
        resolve_over(&OverValue::Spec(Ok(vec![])), 10, false).unwrap_err(),
        "partition list is empty — spec produced no partitions"
    );
    let e = resolve_over(&OverValue::List(vec![scaled(1), scaled(1)]), 10, false).unwrap_err();
    assert!(e.starts_with("spec resolves to 2 partitions, but this cursor consumes it directly"));
    assert_eq!(
        resolve_over(&OverValue::Spec(Err("bad spec".into())), 10, false).unwrap_err(),
        "bad spec"
    );
    assert_eq!(
        resolve_over(&OverValue::OtherExt("Blob".into()), 10, false).unwrap_err(),
        "`over` expression produced an Ext value of unexpected type `Blob` — expected Partition, \
         PartitionSpec, or PartitionList"
    );
    assert_eq!(
        resolve_over(&OverValue::Unsupported("U64(3)".into()), 10, false).unwrap_err(),
        "`over` expression produced unsupported value type — expected Str or partition-typed Ext, \
         got U64(3)"
    );
}

#[test]
fn a_refused_clause_names_its_cursor() {
    assert_eq!(over_fault("c", "bad spec"), "cursor 'c': `over` clause failed to resolve: bad spec");
    assert_eq!(progress_name(&schema(CursorKind::Range, None)), "c");
    assert_eq!(progress_name(&vec![]), "cycles");
}

#[test]
fn slots_tell_the_partition() {
    let all = cursor_slots("c", &Some(part(25, 50, 100)), 100);
    let names: Vec<&str> = all.iter().map(|s| s.0.as_str()).collect();
    assert_eq!(
        names,
        [
            "c__cursor__idx",
            "c__cursor__partition_count",
            "c__cursor__start_pct",
            "c__cursor__end_pct",
            "c__cursor__start_ordinal",
            "c__cursor__end_ordinal",
            "c__cursor"
        ]
    );
    assert!(matches!(all[1].1, SlotValue::Count(4)));
    assert!(matches!(all[4].1, SlotValue::Count(25)));
    let bare = cursor_slots("c", &None, 77);
    assert_eq!(bare.len(), 1);
    assert!(matches!(&bare[0], (n, SlotValue::Count(77)) if n == "c__cursor__end_ordinal"));
    let mut none = part(0, 1, 1);
    none.count = 0;
    assert!(matches!(cursor_slots("c", &Some(none), 1)[1].1, SlotValue::Count(1)));
}

#[test]
fn several_partitions_are_announced() {
    assert_eq!(
        partition_banner("load", &part(25, 50, 100)).as_deref(),
        Some("phase 'load': partition 2/4 [25..50)")
    );
    let mut one = part(0, 10, 10);
    one.count = 1;
    one.idx = u64::MAX;
    assert_eq!(partition_banner("load", &one), None);
}

#[test]
fn a_chunk_stays_within_its_partition() {
    let mut c = RuntimeCursors::new();
    c.note_bounds("c", 10, 1010, None);
    c.note_partition("c", &part(25, 50, 100));
    c.note_policy(
        "c",
        CursorKind::ExtendingTimed,
        PolicyArgs { min_ms: 500, min_passes: 9, min_count: 9, delta: None },
    );
    assert_eq!(
        plan_source(&c, &schema(CursorKind::ExtendingTimed, Some(7)), 3),
        Some(SourcePlan::Extending {
            start: 25,
            chunk: 25,
            delta: 25,
            policy: ExtensionPolicy::UntilElapsed { min_ms: 500 },
            bound: Some(50),
        })
    );
    assert_eq!(
        plan_source(&c, &schema(CursorKind::Range, Some(7)), 3),
        Some(SourcePlan::Range { start: 25, end: 50 })
    );
}

#[test]
fn the_extent_comes_from_the_nearest_source() {
    let mut c = RuntimeCursors::new();
    assert_eq!(plan_source(&c, &vec![], 3), None);
    assert_eq!(
        plan_source(&c, &schema(CursorKind::Range, None), 3),
        Some(SourcePlan::Range { start: 0, end: 3 })
    );
    assert_eq!(
        plan_source(&c, &schema(CursorKind::Range, Some(7)), 3),
        Some(SourcePlan::Range { start: 0, end: 7 })
    );
    assert_eq!(c.extent_of(&schema(CursorKind::Range, None)[0]), 0);
    c.note_bounds("c", 10, 110, Some(40));
    assert_eq!(c.extent_of(&schema(CursorKind::Range, Some(7))[0]), 40);
    c.note_bounds("c", 110, 10, None);
    assert_eq!(c.extent_of(&schema(CursorKind::Range, Some(7))[0]), 0);
}

#[test]
fn policies_take_what_they_use() {
    let args = PolicyArgs { min_ms: 1, min_passes: 2, min_count: 3, delta: Some(4) };
    let kinds = [
        (CursorKind::ExtendingPasses, ExtensionPolicy::UntilPasses { min_passes: 2 }),
        (CursorKind::ExtendingCount, ExtensionPolicy::UntilCount { min_count: 3 }),
        (CursorKind::ExtendingElapsedAndPasses, ExtensionPolicy::Both { min_ms: 1, min_passes: 2 }),
        (CursorKind::ExtendingElapsedOrPasses, ExtensionPolicy::Either { min_ms: 1, min_passes: 2 }),
    ];
    for (kind, policy) in kinds {
        let mut c = RuntimeCursors::new();
        c.note_policy("c", kind, args);
        assert_eq!(
            plan_source(&c, &schema(kind, Some(100)), 0),
            Some(SourcePlan::Extending { start: 0, chunk: 100, delta: 4, policy, bound: None })
        );
    }
    let mut c = RuntimeCursors::new();
    c.note_policy("c", CursorKind::Range, args);
    assert_eq!(c.delta.len(), 0);
}

#[test]
fn progress_of_a_phase() {
    assert_eq!(live_extent_of(Some(Some(9)), 4), 9);
    assert_eq!((live_extent_of(Some(None), 4), live_extent_of(None, 4)), (4, 4));
    assert_eq!(live_rows_of(Some((3, Some(9)))), (3, 9));
    assert_eq!((live_rows_of(Some((3, None))), live_rows_of(None)), ((3, 0), (0, 0)));
    assert_eq!((retries(10, 8, 5), retries(2, 8, 5), retries(2, 1, 5)), (7, 0, 2));
    let w = stride_warning("load", 10, 4).unwrap();
    assert!(w.starts_with(
        "phase 'load': cursor extent (10) is not an even multiple of stanza length (4) — boundary \
         stanza will be 2/4 of a full stride after 2 clean stanza(s)."
    ));
    assert_eq!(stride_warning("load", 8, 4), None);
    assert_eq!((stride_warning("load", 0, 4), stride_warning("load", 8, 0)), (None, None));
}
