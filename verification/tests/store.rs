use atref::store::{record_pick, schema_step, stale_paths, PickRecord, SchemaStep, SCHEMA_VERSION};

#[test]
fn picks_count_up_and_saturate() {
    let first = record_pick(None, 100);
    assert_eq!(first, PickRecord { count: 1, last_picked_unix: 100 });
    let second = record_pick(Some(first), 200);
    assert_eq!(second, PickRecord { count: 2, last_picked_unix: 200 });
    let top = record_pick(Some(PickRecord { count: u32::MAX, last_picked_unix: 1 }), 5);
    assert_eq!(top.count, u32::MAX);
}

#[test]
fn schema_mismatch_resets() {
    assert_eq!(schema_step(None), SchemaStep::Initialize);
    assert_eq!(schema_step(Some(SCHEMA_VERSION)), SchemaStep::Keep);
    assert_eq!(schema_step(Some(SCHEMA_VERSION + 1)), SchemaStep::Reset);
}

#[test]
fn stale_ledger_rows_are_those_no_longer_indexed() {
    let ledger = vec![r"D:\v\a.md".to_string(), r"D:\v\gone.md".to_string(), r"D:\v\b.md".to_string()];
    let present = vec![r"D:\v\b.md".to_string(), r"D:\v\a.md".to_string()];
    assert_eq!(stale_paths(&ledger, &present), vec![r"D:\v\gone.md".to_string()]);
    assert!(stale_paths(&[], &present).is_empty());
}

#[test]
fn records_picks_with_count_and_recent_time() {
    let once = record_pick(None, 1_700_000_000);
    let twice = record_pick(Some(once), 1_700_000_060);
    assert_eq!(twice.count, 2);
    assert_eq!(twice.last_picked_unix, 1_700_000_060);
}
