use entry_watch::diff::{diff, FieldChange, FieldDelta, Snapshot};
use entry_watch::dispatch::{DispatchAction, DispatchEvent, Dispatcher, Phase};
use entry_watch::error::FatalError;
use entry_watch::journal::{JournalReader, ReaderAction, ReaderEvent, MAX_TRANSIENT_RETRIES};
use entry_watch::record::{ChangeRecord, EntryReference};
use entry_watch::value::{json_eq, JsonValue};

fn s(text: &str) -> String {
    text.to_string()
}

fn file_snapshot(size: i128, name: &str) -> Snapshot {
    Snapshot::from_fields(vec![
        (s("size"), JsonValue::Int(size)),
        (s("name"), JsonValue::Str(s(name))),
    ])
    .unwrap()
}

fn target() -> EntryReference {
    EntryReference { entry: 41, sequence: 3, extended: 0 }
}

fn record_for(reference: EntryReference, reason: u32) -> ChangeRecord {
    ChangeRecord {
        major_version: 2,
        minor_version: 0,
        reference,
        parent: EntryReference { entry: 5, sequence: 5, extended: 0 },
        usn: 10,
        timestamp: 20,
        reason,
        name: "a.txt".encode_utf16().collect(),
    }
}

fn leaf(c: &FieldChange) -> (&Option<JsonValue>, &Option<JsonValue>) {
    match &c.change {
        FieldDelta::Leaf { old, new } => (old, new),
        FieldDelta::Nested(_) => panic!("expected a changed value"),
    }
}

fn change_of(old: Option<JsonValue>, new: Option<JsonValue>) -> JsonValue {
    let mut members = Vec::new();
    if let Some(v) = old {
        members.push((s("old"), v));
    }
    if let Some(v) = new {
        members.push((s("new"), v));
    }
    JsonValue::Object(members)
}

#[test]
fn diff_of_identical_snapshots_is_empty() {
    let a = file_snapshot(100, "a.txt");
    let b = file_snapshot(100, "a.txt");
    assert!(diff(&a, &b).is_empty());
    let empty = Snapshot::from_fields(vec![]).unwrap();
    assert!(diff(&empty, &Snapshot::from_fields(vec![]).unwrap()).is_empty());
}

#[test]
fn diff_reports_changed_added_and_removed_fields() {
    let a = Snapshot::from_fields(vec![
        (s("size"), JsonValue::Int(100)),
        (s("name"), JsonValue::Str(s("a.txt"))),
        (s("gone"), JsonValue::Bool(true)),
    ])
    .unwrap();
    let b = Snapshot::from_fields(vec![
        (s("name"), JsonValue::Str(s("a.txt"))),
        (s("size"), JsonValue::Int(150)),
        (s("fresh"), JsonValue::Null),
    ])
    .unwrap();
    let d = diff(&a, &b);
    assert_eq!(d.len(), 3);
    assert_eq!(d.entries[0].key, "size");
    assert!(json_eq(leaf(&d.entries[0]).0.as_ref().unwrap(), &JsonValue::Int(100)));
    assert!(json_eq(leaf(&d.entries[0]).1.as_ref().unwrap(), &JsonValue::Int(150)));
    assert_eq!(d.entries[1].key, "gone");
    assert!(leaf(&d.entries[1]).1.is_none());
    assert_eq!(d.entries[2].key, "fresh");
    assert!(leaf(&d.entries[2]).0.is_none());
    assert!(json_eq(leaf(&d.entries[2]).1.as_ref().unwrap(), &JsonValue::Null));
}

#[test]
fn diff_is_symmetric() {
    let a = file_snapshot(100, "a.txt");
    let b = Snapshot::from_fields(vec![(s("size"), JsonValue::Int(150)), (s("mode"), JsonValue::Int(7))])
        .unwrap();
    let ab = diff(&a, &b);
    let ba = diff(&b, &a);
    assert_eq!(ab.len(), ba.len());
    for e in ab.entries.iter() {
        let f = ba.entries.iter().find(|f| f.key == e.key).unwrap();
        let (e_old, e_new) = leaf(e);
        let (f_old, f_new) = leaf(f);
        match (e_old, f_new) {
            (Some(x), Some(y)) => assert!(json_eq(x, y)),
            (None, None) => {}
            _ => panic!("old and new not swapped"),
        }
        match (e_new, f_old) {
            (Some(x), Some(y)) => assert!(json_eq(x, y)),
            (None, None) => {}
            _ => panic!("old and new not swapped"),
        }
    }
}

#[test]
fn nested_values_compare_structurally() {
    let inner = |n: i128| JsonValue::Array(vec![JsonValue::Int(n), JsonValue::Float(0x4000_0000_0000_0000)]);
    let a = Snapshot::from_fields(vec![(s("attrs"), JsonValue::Object(vec![(s("x"), inner(1))]))]).unwrap();
    let b = Snapshot::from_fields(vec![(s("attrs"), JsonValue::Object(vec![(s("x"), inner(1))]))]).unwrap();
    let c = Snapshot::from_fields(vec![(s("attrs"), JsonValue::Object(vec![(s("x"), inner(2))]))]).unwrap();
    assert!(diff(&a, &b).is_empty());
    let d = diff(&a, &c);
    assert_eq!(d.len(), 1);
    let expected = JsonValue::Object(vec![(
        s("attrs"),
        JsonValue::Object(vec![(s("x"), change_of(Some(inner(1)), Some(inner(2))))]),
    )]);
    assert!(json_eq(&d.to_value(), &expected));
    assert!(!json_eq(&JsonValue::Int(1), &JsonValue::Float(1)));
    assert!(!json_eq(&JsonValue::Str(s("1")), &JsonValue::Int(1)));
}

#[test]
fn duplicate_field_names_are_refused() {
    let r = Snapshot::from_fields(vec![(s("size"), JsonValue::Int(1)), (s("size"), JsonValue::Int(2))]);
    assert!(r.is_none());
}

#[test]
fn baseline_is_emitted_verbatim_at_start() {
    let (d, doc) = Dispatcher::start(target(), file_snapshot(100, "a.txt"));
    let expected = JsonValue::Object(vec![
        (s("size"), JsonValue::Int(100)),
        (s("name"), JsonValue::Str(s("a.txt"))),
    ]);
    assert!(json_eq(&doc, &expected));
    assert!(matches!(d.phase, Phase::Waiting));
}

#[test]
fn matching_record_with_change_emits_delta_and_moves_baseline() {
    let (mut d, _) = Dispatcher::start(target(), file_snapshot(100, "a.txt"));
    assert!(matches!(d.step(DispatchEvent::Record(record_for(target(), 2))), DispatchAction::TakeSnapshot));
    let act = d.step(DispatchEvent::Taken(file_snapshot(150, "a.txt")));
    let delta = match act {
        DispatchAction::Emit(delta) => delta,
        _ => panic!("expected a delta"),
    };
    let expected = JsonValue::Object(vec![(
        s("size"),
        change_of(Some(JsonValue::Int(100)), Some(JsonValue::Int(150))),
    )]);
    assert!(json_eq(&delta.to_value(), &expected));
    assert!(matches!(d.step(DispatchEvent::Written), DispatchAction::WaitForRecord));
    assert!(json_eq(&d.baseline.to_value(), &file_snapshot(150, "a.txt").to_value()));
}

#[test]
fn unchanged_snapshot_emits_nothing_and_keeps_baseline() {
    let (mut d, _) = Dispatcher::start(target(), file_snapshot(100, "a.txt"));
    d.step(DispatchEvent::Record(record_for(target(), 4)));
    let act = d.step(DispatchEvent::Taken(file_snapshot(100, "a.txt")));
    assert!(matches!(act, DispatchAction::WaitForRecord));
    assert!(json_eq(&d.baseline.to_value(), &file_snapshot(100, "a.txt").to_value()));
    d.step(DispatchEvent::Record(record_for(target(), 2)));
    match d.step(DispatchEvent::Taken(file_snapshot(200, "a.txt"))) {
        DispatchAction::Emit(delta) => {
            let expected = JsonValue::Object(vec![(
                s("size"),
                change_of(Some(JsonValue::Int(100)), Some(JsonValue::Int(200))),
            )]);
            assert!(json_eq(&delta.to_value(), &expected));
        }
        _ => panic!("expected a delta"),
    }
}

#[test]
fn other_entries_never_trigger_a_snapshot() {
    let (mut d, _) = Dispatcher::start(target(), file_snapshot(100, "a.txt"));
    let others = [
        EntryReference { entry: 40, sequence: 3, extended: 0 },
        EntryReference { entry: 41, sequence: 4, extended: 0 },
        EntryReference { entry: 41, sequence: 3, extended: 1 },
    ];
    let mut snapshots_asked = 0;
    for (i, r) in others.iter().enumerate() {
        for reason in [0u32, 2, 0x8000_0000, 0xFFFF_FFFF] {
            let act = d.step(DispatchEvent::Record(record_for(*r, reason ^ i as u32)));
            if matches!(act, DispatchAction::TakeSnapshot) {
                snapshots_asked += 1;
            }
        }
    }
    assert_eq!(snapshots_asked, 0);
    assert!(matches!(d.phase, Phase::Waiting));
    assert!(d.is_watched(&record_for(target(), 0)));
}

#[test]
fn changes_are_seen_after_a_journal_reset() {
    let (mut d, _) = Dispatcher::start(target(), file_snapshot(100, "a.txt"));
    let mut reader = JournalReader::new(500);
    assert!(matches!(reader.step(ReaderEvent::OutOfRange), ReaderAction::QueryBounds));
    assert_eq!(reader.cursor, 500);
    match reader.step(ReaderEvent::Bounds(9000)) {
        ReaderAction::Resume { cursor } => assert_eq!(cursor, 9000),
        _ => panic!("expected a resume"),
    }
    assert_eq!(reader.cursor, 9000);
    let mut buf = 9100u64.to_le_bytes().to_vec();
    let mut rec = vec![0u8; 64];
    rec[0..4].copy_from_slice(&64u32.to_le_bytes());
    rec[4..6].copy_from_slice(&2u16.to_le_bytes());
    rec[8..16].copy_from_slice(&(41u64 | (3u64 << 48)).to_le_bytes());
    rec[40..44].copy_from_slice(&2u32.to_le_bytes());
    rec[58..60].copy_from_slice(&60u16.to_le_bytes());
    buf.extend(rec);
    let records = match reader.step(ReaderEvent::Data(buf)) {
        ReaderAction::Read { cursor, records } => {
            assert_eq!(cursor, 9100);
            records
        }
        _ => panic!("expected records"),
    };
    assert_eq!(records.len(), 1);
    let rec = records.into_iter().next().unwrap();
    assert!(matches!(d.step(DispatchEvent::Record(rec)), DispatchAction::TakeSnapshot));
    assert!(matches!(d.step(DispatchEvent::Taken(file_snapshot(1, "a.txt"))), DispatchAction::Emit(_)));
}

#[test]
fn deleted_entry_stops_the_run() {
    let (mut d, _) = Dispatcher::start(target(), file_snapshot(100, "a.txt"));
    d.step(DispatchEvent::Record(record_for(target(), 0x200)));
    match d.step(DispatchEvent::EntryGone) {
        DispatchAction::Stop(e) => {
            assert_eq!(e, FatalError::EntryUnavailable);
            assert_eq!(e.exit_code(), 3);
            assert_ne!(e.exit_code(), FatalError::VolumeUnavailable.exit_code());
        }
        _ => panic!("expected a stop"),
    }
}

#[test]
fn closed_queue_and_failed_write_stop_the_run() {
    let (mut d, _) = Dispatcher::start(target(), file_snapshot(100, "a.txt"));
    assert!(matches!(d.step(DispatchEvent::QueueClosed), DispatchAction::Stop(FatalError::SourceDisconnected)));
    let (mut d, _) = Dispatcher::start(target(), file_snapshot(100, "a.txt"));
    d.step(DispatchEvent::Record(record_for(target(), 2)));
    d.step(DispatchEvent::Taken(file_snapshot(101, "a.txt")));
    assert!(matches!(d.step(DispatchEvent::WriteFailed), DispatchAction::Stop(FatalError::SinkWriteFailure)));
    assert!(json_eq(&d.baseline.to_value(), &file_snapshot(100, "a.txt").to_value()));
}

#[test]
fn transient_failures_retry_then_give_up() {
    let mut reader = JournalReader::new(77);
    for _ in 0..MAX_TRANSIENT_RETRIES {
        match reader.step(ReaderEvent::Transient) {
            ReaderAction::Read { cursor, records } => {
                assert_eq!(cursor, 77);
                assert!(records.is_empty());
            }
            _ => panic!("expected a retry"),
        }
    }
    assert!(matches!(reader.step(ReaderEvent::Transient), ReaderAction::Stop(FatalError::VolumeUnavailable)));
    assert!(matches!(reader.step(ReaderEvent::Failed), ReaderAction::Stop(FatalError::VolumeUnavailable)));
}

#[test]
fn corrupt_batch_stops_without_moving_the_cursor() {
    let mut reader = JournalReader::new(77);
    let mut buf = 99u64.to_le_bytes().to_vec();
    buf.extend_from_slice(&[200, 0, 0, 0, 2, 0, 0, 0]);
    assert!(matches!(reader.step(ReaderEvent::Data(buf)), ReaderAction::Stop(FatalError::MalformedRecord)));
    assert_eq!(reader.cursor, 77);
    assert_eq!(FatalError::MalformedRecord.exit_code(), 6);
}

#[test]
fn structural_equality_looks_at_every_element() {
    let a = JsonValue::Array(vec![JsonValue::Int(1), JsonValue::Int(2)]);
    let shorter = JsonValue::Array(vec![JsonValue::Int(1)]);
    assert!(!json_eq(&a, &shorter));
    assert!(json_eq(&a, &a.deep_copy()));
    let o = JsonValue::Object(vec![(s("x"), JsonValue::Bool(true)), (s("y"), JsonValue::Null)]);
    let renamed = JsonValue::Object(vec![(s("x"), JsonValue::Bool(true)), (s("z"), JsonValue::Null)]);
    assert!(!json_eq(&o, &renamed));
    assert!(json_eq(&o, &o.deep_copy()));
}

#[test]
fn removed_field_renders_only_its_old_value() {
    let a = file_snapshot(100, "a.txt");
    let b = Snapshot::from_fields(vec![(s("size"), JsonValue::Int(100))]).unwrap();
    let expected = JsonValue::Object(vec![(s("name"), change_of(Some(JsonValue::Str(s("a.txt"))), None))]);
    assert!(json_eq(&diff(&a, &b).to_value(), &expected));
    let back = JsonValue::Object(vec![(s("name"), change_of(None, Some(JsonValue::Str(s("a.txt")))))]);
    assert!(json_eq(&diff(&b, &a).to_value(), &back));
}

#[test]
fn nested_delta_holds_only_changed_members() {
    let attrs = |size: i128, extra: Option<i128>| {
        let mut m = vec![
            (s("size"), JsonValue::Int(size)),
            (s("flags"), JsonValue::Int(32)),
            (s("names"), JsonValue::Array(vec![JsonValue::Str(s("a.txt"))])),
        ];
        if let Some(e) = extra {
            m.push((s("extra"), JsonValue::Int(e)));
        }
        Snapshot::from_fields(vec![
            (s("standard"), JsonValue::Object(m)),
            (s("name"), JsonValue::Str(s("a.txt"))),
        ])
        .unwrap()
    };
    let a = attrs(100, None);
    let b = attrs(150, Some(1));
    let d = diff(&a, &b);
    assert_eq!(d.len(), 1);
    assert_eq!(d.entries[0].key, "standard");
    match &d.entries[0].change {
        FieldDelta::Nested(inner) => {
            assert_eq!(inner.len(), 2);
            assert_eq!(inner.entries[0].key, "size");
            assert_eq!(inner.entries[1].key, "extra");
        }
        FieldDelta::Leaf { .. } => panic!("expected changes inside the object"),
    }
    let expected = JsonValue::Object(vec![(
        s("standard"),
        JsonValue::Object(vec![
            (s("size"), change_of(Some(JsonValue::Int(100)), Some(JsonValue::Int(150)))),
            (s("extra"), change_of(None, Some(JsonValue::Int(1)))),
        ]),
    )]);
    assert!(json_eq(&d.to_value(), &expected));
    let back = diff(&b, &a);
    let expected_back = JsonValue::Object(vec![(
        s("standard"),
        JsonValue::Object(vec![
            (s("size"), change_of(Some(JsonValue::Int(150)), Some(JsonValue::Int(100)))),
            (s("extra"), change_of(Some(JsonValue::Int(1)), None)),
        ]),
    )]);
    assert!(json_eq(&back.to_value(), &expected_back));
    assert!(diff(&a, &attrs(100, None)).is_empty());
}

#[test]
fn object_replacing_a_scalar_is_a_changed_value() {
    let a = Snapshot::from_fields(vec![(s("attrs"), JsonValue::Int(1))]).unwrap();
    let b = Snapshot::from_fields(vec![(s("attrs"), JsonValue::Object(vec![(s("x"), JsonValue::Null)]))]).unwrap();
    let d = diff(&a, &b);
    assert_eq!(d.len(), 1);
    let (old, new) = leaf(&d.entries[0]);
    assert!(json_eq(old.as_ref().unwrap(), &JsonValue::Int(1)));
    assert!(json_eq(new.as_ref().unwrap(), &JsonValue::Object(vec![(s("x"), JsonValue::Null)])));
}

#[test]
fn nested_duplicate_names_are_refused() {
    let r = Snapshot::from_fields(vec![(
        s("attrs"),
        JsonValue::Object(vec![(s("x"), JsonValue::Int(1)), (s("x"), JsonValue::Int(2))]),
    )]);
    assert!(r.is_none());
}

#[test]
fn file_index_splits_into_index_and_counter() {
    let index = 41u64 | (3u64 << 48);
    assert_eq!(EntryReference::from_file_index(index), target());
    assert!(target().names_same_entry(index));
    assert!(!target().names_same_entry(41 | (4u64 << 48)));
    assert!(!target().names_same_entry(40 | (3u64 << 48)));
}
