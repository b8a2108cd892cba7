use automerge::transaction::Transactable;
use automerge::{ObjType, ReadDoc, ScalarValue};
use daw::collab::{decode_track, is_track_key, track_key, CollaborativeProject, FieldValue};

fn put_track(p: &mut CollaborativeProject, key: &str) {
    let obj = p.doc.put_object(automerge::ROOT, key, ObjType::Map).unwrap();
    p.doc.put(&obj, "muted", ScalarValue::Boolean(false)).unwrap();
}

#[test]
fn collab_track_keys_are_the_track_prefixed_root_keys() {
    let mut p = CollaborativeProject::new();
    assert!(p.track_keys().is_empty());
    put_track(&mut p, "track_2");
    put_track(&mut p, "track_10");
    p.doc.put(automerge::ROOT, "title", ScalarValue::Str("demo".into())).unwrap();
    p.doc.put(automerge::ROOT, "trac", ScalarValue::Boolean(true)).unwrap();
    let mut keys = p.track_keys();
    keys.sort();
    assert_eq!(keys, vec!["track_10".to_string(), "track_2".to_string()]);
}

#[test]
fn collab_is_track_key() {
    assert!(is_track_key("track_1"));
    assert!(is_track_key("track_"));
    assert!(!is_track_key("track"));
    assert!(!is_track_key("Track_1"));
    assert!(!is_track_key("xtrack_1"));
    assert!(!is_track_key(""));
}

#[test]
fn collab_save_load_and_merge() {
    let mut p = CollaborativeProject::new();
    put_track(&mut p, "track_1");
    let bytes = p.save();
    assert_eq!(p.track_keys(), vec!["track_1".to_string()]);

    let loaded = CollaborativeProject::load(&bytes).unwrap();
    assert_eq!(loaded.track_keys(), vec!["track_1".to_string()]);

    let empty = CollaborativeProject::load(&[]).unwrap();
    assert!(empty.doc.keys(automerge::ROOT).next().is_none());

    let mut other = CollaborativeProject::new();
    put_track(&mut other, "track_7");
    let other_bytes = other.save();
    let mut merged = CollaborativeProject::load(&bytes).unwrap();
    merged.merge(&other_bytes).unwrap();
    let mut keys = merged.track_keys();
    keys.sort();
    assert_eq!(keys, vec!["track_1".to_string(), "track_7".to_string()]);
}

#[test]
fn collab_bad_bytes_are_refused() {
    assert!(CollaborativeProject::load(&[1, 2, 3, 4]).is_err());
    let mut p = CollaborativeProject::new();
    put_track(&mut p, "track_3");
    assert!(p.merge(&[9, 9, 9]).is_err());
    assert_eq!(p.track_keys(), vec!["track_3".to_string()]);
}

#[test]
fn collab_decode_track_fields_and_defaults() {
    let t = decode_track(
        FieldValue::Uint(7),
        FieldValue::Str("Drums".to_string()),
        FieldValue::Level(0.8f32),
        FieldValue::Level(-0.5f32),
        FieldValue::Boolean(true),
        FieldValue::Boolean(false),
        1.0,
        0.0,
    );
    assert_eq!((t.id, t.name.as_str(), t.volume, t.pan, t.muted, t.solo), (7, "Drums", 0.8, -0.5, true, false));

    let d = decode_track(
        FieldValue::Str("x".to_string()),
        FieldValue::Uint(3),
        FieldValue::Boolean(true),
        FieldValue::Other,
        FieldValue::Level(1.0f32),
        FieldValue::Other,
        1.0,
        0.0,
    );
    assert_eq!((d.id, d.name.as_str(), d.volume, d.pan, d.muted, d.solo), (0, "", 1.0, 0.0, false, false));

    let neg = decode_track::<f32>(
        FieldValue::Int(-1),
        FieldValue::Other,
        FieldValue::Other,
        FieldValue::Other,
        FieldValue::Other,
        FieldValue::Other,
        1.0,
        0.0,
    );
    assert_eq!(neg.id, u64::MAX);
}

#[test]
fn collab_track_key_is_prefix_and_decimal_id() {
    assert_eq!(track_key(0), "track_0");
    assert_eq!(track_key(7), "track_7");
    assert_eq!(track_key(1234), "track_1234");
    assert_eq!(track_key(u64::MAX), format!("track_{}", u64::MAX));
    for id in [0u64, 9, 10, 99, 100, 4096] {
        assert_eq!(track_key(id), format!("track_{}", id));
        assert!(is_track_key(&track_key(id)));
    }
}

#[test]
fn collab_mute_track_sets_flag_or_leaves_project() {
    let mut p = CollaborativeProject::new();
    put_track(&mut p, "track_4");
    p.mute_track(4, true).unwrap();
    let (_, obj) = p.doc.get(automerge::ROOT, "track_4").unwrap().unwrap();
    let (value, _) = p.doc.get(&obj, "muted").unwrap().unwrap();
    assert_eq!(value.to_bool(), Some(true));
    // No track 5: nothing changes.
    p.mute_track(5, true).unwrap();
    assert_eq!(p.track_keys(), vec!["track_4".to_string()]);
}

#[test]
fn collab_save_load_keeps_keys_and_flags() {
    let mut p = CollaborativeProject::new();
    put_track(&mut p, "track_1");
    put_track(&mut p, "track_2");
    p.mute_track(2, true).unwrap();
    let bytes = p.save();
    let q = CollaborativeProject::load(&bytes).unwrap();
    let mut keys = q.track_keys();
    keys.sort();
    assert_eq!(keys, vec!["track_1".to_string(), "track_2".to_string()]);
    for (key, muted) in [("track_1", false), ("track_2", true)] {
        let (_, obj) = q.doc.get(automerge::ROOT, key).unwrap().unwrap();
        let (value, _) = q.doc.get(&obj, "muted").unwrap().unwrap();
        assert_eq!(value.to_bool(), Some(muted));
    }
}

#[test]
fn collab_merge_keeps_concurrent_edits() {
    let mut base = CollaborativeProject::new();
    put_track(&mut base, "track_1");
    let base_bytes = base.save();
    let mut a = CollaborativeProject::load(&base_bytes).unwrap();
    let mut b = CollaborativeProject::load(&base_bytes).unwrap();
    a.mute_track(1, true).unwrap();
    put_track(&mut b, "track_2");
    let b_bytes = b.save();
    assert!(a.merge(&b_bytes).is_ok());
    let mut keys = a.track_keys();
    keys.sort();
    assert_eq!(keys, vec!["track_1".to_string(), "track_2".to_string()]);
    let (_, obj) = a.doc.get(automerge::ROOT, "track_1").unwrap().unwrap();
    let (value, _) = a.doc.get(&obj, "muted").unwrap().unwrap();
    assert_eq!(value.to_bool(), Some(true));
}
