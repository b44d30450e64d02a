use taskmanager::codec::decode;
use taskmanager::codec::encode;
use taskmanager::codec::load;
use taskmanager::project::ProjectStore;

#[test]
fn round_trip_preserves_projects_and_order() {
    let mut store = ProjectStore::new();
    let a = store.create("Website", "Rebuild");
    let b = store.create("", "empty name survives");
    let c = store.create("Umlaute \u{00e4}\u{00f6}\u{00fc} \u{1F600}", "");
    let bytes = encode(&store);
    let back = decode(&bytes).expect("an encoding must decode");
    let orig = store.list();
    let got = back.list();
    assert_eq!(orig.len(), got.len());
    for (x, y) in orig.iter().zip(got.iter()) {
        assert_eq!(x.id, y.id);
        assert_eq!(x.name, y.name);
        assert_eq!(x.description, y.description);
    }
    assert_eq!(got[0].id, a);
    assert_eq!(got[1].id, b);
    assert_eq!(got[2].id, c);
}

#[test]
fn empty_store_round_trips() {
    let store = ProjectStore::new();
    let bytes = encode(&store);
    let back = decode(&bytes).expect("an encoding must decode");
    assert_eq!(back.list().len(), 0);
}

#[test]
fn corrupt_payloads_are_rejected() {
    assert!(decode(&vec![]).is_none());
    assert!(decode(&vec![1, 2, 3]).is_none());
    let mut store = ProjectStore::new();
    store.create("a", "b");
    let mut bytes = encode(&store);
    bytes.push(0);
    assert!(decode(&bytes).is_none(), "trailing bytes must be rejected");
    let bytes = encode(&store);
    let truncated = bytes[..bytes.len() - 1].to_vec();
    assert!(decode(&truncated).is_none(), "truncated payloads must be rejected");
}

#[test]
fn load_absorbs_corruption_and_absence() {
    assert_eq!(load(None).list().len(), 0);
    assert_eq!(load(Some(vec![0xff, 0x00, 0x17])).list().len(), 0);
    let mut store = ProjectStore::new();
    store.create("kept", "through a round trip");
    let bytes = encode(&store);
    let back = load(Some(bytes));
    assert_eq!(back.list().len(), 1);
    assert_eq!(back.list()[0].name, "kept");
}

#[test]
fn created_ids_are_distinct() {
    let mut store = ProjectStore::new();
    let mut ids = Vec::new();
    for i in 0..16 {
        ids.push(store.create(&format!("p{i}"), ""));
    }
    for i in 0..ids.len() {
        for j in 0..ids.len() {
            if i != j {
                assert_ne!(ids[i], ids[j]);
            }
        }
    }
}

#[test]
fn lookup_and_update_address_by_id() {
    let mut store = ProjectStore::new();
    let a = store.create("a", "1");
    let b = store.create("b", "2");
    assert_eq!(store.get(a).unwrap().name, "a");
    assert_eq!(store.get(b).unwrap().description, "2");
    assert!(store.get(a.wrapping_add(b).wrapping_add(1)).is_none());
    assert!(store.update(b, "b2", "22"));
    assert_eq!(store.get(b).unwrap().name, "b2");
    assert_eq!(store.get(b).unwrap().description, "22");
    assert_eq!(store.len(), 2);
    assert!(!store.update(a.wrapping_add(b).wrapping_add(1), "x", "y"));
    assert_eq!(store.get(a).unwrap().name, "a");
}
