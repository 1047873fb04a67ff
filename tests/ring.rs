use fshard::hash::computing::{compute, fnv, FnvHashBuilder};
use fshard::hash::label::{node_label, parse_shard};
use fshard::hash::ring::{DefaultHashBuilder, HashRing};

fn ring_of(shards: u32, vms: u32) -> HashRing<FnvHashBuilder> {
    let mut ring = HashRing::with_hasher(FnvHashBuilder);
    for i in 0..shards {
        for j in 0..vms {
            ring.add(node_label(i, j));
        }
    }
    ring
}

// The owner of `key` by a plain scan: the label with the smallest position
// at or after the key's, else the label with the smallest position.
fn owner_by_scan(labels: &[String], key: &str) -> String {
    let h = fnv(key) as u64;
    let mut sorted: Vec<(u64, String)> = labels.iter().map(|l| (fnv(l) as u64, l.clone())).collect();
    sorted.sort_by_key(|e| e.0);
    for (k, l) in sorted.iter() {
        if *k >= h {
            return l.clone();
        }
    }
    sorted[0].1.clone()
}

#[test]
fn labels_and_their_shards() {
    assert_eq!(node_label(0, 0), "0&VN0");
    assert_eq!(node_label(12, 3), "12&VN3");
    assert_eq!(node_label(4294967295, 10), "4294967295&VN10");
    assert_eq!(parse_shard("12&VN3"), Some(12));
    assert_eq!(parse_shard("4294967295&VN10"), Some(4294967295));
    assert_eq!(parse_shard("7"), Some(7));
    assert_eq!(parse_shard("4294967296&VN0"), None);
    assert_eq!(parse_shard("&VN0"), None);
    assert_eq!(parse_shard(""), None);
    assert_eq!(parse_shard("1a&VN0"), None);
}

#[test]
fn new_ring_is_empty() {
    let mut ring = HashRing::new();
    assert_eq!(ring.len(), 0);
    assert!(ring.is_empty());
    assert_eq!(ring.get("anything"), None);
    assert_eq!(ring.remove("0&VN0"), None);
    let _ = DefaultHashBuilder.build_hasher();
}

#[test]
fn ring_of_four_shards_has_eight_entries() {
    let mut ring = ring_of(4, 2);
    assert_eq!(ring.len(), 8);
    assert!(!ring.is_empty());
    for n in 0..2000u32 {
        let key = format!("key-{}", n);
        let label = ring.get(&key).unwrap().to_string();
        let shard = parse_shard(&label).unwrap();
        assert!(shard < 4);
    }
}

#[test]
fn lookup_takes_the_successor_and_wraps() {
    let mut labels = Vec::new();
    for i in 0..5u32 {
        for j in 0..3u32 {
            labels.push(node_label(i, j));
        }
    }
    let mut ring = HashRing::new();
    for l in labels.iter() {
        ring.add(l.clone());
    }
    for n in 0..3000u32 {
        let key = format!("{}", n);
        assert_eq!(ring.get(&key).unwrap(), owner_by_scan(&labels, &key));
    }
}

#[test]
fn lookup_of_a_label_finds_that_label() {
    let mut ring = ring_of(3, 2);
    for i in 0..3u32 {
        for j in 0..2u32 {
            let label = node_label(i, j);
            assert_eq!(ring.get(&label).unwrap(), label);
        }
    }
}

#[test]
fn remove_returns_the_label() {
    let mut ring = ring_of(2, 2);
    assert_eq!(ring.remove("1&VN0"), Some("1&VN0".to_string()));
    assert_eq!(ring.len(), 3);
    assert_eq!(ring.remove("1&VN0"), None);
    assert_eq!(ring.remove("9&VN9"), None);
    assert_eq!(ring.len(), 3);
    assert_eq!(ring.remove("0&VN0"), Some("0&VN0".to_string()));
    assert_eq!(ring.remove("0&VN1"), Some("0&VN1".to_string()));
    assert_eq!(ring.remove("1&VN1"), Some("1&VN1".to_string()));
    assert!(ring.is_empty());
    assert_eq!(ring.get("x"), None);
}

#[test]
fn removing_a_shard_moves_only_its_keys() {
    let keys: Vec<String> = (0..5000u32).map(|n| format!("user-{}", n)).collect();
    let mut ring = ring_of(4, 2);
    let before: Vec<u32> = keys
        .iter()
        .map(|k| parse_shard(ring.get(k).unwrap()).unwrap())
        .collect();
    for gone in 0..4u32 {
        let mut smaller = ring_of(4, 2);
        assert!(smaller.remove(&node_label(gone, 0)).is_some());
        assert!(smaller.remove(&node_label(gone, 1)).is_some());
        assert_eq!(smaller.len(), 6);
        for (k, shard) in keys.iter().zip(before.iter()) {
            let after = parse_shard(smaller.get(k).unwrap()).unwrap();
            assert_ne!(after, gone);
            if *shard != gone {
                assert_eq!(after, *shard);
            }
        }
    }
}

#[test]
fn consistent_hash_matches_the_ring() {
    let mut ring = ring_of(22, 2);
    for n in 0..500u32 {
        let key = format!("{}", 37466000 + n);
        let expected = parse_shard(ring.get(&key).unwrap()).unwrap();
        assert_eq!(compute(&key, "ch", &22, &2), Ok(expected));
    }
}

#[test]
fn colliding_labels_keep_the_first_added() {
    assert_eq!(fnv("k9426"), fnv("k130405"));
    let mut ring = HashRing::new();
    ring.add("k9426".to_string());
    ring.add("0&VN0".to_string());
    ring.add("k130405".to_string());
    assert_eq!(ring.len(), 3);
    assert_eq!(ring.get("k9426"), Some("k9426"));
    assert_eq!(ring.get("k130405"), Some("k9426"));
    assert_eq!(ring.remove("k130405"), Some("k9426".to_string()));
    assert_eq!(ring.get("k9426"), Some("k130405"));
    assert_eq!(ring.remove("k9426"), Some("k130405".to_string()));
    assert_eq!(ring.len(), 1);
}

#[test]
fn default_ring_is_empty() {
    let ring: HashRing = Default::default();
    assert_eq!(ring.len(), 0);
    assert!(ring.is_empty());
}
