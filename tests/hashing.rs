use fshard::hash::computing::{
    compute, fnv, fnv1, hash, hash_ring_get_key, latin1_java_hash_code, modulo_custom,
    modulo_java, Algorithm, FnvHashBuilder, FnvHasher, ShardError,
};

const KEYS: [&str; 8] = ["", "a", "ab", "37466027", "zhangsan", "order-1001", "用户", "z"];

#[test]
fn custom_hash_of_empty_is_pinned() {
    assert_eq!(fnv1(&vec![]), 1494218850);
    assert_eq!(fnv(""), 1494218850);
    assert_eq!(hash(""), 1494218850);
}

#[test]
fn custom_hash_known_values() {
    assert_eq!(fnv("a"), 649470159);
    assert_eq!(fnv("37466027"), 971697854);
    assert_eq!(fnv1(&b"37466027".to_vec()), 971697854);
}

#[test]
fn custom_hash_is_deterministic() {
    for key in KEYS.iter() {
        let first = fnv(key);
        for _ in 0..5 {
            assert_eq!(fnv(key), first);
            assert_eq!(hash(key), first);
        }
    }
}

#[test]
fn java_hash_code_literals() {
    assert_eq!(latin1_java_hash_code(""), 0);
    assert_eq!(latin1_java_hash_code("a"), 97);
    assert_eq!(latin1_java_hash_code("ab"), 3105);
    assert_eq!(latin1_java_hash_code("zhangsan"), 1432604556);
}

#[test]
fn java_hash_code_wraps_like_java() {
    // "polygenelubricants".hashCode() is i32::MIN in Java.
    assert_eq!(latin1_java_hash_code("polygenelubricants"), 2147483648);
}

#[test]
fn modulo_results_are_below_shard_count() {
    for key in KEYS.iter() {
        for shards in 1..70u32 {
            assert!(modulo_custom(key, shards) < shards);
            assert!(modulo_java(key, shards) < shards);
            assert_eq!(modulo_custom(key, shards), fnv(key) % shards);
            assert_eq!(modulo_java(key, shards), latin1_java_hash_code(key) % shards);
        }
    }
}

#[test]
fn fnv_hasher_finishes_with_custom_hash() {
    let mut hasher = FnvHasher::new();
    assert_eq!(hasher.finish(), 1494218850);
    hasher.write(b"a");
    assert_eq!(hasher.finish(), 649470159);
    hasher.write(b"37466027");
    assert_eq!(hasher.finish(), 971697854);
    let built = FnvHashBuilder.build_hasher();
    assert_eq!(built.finish(), 1494218850);
}

#[test]
fn algorithm_tags() {
    assert_eq!(Algorithm::from_tag("h"), Some(Algorithm::ModuloCustomHash));
    assert_eq!(Algorithm::from_tag("ch"), Some(Algorithm::ConsistentHash));
    assert_eq!(Algorithm::from_tag("j"), Some(Algorithm::JavaHashCodeModulo));
    assert_eq!(Algorithm::from_tag("x"), None);
    assert_eq!(Algorithm::from_tag(""), None);
    assert_eq!(Algorithm::from_tag("hc"), None);
    assert_eq!(Algorithm::from_tag("chh"), None);
}

#[test]
fn compute_modulo_custom_end_to_end() {
    assert_eq!(compute("37466027", "h", &22, &2), Ok(fnv("37466027") % 22));
    assert_eq!(compute("37466027", "h", &22, &2), Ok(6));
}

#[test]
fn compute_java_end_to_end() {
    assert_eq!(compute("zhangsan", "j", &32, &2), Ok(latin1_java_hash_code("zhangsan") % 32));
    assert_eq!(compute("zhangsan", "j", &32, &2), Ok(12));
}

#[test]
fn compute_consistent_hash_is_deterministic_and_in_range() {
    for key in KEYS.iter() {
        let first = compute(key, "ch", &64, &2).unwrap();
        assert!(first < 64);
        for _ in 0..3 {
            assert_eq!(compute(key, "ch", &64, &2), Ok(first));
        }
        assert_eq!(hash_ring_get_key(key, &64, &2), first);
    }
}

#[test]
fn zero_shards_fail_for_every_algorithm() {
    for tag in ["h", "ch", "j"].iter() {
        for vms in [0u32, 1, 2].iter() {
            assert_eq!(compute("37466027", tag, &0, vms), Err(ShardError::InvalidShardCount));
        }
    }
}

#[test]
fn unknown_algorithm_fails() {
    for shards in [0u32, 1, 22, 64].iter() {
        for key in KEYS.iter() {
            assert_eq!(compute(key, "x", shards, &2), Err(ShardError::UnsupportedAlgorithm));
            assert_eq!(compute(key, "", shards, &0), Err(ShardError::UnsupportedAlgorithm));
        }
    }
}

#[test]
fn consistent_hash_without_virtual_nodes_fails() {
    assert_eq!(compute("zhangsan", "ch", &4, &0), Err(ShardError::RingEmptyLookup));
}

#[test]
fn single_shard_takes_every_key() {
    for key in KEYS.iter() {
        assert_eq!(compute(key, "h", &1, &2), Ok(0));
        assert_eq!(compute(key, "ch", &1, &3), Ok(0));
        assert_eq!(compute(key, "j", &1, &2), Ok(0));
    }
}
