use early_alloc::hashmap::DefaultHasher;
use early_alloc::hashmap::HashMap;
use early_alloc::hashmap::Hasher;

#[test]
fn empty_hasher_finishes_at_zero() {
    let h = DefaultHasher::new();
    assert_eq!(h.finish(), 0);
}

#[test]
fn hasher_folds_polynomially() {
    let mut h = DefaultHasher::new();
    h.write_u8(1);
    h.write_u8(2);
    // (0 * 131 + 1) * 131 + 2
    assert_eq!(h.finish(), 133);
}

#[test]
fn string_hashes_its_bytes() {
    let mut h = DefaultHasher::new();
    early_alloc::hashmap::Hash::hash(&String::from("AB"), &mut h);
    // 65 * 131 + 66
    assert_eq!(h.finish(), 8581);
}

#[test]
fn insert_then_get() {
    let mut m: HashMap<String, usize> = HashMap::new();
    m.insert(String::from("alpha"), 1);
    m.insert(String::from("beta"), 2);
    assert_eq!(m.get(&String::from("alpha")), Some(&1));
    assert_eq!(m.get(&String::from("beta")), Some(&2));
    assert_eq!(m.get(&String::from("gamma")), None);
}

#[test]
fn iter_yields_every_pair() {
    let mut m: HashMap<String, usize> = HashMap::new();
    m.insert(String::from("one"), 1);
    m.insert(String::from("two"), 2);
    m.insert(String::from("three"), 3);
    let pairs = m.iter();
    assert_eq!(pairs.len(), 3);
    let mut seen: Vec<usize> = pairs.iter().map(|p| p.1).collect();
    seen.sort();
    assert_eq!(seen, vec![1, 2, 3]);
}
