use bugstalker::debugger::debugee::dwarf::utils::PathSearchIndex;

fn fill_index(index: &mut PathSearchIndex<i32>) {
    index.insert(&["ns1", "ns2", "fn1"], 10);
    index.insert(&["ns3", "ns2", "fn1"], 11);
    index.insert(&["ns1", "fn2"], 2);
    index.insert(&["ns1", "ns2", "fn3"], 3);
    index.insert(&["fn4"], 4);
    index.insert(&["fn5"], 5);
    index.insert(&["ns3", "ns2", "fn3"], 6);
    index.insert(&["ns3", "ns2", "fn6"], 7);
    index.insert(&["ns3", "ns2", "fn7"], 8);
    index.insert(&["ns3", "ns2", "fn8"], 9);
}

fn fill_index_with_head(index: &mut PathSearchIndex<i32>) {
    index.insert_w_head(&["ns1", "ns2"], "fn1", 10);
    index.insert_w_head(&["ns3", "ns2"], "fn1", 11);
    index.insert_w_head(&["ns1"], "fn2", 2);
    index.insert_w_head(&["ns1", "ns2"], "fn3", 3);
    index.insert_w_head(&Vec::<&str>::new(), "fn4", 4);
    index.insert_w_head(&Vec::<&str>::new(), "fn5", 5);
    index.insert_w_head(&["ns3", "ns2"], "fn3", 6);
    index.insert_w_head(&["ns3", "ns2"], "fn6", 7);
    index.insert_w_head(&["ns3", "ns2"], "fn7", 8);
    index.insert_w_head(&["ns3", "ns2"], "fn8", 9);
}

#[test]
pub fn test_index() {
    let mut index = PathSearchIndex::new("::");
    fill_index(&mut index);

    assert_eq!(index.get("ns1::ns2"), Vec::<&i32>::new());
    assert_eq!(index.get(""), Vec::<&i32>::new());
    assert_eq!(index.get("fn"), Vec::<&i32>::new());
    assert_eq!(index.get("ns1::ns2::fn1"), vec![&10]);
    assert_eq!(index.get("ns2::fn1"), vec![&10, &11]);
    assert_eq!(index.get("fn1"), vec![&10, &11]);
    assert_eq!(index.get("fn4"), vec![&4]);
    assert_eq!(index.get("fn5"), vec![&5]);
    assert_eq!(index.get("s1::ns2::fn1"), Vec::<&i32>::new());
    assert_eq!(index.get("ns1::ns2::fn3"), vec![&3]);
    assert_eq!(index.get("ns3::ns2::fn3"), vec![&6]);
    assert_eq!(index.get("ns3::ns2::fn6"), vec![&7]);
    assert_eq!(index.get("ns3::ns2::fn8"), vec![&9]);
}

#[test]
pub fn test_index_2() {
    let mut index = PathSearchIndex::new("::");
    fill_index_with_head(&mut index);

    assert_eq!(index.get("ns1::ns2"), Vec::<&i32>::new());
    assert_eq!(index.get(""), Vec::<&i32>::new());
    assert_eq!(index.get("fn"), Vec::<&i32>::new());
    assert_eq!(index.get("ns1::ns2::fn1"), vec![&10]);
    assert_eq!(index.get("ns2::fn1"), vec![&10, &11]);
    assert_eq!(index.get("fn1"), vec![&10, &11]);
    assert_eq!(index.get("fn4"), vec![&4]);
    assert_eq!(index.get("fn5"), vec![&5]);
    assert_eq!(index.get("s1::ns2::fn1"), Vec::<&i32>::new());
    assert_eq!(index.get("ns1::ns2::fn3"), vec![&3]);
    assert_eq!(index.get("ns3::ns2::fn3"), vec![&6]);
    assert_eq!(index.get("ns3::ns2::fn6"), vec![&7]);
    assert_eq!(index.get("ns3::ns2::fn8"), vec![&9]);
}

#[test]
fn path_index_get_after_insert_adds_value_last() {
    let mut index = PathSearchIndex::new("::");
    index.insert(&["a", "b"], 1);
    assert_eq!(index.get("b"), vec![&1]);
    index.insert(&["c", "b"], 2);
    assert_eq!(index.get("b"), vec![&1, &2]);
    assert_eq!(index.get("a::b"), vec![&1]);
    index.insert(&[], 3);
    assert_eq!(index.get(""), Vec::<&i32>::new());
}

#[test]
fn path_index_other_delimiter() {
    let mut index = PathSearchIndex::new("/");
    index.insert(&["usr", "lib", "x.so"], 7);
    assert_eq!(index.get("lib/x.so"), vec![&7]);
    assert_eq!(index.get("lib::x.so"), Vec::<&i32>::new());
}

#[test]
fn path_index_lookup_after_inserts_keeps_insertion_order() {
    let mut index = PathSearchIndex::new("::");
    index.insert_w_head(&["ns1", "ns2"], "fn1", 1);
    index.insert_w_head(&["ns2"], "fn1", 2);
    index.insert_w_head(&["ns1"], "fn1", 3);
    assert_eq!(index.get("fn1"), vec![&1, &2, &3]);
    assert_eq!(index.get("ns2::fn1"), vec![&1, &2]);
    // whole trailing parts only
    assert_eq!(index.get("ns1::fn1"), vec![&3]);
}

#[test]
fn path_index_insert_agrees_with_head() {
    let mut a = PathSearchIndex::new("::");
    let mut b = PathSearchIndex::new("::");
    a.insert(&["ns1", "ns2", "f"], 7);
    b.insert_w_head(&["ns1", "ns2"], "f", 7);
    a.insert(&Vec::<&str>::new(), 8);
    for q in ["f", "ns2::f", "ns1::ns2::f", "ns1::f", "g"] {
        assert_eq!(a.get(q), b.get(q));
    }
}
