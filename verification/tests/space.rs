use tuple_space::tuple::tuple::{Tuple, TupleBuilder, TupleField};
use tuple_space::tuple_space::tuple_space::{TupleSpace, TupleTrie};

fn int_tuple(name: &str, v: Option<i32>) -> Tuple {
    TupleBuilder::new().name(name).field(TupleField::Int(v)).build()
}

#[test]
fn test1() {
    let mut ts = TupleSpace::new();
    ts.add(Tuple::new("t1"));
    ts.add(Tuple::new("t3"));
    ts.add(Tuple::new("a1"));
    ts.add(Tuple::new("t2"));
    ts.add(Tuple::new("t2"));

    println!("Tuple space: {ts:#?}");
    assert_eq!(ts.size(), 4);
}

#[test]
fn read_and_take_in_binary_order() {
    let mut ts = TupleSpace::new();
    ts.add(int_tuple("k", Some(1)));
    ts.add(int_tuple("k", Some(2)));
    let template = int_tuple("k", None);
    assert_eq!(ts.read(&template), Some(int_tuple("k", Some(1))));
    assert_eq!(ts.size(), 2);
    assert_eq!(ts.take(&template), Some(int_tuple("k", Some(1))));
    assert_eq!(ts.take(&template), Some(int_tuple("k", Some(2))));
    assert_eq!(ts.take(&template), None);
    assert_eq!(ts.size(), 0);
}

#[test]
fn order_of_insertion_does_not_matter() {
    let mut ts = TupleSpace::new();
    for v in [5, -1, 3, 0, 4, 1, 2] {
        ts.add(int_tuple("k", Some(v)));
    }
    let template = int_tuple("k", None);
    // two's complement, most significant byte first: -1 comes last
    for v in [0, 1, 2, 3, 4, 5, -1] {
        assert_eq!(ts.take(&template), Some(int_tuple("k", Some(v))));
    }
    assert_eq!(ts.take(&template), None);
}

#[test]
fn shorter_name_comes_first() {
    let mut ts = TupleSpace::new();
    ts.add(int_tuple("ab", Some(1)));
    ts.add(int_tuple("a", Some(1)));
    ts.add(int_tuple("b", Some(0)));
    assert_eq!(ts.read(&int_tuple("ab", None)), Some(int_tuple("ab", Some(1))));
    assert_eq!(ts.read(&int_tuple("a", Some(1))), Some(int_tuple("a", Some(1))));
    assert_eq!(ts.read(&int_tuple("c", None)), None);
}

#[test]
fn adding_twice_keeps_one_copy() {
    let mut ts = TupleSpace::new();
    ts.add(int_tuple("k", Some(1)));
    ts.add(int_tuple("k", Some(1)));
    assert_eq!(ts.size(), 1);
    assert_eq!(ts.take(&int_tuple("k", None)), Some(int_tuple("k", Some(1))));
    assert_eq!(ts.take(&int_tuple("k", None)), None);
}

#[test]
fn taken_tuple_is_gone_until_added_again() {
    let mut ts = TupleSpace::new();
    ts.add(int_tuple("k", Some(1)));
    ts.add(int_tuple("k", Some(2)));
    assert_eq!(ts.take(&int_tuple("k", Some(1))), Some(int_tuple("k", Some(1))));
    assert_eq!(ts.read(&int_tuple("k", None)), Some(int_tuple("k", Some(2))));
    assert_eq!(ts.read(&int_tuple("k", Some(1))), None);
    ts.add(int_tuple("j", Some(1)));
    assert_eq!(ts.read(&int_tuple("k", Some(1))), None);
    ts.add(int_tuple("k", Some(1)));
    assert_eq!(ts.read(&int_tuple("k", None)), Some(int_tuple("k", Some(1))));
}

#[test]
fn read_leaves_the_space_as_it_is() {
    let mut ts = TupleSpace::default();
    ts.add(int_tuple("k", Some(1)));
    assert_eq!(ts.read(&int_tuple("k", None)), Some(int_tuple("k", Some(1))));
    assert_eq!(ts.read(&int_tuple("k", None)), Some(int_tuple("k", Some(1))));
    assert_eq!(ts.size(), 1);
}

#[test]
fn remove_drops_the_least_match() {
    let mut ts = TupleSpace::new();
    ts.add(int_tuple("k", Some(2)));
    ts.add(int_tuple("k", Some(1)));
    ts.remove(&int_tuple("k", None));
    assert_eq!(ts.size(), 1);
    assert_eq!(ts.read(&int_tuple("k", None)), Some(int_tuple("k", Some(2))));
    ts.remove(&int_tuple("x", None));
    assert_eq!(ts.size(), 1);
}

#[test]
fn index_alone() {
    let mut trie = TupleTrie::new();
    assert_eq!(trie.size(), 0);
    trie.add(int_tuple("k", Some(7)));
    trie.add(int_tuple("k", Some(7)));
    trie.add(int_tuple("k", Some(6)));
    assert_eq!(trie.size(), 2);
    assert_eq!(trie.find(&int_tuple("k", None)), Some(int_tuple("k", Some(6))));
    assert_eq!(trie.withdraw(&int_tuple("k", Some(7))), Some(int_tuple("k", Some(7))));
    trie.remove(&int_tuple("k", None));
    assert_eq!(trie.size(), 0);
    assert_eq!(trie.find(&int_tuple("k", None)), None);
}

#[test]
fn many_tuples_stay_ordered() {
    let mut ts = TupleSpace::new();
    let mut v: i32 = 12345;
    for _ in 0..500 {
        v = v.wrapping_mul(1103515245).wrapping_add(12345) & 0x7FFF_FFFF;
        ts.add(int_tuple("n", Some(v % 1000)));
    }
    let mut last = -1;
    let mut count = 0;
    while let Some(t) = ts.take(&int_tuple("n", None)) {
        let value = match t.get(0) {
            Some(TupleField::Int(Some(value))) => value,
            other => panic!("{other:?}"),
        };
        assert!(value > last);
        last = value;
        count += 1;
    }
    assert!(count <= 500 && count > 300);
    assert_eq!(ts.size(), 0);
}
