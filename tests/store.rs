use cds::cell::{Cell, Store};

fn s(x: &str) -> String {
    x.to_string()
}

#[test]
fn new_cell_starts_at_version_zero() {
    let c = Cell::new(4, s("v"));
    assert_eq!(c.client_id, 4);
    assert_eq!(c.version, 0);
    assert_eq!(c.value, "v");
}

#[test]
fn read_of_absent_key_is_none() {
    let st = Store::new();
    assert_eq!(st.read(&s("x")), None);
    assert_eq!(st.get_cell(&s("x")), None);
}

#[test]
fn local_write_creates_then_bumps() {
    let mut st = Store::new();
    assert_eq!(st.write_local(s("x"), s("a"), 1), 0);
    assert_eq!(st.write_local(s("x"), s("b"), 1), 1);
    assert_eq!(st.write_local(s("x"), s("c"), 1), 2);
    assert_eq!(st.get_cell(&s("x")), Some((1, 2, s("c"))));
}

#[test]
fn local_write_takes_ownership() {
    let mut st = Store::new();
    st.merge_foreign(s("x"), s("theirs"), 7, 5);
    assert_eq!(st.write_local(s("x"), s("mine"), 2), 6);
    assert_eq!(st.get_cell(&s("x")), Some((2, 6, s("mine"))));
}

#[test]
fn can_write_local_at_max_version() {
    let mut st = Store::new();
    assert!(st.can_write_local(&s("x")));
    st.merge_foreign(s("x"), s("v"), 1, u64::MAX);
    assert!(!st.can_write_local(&s("x")));
    assert!(st.can_write_local(&s("y")));
}

#[test]
fn merge_inserts_unknown_key() {
    let mut st = Store::new();
    assert!(st.merge_foreign(s("k"), s("v"), 9, 3));
    assert_eq!(st.get_cell(&s("k")), Some((9, 3, s("v"))));
}

#[test]
fn merge_higher_version_wins() {
    let mut st = Store::new();
    st.merge_foreign(s("k"), s("old"), 1, 3);
    assert!(st.merge_foreign(s("k"), s("new"), 5, 4));
    assert_eq!(st.get_cell(&s("k")), Some((5, 4, s("new"))));
}

#[test]
fn merge_lower_version_is_dropped() {
    let mut st = Store::new();
    st.merge_foreign(s("k"), s("cur"), 5, 4);
    assert!(!st.merge_foreign(s("k"), s("stale"), 1, 3));
    assert_eq!(st.get_cell(&s("k")), Some((5, 4, s("cur"))));
}

#[test]
fn tie_lower_owner_wins() {
    let mut st = Store::new();
    st.merge_foreign(s("k"), s("b"), 3, 1);
    assert!(st.merge_foreign(s("k"), s("a"), 1, 1));
    assert_eq!(st.read(&s("k")), Some(s("a")));
}

#[test]
fn tie_higher_owner_loses() {
    let mut st = Store::new();
    st.merge_foreign(s("k"), s("a"), 1, 1);
    assert!(!st.merge_foreign(s("k"), s("b"), 3, 1));
    assert_eq!(st.read(&s("k")), Some(s("a")));
}

#[test]
fn tie_equal_owner_is_noop() {
    let mut st = Store::new();
    st.merge_foreign(s("k"), s("a"), 2, 1);
    assert!(!st.merge_foreign(s("k"), s("a"), 2, 1));
    assert!(!st.merge_foreign(s("k"), s("other"), 2, 1));
    assert_eq!(st.get_cell(&s("k")), Some((2, 1, s("a"))));
}

#[test]
fn keys_are_independent() {
    let mut st = Store::new();
    st.write_local(s("a"), s("1"), 1);
    st.write_local(s("b"), s("2"), 1);
    st.write_local(s("a"), s("3"), 1);
    assert_eq!(st.get_cell(&s("a")), Some((1, 1, s("3"))));
    assert_eq!(st.get_cell(&s("b")), Some((1, 0, s("2"))));
}

#[test]
fn merge_order_does_not_matter() {
    let cands = [(s("p"), 2u32, 1u64), (s("q"), 1, 2), (s("r"), 3, 2), (s("t"), 1, 0)];
    let orders = [[0usize, 1, 2, 3], [3, 2, 1, 0], [2, 0, 3, 1], [1, 3, 0, 2]];
    for order in orders.iter() {
        let mut st = Store::new();
        for &i in order.iter() {
            let (v, o, ver) = &cands[i];
            st.merge_foreign(s("k"), v.clone(), *o, *ver);
        }
        assert_eq!(st.get_cell(&s("k")), Some((1, 2, s("q"))));
    }
}

#[test]
fn scenario_write_propagate_overwrite() {
    let mut a = Store::new();
    let mut b = Store::new();
    let ver = a.write_local(s("x"), s("v1"), 1);
    assert_eq!(ver, 0);
    assert_eq!(a.get_cell(&s("x")), Some((1, 0, s("v1"))));
    assert!(b.merge_foreign(s("x"), s("v1"), 1, ver));
    assert_eq!(b.get_cell(&s("x")), Some((1, 0, s("v1"))));
    let ver = b.write_local(s("x"), s("v2"), 2);
    assert_eq!(ver, 1);
    assert_eq!(b.get_cell(&s("x")), Some((2, 1, s("v2"))));
    assert!(a.merge_foreign(s("x"), s("v2"), 2, ver));
    assert_eq!(a.get_cell(&s("x")), Some((2, 1, s("v2"))));
    assert_eq!(a.get_cell(&s("x")), b.get_cell(&s("x")));
}

#[test]
fn scenario_concurrent_tie() {
    let mut a = Store::new();
    let mut b = Store::new();
    a.merge_foreign(s("x"), s("init"), 2, 0);
    b.merge_foreign(s("x"), s("init"), 2, 0);
    let va = a.write_local(s("x"), s("a"), 1);
    let vb = b.write_local(s("x"), s("b"), 3);
    assert_eq!((va, vb), (1, 1));
    assert!(!a.merge_foreign(s("x"), s("b"), 3, vb));
    assert!(b.merge_foreign(s("x"), s("a"), 1, va));
    assert_eq!(a.get_cell(&s("x")), Some((1, 1, s("a"))));
    assert_eq!(b.get_cell(&s("x")), Some((1, 1, s("a"))));
}
