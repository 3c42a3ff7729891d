use hydroflow::checks::{check_all, check_partial_ord_properties};
use hydroflow::lattice::{IsBot, LatticeEq, Merge};
use hydroflow::union_find::UnionFind;

// Items stand for the strings of the scenario, numbered in string order.
const FOO: u64 = 1;
const GOODBYE: u64 = 2;
const HELLO: u64 = 3;
const WORLD: u64 = 4;

#[test]
fn union_find_test_basic() {
    let mut my_map_a = UnionFind::default();
    let my_map_b = UnionFind::new_from(&[(HELLO, WORLD)]);
    let my_map_c = UnionFind::new_from(&[(HELLO, GOODBYE)]);

    assert!(!my_map_a.same(HELLO, WORLD).into_reveal());
    assert!(!my_map_a.same(HELLO, GOODBYE).into_reveal());
    assert!(!my_map_a.same(WORLD, GOODBYE).into_reveal());
    assert_eq!(FOO, my_map_a.find(FOO).into_reveal());

    my_map_a.merge(my_map_b);

    assert!(my_map_a.same(HELLO, WORLD).into_reveal());
    assert!(!my_map_a.same(HELLO, GOODBYE).into_reveal());
    assert!(!my_map_a.same(WORLD, GOODBYE).into_reveal());
    assert_eq!(FOO, my_map_a.find(FOO).into_reveal());

    my_map_a.merge(my_map_c);

    assert!(my_map_a.same(HELLO, WORLD).into_reveal());
    assert!(my_map_a.same(HELLO, GOODBYE).into_reveal());
    assert!(my_map_a.same(WORLD, GOODBYE).into_reveal());
    assert_eq!(FOO, my_map_a.find(FOO).into_reveal());
}

fn c(ch: char) -> u64 {
    ch as u64
}

#[test]
fn consistency() {
    let items = &[
        UnionFind::default(),
        UnionFind::new_from(&[(c('a'), c('a'))]),
        UnionFind::new_from(&[(c('a'), c('a')), (c('b'), c('a'))]),
        UnionFind::new_from(&[(c('b'), c('a'))]),
        UnionFind::new_from(&[(c('b'), c('a')), (c('c'), c('b'))]),
        UnionFind::new_from(&[(c('b'), c('a')), (c('c'), c('b'))]),
        UnionFind::new_from(&[(c('d'), c('b'))]),
    ];

    assert!(check_all(items));
}

#[test]
fn union_reports_change_once() {
    let mut uf = UnionFind::default();
    assert!(uf.union(7, 3).into_reveal());
    assert!(!uf.union(3, 7).into_reveal());
    assert!(uf.union(9, 3).into_reveal());
    // The representative is the least item of the class.
    assert_eq!(3, uf.find(9).into_reveal());
    assert_eq!(3, uf.find(7).into_reveal());
    assert_eq!(5, uf.find(5).into_reveal());
    assert!(uf.same(7, 9).into_reveal());
    assert!(!uf.same(7, 5).into_reveal());
}

#[test]
fn merge_is_join_of_partitions() {
    let a = UnionFind::new_from(&[(2, 1), (4, 3)]);
    let b = UnionFind::new_from(&[(3, 2)]);
    let mut ab = a.clone_point();
    assert!(ab.merge(b.clone_point()));
    assert!(ab.same(1, 4).into_reveal());
    let mut ba = b.clone_point();
    assert!(ba.merge(a.clone_point()));
    assert!(ab.lattice_eq(&ba));
    // Merging again changes nothing.
    assert!(!ab.merge(a.clone_point()));
    assert!(!ab.is_bot());
    assert!(UnionFind::new_from(&[(5, 5)]).is_bot());
}

#[test]
fn union_and_same_stay_once_true() {
    let mut uf = UnionFind::default();
    assert!(uf.union(1, 2).into_reveal());
    assert!(!uf.union(1, 2).into_reveal());
    assert!(uf.same(2, 1).into_reveal());
    assert!(uf.union(3, 2).into_reveal());
    assert!(uf.same(1, 2).into_reveal());
    assert!(!uf.union(1, 3).into_reveal());
    // find returns the least item of the set, and can only decrease as sets grow.
    assert_eq!(2, UnionFind::new_from(&[(3, 2)]).find(3).into_reveal());
    assert_eq!(1, uf.find(3).into_reveal());
}

#[test]
fn find_compresses_path() {
    let mut uf = UnionFind::new_from(&[(2, 1), (3, 2), (5, 4)]);
    assert_eq!(1, uf.find(3).into_reveal());
    let links = uf.as_reveal_ref();
    assert_eq!(Some(&1), links.get(&3));
    assert_eq!(Some(&1), links.get(&2));
    assert_eq!(Some(&4), links.get(&5));
    assert_eq!(3, links.len());
}

#[test]
fn union_links_larger_root_under_smaller() {
    let mut uf = UnionFind::new_from(&[(6, 2), (9, 6), (8, 4)]);
    assert!(uf.union(8, 9).into_reveal());
    let links = uf.into_reveal();
    assert_eq!(Some(&2), links.get(&9));
    assert_eq!(Some(&2), links.get(&6));
    assert_eq!(Some(&4), links.get(&8));
    assert_eq!(Some(&2), links.get(&4));
    assert_eq!(4, links.len());
}

#[test]
fn union_fuses_exactly_two_classes() {
    let mut uf = UnionFind::default();
    assert!(uf.union(1, 2).into_reveal());
    assert!(uf.union(3, 4).into_reveal());
    assert!(!uf.same(1, 3).into_reveal());
    assert!(uf.union(2, 4).into_reveal());
    assert!(uf.same(1, 3).into_reveal());
    assert!(uf.same(4, 1).into_reveal());
    assert!(!uf.same(1, 5).into_reveal());
    assert!(uf.same(5, 5).into_reveal());
    assert_eq!(1, uf.find(4).into_reveal());
    assert_eq!(1, uf.find(3).into_reveal());
}

#[test]
fn own_order_checks_can_fail() {
    assert!(check_partial_ord_properties(&[1u64, 2, 3]));
    assert!(!check_partial_ord_properties(&[1.0f64, f64::NAN]));
    let a = UnionFind::new_from(&[(2, 1)]);
    let b = UnionFind::new_from(&[(1, 2)]);
    assert!(a == b);
    assert_eq!(Some(std::cmp::Ordering::Less), UnionFind::default().partial_cmp(&a));
    assert!(check_partial_ord_properties(&[a, b, UnionFind::default()]));
}

#[test]
fn union_then_false_forever() {
    let mut uf = UnionFind::default();
    uf.union(4, 6);
    assert!(uf.union(7, 8).into_reveal());
    assert!(!uf.union(4, 6).into_reveal());
    let other = UnionFind::new_from(&[(9, 4)]);
    uf.merge(other);
    assert!(!uf.union(6, 4).into_reveal());
    assert!(uf.same(4, 6).into_reveal());
}
