use hydroflow::one_to_many::OneToMany;
use hydroflow::util::slot_map::{DefaultKey, Key, SlotMap};

#[test]
fn insert_with_key_hands_out_consecutive_keys() {
    let mut m: SlotMap<DefaultKey, String> = SlotMap::new();
    let a = m.insert_with_key(|k: DefaultKey| format!("item {}", k.into_usize()));
    let b = m.insert_with_key(|k: DefaultKey| format!("item {}", k.into_usize()));
    assert_eq!(0, a.into_usize());
    assert_eq!(1, b.into_usize());
    assert_eq!(2, m.len());
    assert_eq!(Some(&"item 1".to_owned()), m.get(b));
    let c = m.insert("plain".to_owned());
    assert_eq!(2, c.into_usize());
    *m.get_mut(a) = "changed".to_owned();
    assert_eq!(Some(&"changed".to_owned()), m.get(a));
}

#[test]
fn one_to_many_builds_child_parent_pairs() {
    let rel = OneToMany::from_parent_children(vec![(1u64, vec![10u64, 11]), (2, vec![]), (3, vec![30])]);
    assert_eq!(vec![(10u64, 1u64), (11, 1), (30, 3)], rel.many_to_one);
    let back = rel.into_parent_children();
    assert_eq!(vec![(1u64, vec![10u64, 11]), (2, vec![]), (3, vec![30])], back);
    let empty: OneToMany<u64, u64> = OneToMany::default();
    assert!(empty.one_to_many.is_empty() && empty.many_to_one.is_empty());
}
