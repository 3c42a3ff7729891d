use hydroflow::collections::{Array, ArraySet, MaskedArray, Single, SingletonMap, SingletonSet};

#[test]
fn single_holds_one_item() {
    let s = Single::from_value(5u64);
    assert_eq!(5, s.0);
    assert_eq!(vec![5u64], s.into_vec());
}

#[test]
fn singleton_set_get_matches_only_its_item() {
    let s = SingletonSet::from_value(7u64);
    assert_eq!(1, s.len());
    assert_eq!(Some(&7), s.get(&7));
    assert_eq!(None, s.get(&8));
    assert_eq!(vec![7u64], s.into_vec());
}

#[test]
fn singleton_map_get_by_key() {
    let m = SingletonMap::from_pair((3u64, "three"));
    assert_eq!(1, m.len());
    assert_eq!(Some(&"three"), m.get(&3));
    assert_eq!(None, m.get(&4));
    assert_eq!(Some((&3u64, &"three")), m.get_key_value(&3));
    assert_eq!(None, m.get_key_value(&0));
    assert_eq!(vec![(3u64, "three")], m.into_vec());
}

#[test]
fn array_get_in_and_out_of_range() {
    let a = Array::from_array([10u64, 20, 30]);
    assert_eq!(3, a.len());
    assert_eq!(Some(&20), a.get(1));
    assert_eq!(None, a.get(3));
    assert_eq!(&[10u64, 20, 30], a.as_slice());
}

#[test]
fn array_set_get_finds_first_equal() {
    let a = ArraySet::from_array([4u64, 5, 4]);
    assert_eq!(3, a.len());
    assert_eq!(Some(&5), a.get(&5));
    assert!(std::ptr::eq(a.get(&4).unwrap(), &a.0[0]));
    assert_eq!(None, a.get(&6));
}

#[test]
fn masked_array_keeps_masked_items_in_order() {
    let m = MaskedArray { mask: [true, false, true, false], vals: [1u64, 2, 3, 4] };
    assert_eq!(vec![1u64, 3], m.into_vec());
    let none = MaskedArray { mask: [false, false], vals: [1u64, 2] };
    assert!(none.into_vec().is_empty());
}

#[test]
fn get_mut_changes_the_item_in_place() {
    let mut a = Array::from_array([10u64, 20, 30]);
    *a.get_mut(2).unwrap() = 33;
    assert!(a.get_mut(3).is_none());
    assert_eq!([10u64, 20, 33], a.0);
    let mut s = ArraySet::from_array([4u64, 5, 4]);
    *s.get_mut(&4).unwrap() = 7;
    assert_eq!([7u64, 5, 4], s.0);
    assert!(s.get_mut(&9).is_none());
}
