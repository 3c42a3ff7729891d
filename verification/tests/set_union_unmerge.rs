use hydroflow::checks::{check_atomize_each, check_unmerge};
use hydroflow::lattice::{Atomize, IsBot, LatticeEq, Merge, Unmerge};
use hydroflow::set_union::SetUnion;

fn sorted(s: &SetUnion<u64>) -> Vec<u64> {
    let mut v = s.as_reveal_ref().clone();
    v.sort();
    v
}

#[test]
fn unmerge_removes_the_other_items() {
    let mut x = SetUnion::new_from(&[1u64, 2, 3]);
    let y = SetUnion::new_from(&[2u64, 4]);
    assert!(x.unmerge(&y));
    assert_eq!(vec![1u64, 3], sorted(&x));
    assert!(!x.unmerge(&y));
    assert_eq!(vec![1u64, 3], sorted(&x));
}

#[test]
fn unmerge_then_merge_restores_a_superset() {
    let x = SetUnion::new_from(&[1u64, 2, 3]);
    let y = SetUnion::new_from(&[2u64]);
    let mut z = x.clone_point();
    z.unmerge(&y);
    assert!(z.merge(y.clone_point()));
    assert!(z.lattice_eq(&x));
}

#[test]
fn atomize_gives_singletons_that_rejoin() {
    let x = SetUnion::new_from(&[5u64, 6]);
    let atoms = x.clone_point().atomize();
    assert_eq!(2, atoms.len());
    let mut reformed = SetUnion::<u64>::default();
    for a in atoms {
        assert!(!a.is_bot());
        assert_eq!(1, a.len());
        reformed.merge(a);
    }
    assert!(reformed.lattice_eq(&x));
    assert!(SetUnion::<u64>::default().atomize().is_empty());
}

#[test]
fn check_atomize_each_passes_on_sets() {
    let items = [
        SetUnion::new_from(&[]),
        SetUnion::new_from(&[0u64]),
        SetUnion::new_from(&[0u64, 1]),
    ];
    assert!(check_atomize_each(&items));
}

#[test]
fn check_unmerge_on_chains_and_incomparable_sets() {
    let chain = [SetUnion::new_from(&[]), SetUnion::new_from(&[0u64])];
    assert!(check_unmerge(&chain));
    // For incomparable sets the check expects a change that leaves the set equal, which
    // set difference never gives.
    let incomparable = [SetUnion::new_from(&[0u64]), SetUnion::new_from(&[1u64])];
    assert!(!check_unmerge(&incomparable));
}
