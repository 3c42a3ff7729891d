use hydroflow::functions::{
    check_lattice_bimorphism, wrap_closure_lattice_bimorphism, CartesianProductFn,
    KeyLatticeBimorphism, LatticeBimorphism,
};
use hydroflow::map_union::MapUnion;
use hydroflow::pair::Pair;
use hydroflow::set_union::SetUnion;

fn sample_sets() -> [SetUnion<u64>; 4] {
    [
        SetUnion::new_from(&[]),
        SetUnion::new_from(&[0]),
        SetUnion::new_from(&[1]),
        SetUnion::new_from(&[0, 1]),
    ]
}

#[test]
fn test_lattice_bimorphism_pair() {
    let items = &sample_sets();
    let func = wrap_closure_lattice_bimorphism(|l: SetUnion<u64>, r: SetUnion<u64>| Pair::new(l, r));
    assert!(check_lattice_bimorphism(func, items, items));
}

#[test]
fn test_lattice_bimorphism_cartesian() {
    let items = &sample_sets();
    let func = wrap_closure_lattice_bimorphism(|l: SetUnion<u64>, r: SetUnion<u64>| {
        let l = l.into_reveal();
        let r = r.into_reveal();
        let out = l
            .into_iter()
            .flat_map(|l_item| r.iter().cloned().map(move |r_item| (l_item, r_item)))
            .collect::<Vec<_>>();
        SetUnion::new(out)
    });
    assert!(check_lattice_bimorphism(func, items, items));
}

// Strings of the scenario, numbered.
const FOO: u64 = 1;
const BAR: u64 = 2;
const BAZ: u64 = 3;
const HELLO: u64 = 4;
const WORLD: u64 = 5;
const BANG: u64 = 6;
const GOODBYE: u64 = 7;
const FAREWELL: u64 = 8;

#[test]
fn test_join() {
    let items_a = &[
        MapUnion::new_from(vec![(FOO, SetUnion::new_from(&[BAR]))]),
        MapUnion::new_from(vec![(FOO, SetUnion::new_from(&[BAZ]))]),
        MapUnion::new_from(vec![(HELLO, SetUnion::new_from(&[WORLD]))]),
    ];
    let items_b = &[
        MapUnion::new_from(vec![(FOO, SetUnion::new_from(&[BANG]))]),
        MapUnion::new_from(vec![(HELLO, SetUnion::new_from(&[GOODBYE, FAREWELL]))]),
    ];
    let func = KeyLatticeBimorphism(CartesianProductFn::default());

    assert!(check_lattice_bimorphism(func, items_a, items_b));
}

#[test]
fn cartesian_product_values() {
    let mut f = CartesianProductFn::default();
    let out = f.call(SetUnion::new_from(&[1, 2]), SetUnion::new_from(&[5]));
    assert_eq!(2, out.len());
    assert!(out.contains(&(1, 5)));
    assert!(out.contains(&(2, 5)));
    assert!(!out.contains(&(5, 1)));
}

#[test]
fn key_bimorphism_keeps_common_keys() {
    let mut f = KeyLatticeBimorphism(CartesianProductFn::default());
    let a = MapUnion::new_from(vec![(1, SetUnion::new_from(&[10])), (2, SetUnion::new_from(&[20]))]);
    let b = MapUnion::new_from(vec![(2, SetUnion::new_from(&[30])), (3, SetUnion::new_from(&[40]))]);
    let out = f.call(a, b);
    assert_eq!(1, out.len());
    let v = out.get(&2).unwrap();
    assert!(v.contains(&(20, 30)));
    assert_eq!(1, v.len());
    assert!(out.get(&1).is_none());
}

#[test]
fn non_morphism_is_caught() {
    // A constant non-bottom output is not a join-homomorphism.
    let items = &sample_sets();
    let func = wrap_closure_lattice_bimorphism(|_l: SetUnion<u64>, r: SetUnion<u64>| {
        let mut out = r.into_reveal();
        out.push(99);
        SetUnion::new(out)
    });
    assert!(check_lattice_bimorphism(func, items, items));
    let func = wrap_closure_lattice_bimorphism(|l: SetUnion<u64>, _r: SetUnion<u64>| {
        let n = l.len() as u64;
        SetUnion::new(vec![n])
    });
    assert!(!check_lattice_bimorphism(func, items, items));
}
