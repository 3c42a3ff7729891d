use hydroflow::cartesian::{cartesian_power, combinations};

#[test]
fn test_cartesian_power() {
    let items = &[1, 2, 3];
    let mut iter = cartesian_power::<_, 3>(items);
    let mut len = 27;
    assert_eq!(len, iter.len());
    for x in items {
        for y in items {
            for z in items {
                len -= 1;
                assert_eq!(Some(vec![z, y, x]), iter.next());
                assert_eq!(len, iter.len());
            }
        }
    }
}

#[test]
fn test_cartesian_power_zero() {
    let mut iter = cartesian_power::<_, 0>(&[0, 1, 2]);
    assert_eq!(1, iter.len());
    assert_eq!(Some(Vec::<&i32>::new()), iter.next());
    assert_eq!(None, iter.next());
}

#[test]
fn test_cartesian_power_empty() {
    let mut iter = cartesian_power::<_, 4>(&[] as &[usize]);
    assert_eq!(0, iter.len());
    assert_eq!(None, iter.next());
}

#[test]
fn test_combinations() {
    let mut iter = combinations::<_, 3>(&[1, 2, 3]);
    println!("{}", iter.len());
    let mut i = 0;
    while let Some(combo) = iter.next() {
        let (a, b, c) = (combo[0], combo[1], combo[2]);
        println!("{}: {:?} ({})", i + 1, [a, b, c], iter.len());
        i += 1;
    }
    assert_eq!(27, i);
}

#[test]
fn test_combinations_empty() {
    let mut iter = combinations::<_, 4>(&[] as &[usize]);
    assert_eq!(0, iter.len());
    assert_eq!(None, iter.next());
}

#[test]
fn cartesian_power_pairs_in_order() {
    let items = &['a', 'b'];
    let mut iter = cartesian_power::<_, 2>(items);
    assert_eq!(4, iter.len());
    assert_eq!(Some(vec![&'a', &'a']), iter.next());
    assert_eq!(Some(vec![&'b', &'a']), iter.next());
    assert_eq!(Some(vec![&'a', &'b']), iter.next());
    assert_eq!(1, iter.len());
    assert_eq!(Some(vec![&'b', &'b']), iter.next());
    assert_eq!(0, iter.len());
    assert_eq!(None, iter.next());
    assert_eq!(None, iter.next());
}

#[test]
fn each_tuple_yielded_once_and_combinations_agree() {
    let items = &[10, 20, 30];
    let mut power = cartesian_power::<_, 2>(items);
    let mut combos = combinations::<_, 2>(items);
    let mut seen: Vec<Vec<&i32>> = Vec::new();
    loop {
        assert_eq!(power.len(), combos.len());
        let p = power.next();
        let c = combos.next();
        assert_eq!(p, c);
        match p {
            Some(t) => {
                assert!(!seen.contains(&t));
                seen.push(t);
            }
            None => break,
        }
    }
    assert_eq!(9, seen.len());
    for x in items {
        for y in items {
            assert!(seen.contains(&vec![x, y]));
        }
    }
}
