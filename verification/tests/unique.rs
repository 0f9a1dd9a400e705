use subset::unique::{Subset, SubsetError, SubsetMut};

#[test]
fn mod_test_set() {
    let set = vec![9, 8, 7, 6, 5, 4, 3, 2, 1, 0];
    let idxs = vec![2, 2];
    assert_eq!(Subset::new(&set, &idxs).err(), Some(SubsetError::NotUnique));
    let idxs = vec![10];
    assert_eq!(Subset::new(&set, &idxs).err(), Some(SubsetError::OutOfBounds));
    let idxs = vec![2, 4, 7];
    let subset = Subset::new(&set, &idxs).unwrap();
    let mut sum = 0;
    for e in subset.iter() {
        sum += e;
    }
    assert_eq!(sum, 14);
    let mut sum = 0;
    for e in subset.iter().map(|v| 2 * v).rev() {
        sum += e;
    }
    assert_eq!(sum, 28);
}

#[test]
fn mod_test_mut() {
    let mut set = vec![9, 8, 7, 6, 5, 4, 3, 2, 1, 0];
    let idxs = vec![2, 2];
    assert_eq!(SubsetMut::new(&mut set, &idxs).err(), Some(SubsetError::NotUnique));
    let idxs = vec![10];
    assert_eq!(SubsetMut::new(&mut set, &idxs).err(), Some(SubsetError::OutOfBounds));
    let idxs = vec![2, 4, 7];
    let mut subset = SubsetMut::new(&mut set, &idxs).unwrap();
    let mut iter = subset.iter_mut();
    let r1 = iter.next().unwrap();
    let r2 = iter.next().unwrap();
    *r1 = 19;
    *r2 = 33;
    assert_eq!(subset.set(), vec![9, 8, 19, 6, 33, 4, 3, 2, 1, 0].as_slice());
    let mut sum = 0;
    for e in subset.iter().map(|v| 2 * *v).rev() {
        sum += e;
    }
    assert_eq!(sum, 108);
}

#[test]
fn unique_mutable_walk_writes_through_to_the_set() {
    let mut set = [1, 2, 3];
    let idxs = [0, 1];
    let mut subset = SubsetMut::new(&mut set, &idxs).unwrap();
    let mut iter = subset.iter_mut();
    let first = iter.next().unwrap();
    let second = iter.next().unwrap();
    assert!(iter.next().is_none());
    *first = 100;
    *second = 200;
    assert_eq!(set, [100, 200, 3]);
}

#[test]
fn unique_mutable_walk_in_the_order_of_the_indexes() {
    let mut set = [9, 8, 7, 6, 5, 4, 3, 2, 1, 0];
    let idxs = vec![2, 4, 7];
    let mut subset = SubsetMut::new(&mut set, &idxs).unwrap();
    let mut iter = subset.iter_mut();
    let r1 = iter.next().unwrap();
    assert_eq!(*r1, 7);
    let r2 = iter.next().unwrap();
    assert_eq!(*r2, 5);
    *r1 = 19;
    *r2 = 33;
    assert_eq!(iter.next(), Some(&mut 2));
    assert_eq!(iter.next(), None);
    assert_eq!(subset.set(), vec![9, 8, 19, 6, 33, 4, 3, 2, 1, 0].as_slice());
}

#[test]
fn unique_mutable_walk_from_both_ends() {
    let mut set = [10, 11, 12, 13, 14, 15];
    let idxs = vec![5, 0, 3, 1];
    let mut subset = SubsetMut::new(&mut set, &idxs).unwrap();
    let mut iter = subset.iter_mut();
    let a = iter.next().unwrap();
    let b = iter.next_back().unwrap();
    let c = iter.next_back().unwrap();
    let d = iter.next().unwrap();
    assert!(iter.next().is_none());
    assert!(iter.next_back().is_none());
    assert_eq!((*a, *b, *c, *d), (15, 11, 13, 10));
    *a += 100;
    *b += 200;
    *c += 300;
    *d += 400;
    assert_eq!(set, [410, 211, 12, 313, 14, 115]);
}

#[test]
fn unique_references_handed_out_are_to_different_items() {
    let mut set = [0u8; 8];
    let idxs = vec![6, 1, 4, 0, 7];
    let mut subset = SubsetMut::new(&mut set, &idxs).unwrap();
    let mut iter = subset.iter_mut();
    let mut held: Vec<&mut u8> = Vec::new();
    let mut back = false;
    loop {
        let item = if back { iter.next_back() } else { iter.next() };
        back = !back;
        match item {
            Some(r) => held.push(r),
            None => break,
        }
    }
    assert_eq!(held.len(), 5);
    let mut mark = 1;
    for r in held {
        *r = mark;
        mark += 1;
    }
    assert_eq!(set, [4, 3, 0, 0, 5, 0, 1, 2]);
}

#[test]
fn unique_items_never_handed_out_stay_as_they_are() {
    let mut set = vec![1, 2, 3, 4];
    let idxs = vec![3, 1, 0];
    let mut subset = SubsetMut::new(&mut set, &idxs).unwrap();
    {
        let mut iter = subset.iter_mut();
        *iter.next().unwrap() = 40;
    }
    assert_eq!(subset.set(), &mut [1, 2, 3, 40]);
    let mut iter = subset.iter_mut();
    *iter.next_back().unwrap() = 10;
    assert_eq!(set, vec![10, 2, 3, 40]);
}

#[test]
fn unique_bounds_are_checked_before_repetition() {
    let mut set = vec![1, 2, 3];
    let idxs = vec![1, 1, 3];
    assert_eq!(Subset::new(&set, &idxs).err(), Some(SubsetError::OutOfBounds));
    assert_eq!(SubsetMut::new(&mut set, &idxs).err(), Some(SubsetError::OutOfBounds));
    let idxs = vec![1, 1, 2];
    assert_eq!(Subset::new(&set, &idxs).err(), Some(SubsetError::NotUnique));
    assert_eq!(SubsetMut::new(&mut set, &idxs).err(), Some(SubsetError::NotUnique));
}

#[test]
fn unique_empty_selection_yields_nothing() {
    let mut set = vec![1, 2, 3];
    let idxs: Vec<usize> = vec![];
    {
        let subset = Subset::new(&set, &idxs).unwrap();
        let mut iter = subset.iter();
        assert_eq!(iter.next(), None);
    }
    let mut subset = SubsetMut::new(&mut set, &idxs).unwrap();
    let mut iter = subset.iter_mut();
    assert_eq!(iter.next(), None);
    assert_eq!(iter.next_back(), None);
    assert_eq!(set, vec![1, 2, 3]);
}

#[test]
fn unique_every_position_can_be_selected() {
    let mut set = vec![1, 2, 3];
    let idxs = vec![2, 1, 0];
    let mut subset = SubsetMut::new(&mut set, &idxs).unwrap();
    let mut iter = subset.iter_mut();
    let mut by = 10;
    while let Some(item) = iter.next() {
        *item *= by;
        by *= 10;
    }
    assert_eq!(set, vec![1000, 200, 30]);
}

#[test]
fn unique_getters_return_what_was_given() {
    let mut set = vec![1.0, 1.1, 1.2];
    let idxs = [0, 1];
    {
        let subset = Subset::new(&set, &idxs).unwrap();
        assert_eq!(subset.set(), &[1.0, 1.1, 1.2]);
        assert_eq!(subset.idxs(), &[0, 1]);
    }
    let mut subset = SubsetMut::new(&mut set, &idxs).unwrap();
    assert_eq!(subset.idxs(), &[0, 1]);
    subset.set()[0] = 3.1415;
    assert_eq!(set, vec![3.1415, 1.1, 1.2]);
}

#[test]
fn unique_shared_walk_over_an_exclusive_subset() {
    let mut set = vec![9, 8, 7, 6, 5, 4, 3, 2, 1, 0];
    let idxs = vec![7, 2];
    let subset = SubsetMut::new(&mut set, &idxs).unwrap();
    let mut iter = subset.iter();
    assert_eq!(iter.next(), Some(&2));
    assert_eq!(iter.next(), Some(&7));
    assert_eq!(iter.next(), None);
}

#[test]
fn unique_unchecked_constructors_keep_set_and_indexes() {
    let mut set = vec![1, 2, 3];
    let idxs = vec![2, 0];
    {
        let subset = Subset::new_unchecked(&set, &idxs);
        let mut iter = subset.iter();
        assert_eq!(iter.next(), Some(&3));
        assert_eq!(iter.next(), Some(&1));
        assert_eq!(iter.next(), None);
    }
    let mut subset = SubsetMut::new_unchecked(&mut set, &idxs);
    let mut iter = subset.iter_mut();
    *iter.next().unwrap() = 30;
    *iter.next().unwrap() = 10;
    assert_eq!(set, vec![10, 2, 30]);
}

#[test]
fn unique_iterators_work_in_for_loops() {
    let mut set = vec![1, 2, 3, 4];
    let idxs = vec![3, 0];
    {
        let subset = Subset::new(&set, &idxs).unwrap();
        let mut seen = Vec::new();
        for e in &subset {
            seen.push(*e);
        }
        assert_eq!(seen, vec![4, 1]);
    }
    {
        let mut subset = SubsetMut::new(&mut set, &idxs).unwrap();
        for e in subset.iter_mut().rev() {
            *e += 10;
        }
        let mut seen = Vec::new();
        for e in &subset {
            seen.push(*e);
        }
        assert_eq!(seen, vec![14, 11]);
    }
    {
        let mut subset = SubsetMut::new(&mut set, &idxs).unwrap();
        for e in &mut subset {
            *e *= 2;
        }
    }
    assert_eq!(set, vec![22, 2, 3, 28]);
}
