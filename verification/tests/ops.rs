use bst::BST;

#[test]
fn empty_tree_contains_nothing() {
    let tree: BST<u64, u32> = BST::new();
    assert_eq!(tree.contains(&0), false);
    assert_eq!(tree.contains(&42), false);
    assert_eq!(tree.contains(&u64::MAX), false);
    assert!(tree.get(&0).is_none());
    assert!(tree.get(&42).is_none());
    assert!(tree.get(&u64::MAX).is_none());
}

#[test]
fn default_tree_is_empty() {
    let tree: BST<u64, u32> = BST::default();
    assert_eq!(tree.contains(&7), false);
    assert!(tree.get(&7).is_none());
}

#[test]
fn three_keys_scenario() {
    let mut tree: BST<u64, &str> = BST::new();
    tree.insert(5, "a");
    tree.insert(3, "b");
    tree.insert(8, "c");
    tree.insert(3, "d");

    assert!(tree.contains(&3));
    assert!(tree.contains(&5));
    assert!(tree.contains(&8));
    assert_eq!(tree.contains(&4), false);

    assert_eq!(tree.get(&3), Some(&"d"));
    assert_eq!(tree.get(&5), Some(&"a"));
    assert_eq!(tree.get(&8), Some(&"c"));
    assert_eq!(tree.get(&4), None);
}

#[test]
fn overwrite_keeps_latest_value() {
    let mut tree: BST<u64, u32> = BST::new();
    tree.insert(10, 1);
    assert_eq!(tree.get(&10), Some(&1));
    tree.insert(10, 2);
    assert_eq!(tree.get(&10), Some(&2));
    assert!(tree.contains(&10));
    assert_eq!(tree.contains(&9), false);
    assert_eq!(tree.contains(&11), false);
}

#[test]
fn inserted_keys_are_contained() {
    let mut tree: BST<u32, u32> = BST::new();
    let keys: [u32; 7] = [50, 20, 80, 10, 30, 70, 90];
    for (i, key) in keys.iter().enumerate() {
        tree.insert(*key, i as u32);
    }
    for key in keys.iter() {
        assert!(tree.contains(key));
    }
    for absent in [0u32, 15, 25, 60, 100].iter() {
        assert_eq!(tree.contains(absent), false);
        assert_eq!(tree.get(absent), None);
    }
}

#[test]
fn sorted_insertion_skews_but_works() {
    // Monotone insertion order degrades the tree to a list shape; lookups
    // must still answer correctly.
    let mut tree: BST<u32, u32> = BST::new();
    for key in 0..1000u32 {
        tree.insert(key, key * 2);
    }
    for key in 0..1000u32 {
        assert!(tree.contains(&key));
        assert_eq!(tree.get(&key), Some(&(key * 2)));
    }
    assert_eq!(tree.contains(&1000), false);
}

#[test]
fn reverse_sorted_insertion_works() {
    let mut tree: BST<u32, u32> = BST::new();
    for key in (0..1000u32).rev() {
        tree.insert(key, key + 1);
    }
    for key in 0..1000u32 {
        assert_eq!(tree.get(&key), Some(&(key + 1)));
    }
    assert_eq!(tree.contains(&1000), false);
}
