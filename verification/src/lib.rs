//! An ordered key-value container backed by an unbalanced binary search tree.
//!
//! [`BST`] maps keys of any totally ordered type to values. It supports three
//! operations: [`BST::insert`] (insert or overwrite), [`BST::contains`], and
//! [`BST::get`]. There is no deletion, no iteration, and no rebalancing: the
//! depth of the tree is decided by insertion order alone, so random insertion
//! orders give logarithmic depth while monotone orders degrade to a list.
//!
//! The view of a tree is the [`Map`] from the keys it stores to their values;
//! every operation's contract is stated over that map.
use vstd::prelude::*;

pub mod laws;
pub mod order;

pub use order::TotalOrder;

verus! {

/// One stored key-value pair and its two owned child slots. Every key in the
/// left subtree sorts strictly before `key`, every key in the right subtree
/// strictly after.
struct Node<K: TotalOrder, V> {
    key: K,
    value: V,
    left: Option<Box<Node<K, V>>>,
    right: Option<Box<Node<K, V>>>,
}

/// The map stored in an optional subtree: the union of the child maps, with
/// the root pair on top.
spec fn entries<K: TotalOrder, V>(opt: Option<Box<Node<K, V>>>) -> Map<K, V>
    decreases opt,
{
    match opt {
        None => Map::empty(),
        Some(n) => entries(n.left).union_prefer_right(entries(n.right)).insert(n.key, n.value),
    }
}

/// The binary-search-tree ordering: at every node, the keys of the left
/// subtree sort strictly before the node's key and the keys of the right
/// subtree strictly after it.
spec fn ordered<K: TotalOrder, V>(opt: Option<Box<Node<K, V>>>) -> bool
    decreases opt,
{
    match opt {
        None => true,
        Some(n) => {
            &&& (forall|k: K| #[trigger] entries(n.left).dom().contains(k) ==> K::less(k, n.key))
            &&& (forall|k: K| #[trigger] entries(n.right).dom().contains(k) ==> K::less(n.key, k))
            &&& ordered(n.left)
            &&& ordered(n.right)
        },
    }
}

/// An ordered key-value container backed by an unbalanced binary search tree.
///
/// Viewed as a [`Map`] from keys to values: `new` yields the empty map,
/// `insert` is [`Map::insert`], and `contains`/`get` look the key up in that
/// map. Each key is stored at most once.
pub struct BST<K: TotalOrder, V> {
    root: Option<Box<Node<K, V>>>,
}

impl<K: TotalOrder, V> View for BST<K, V> {
    type V = Map<K, V>;

    closed spec fn view(&self) -> Map<K, V> {
        entries(self.root)
    }
}

impl<K: TotalOrder, V> BST<K, V> {
    #[verifier::type_invariant]
    spec fn sorted(self) -> bool {
        ordered(self.root)
    }

    /// Returns an empty tree.
    pub fn new() -> (tree: Self)
        ensures
            tree@ == Map::<K, V>::empty(),
    {
        BST { root: None }
    }

    /// Inserts a new key-value pair, or overwrites the value stored for an
    /// existing key. Accepts every pair: an equal key always resolves to a
    /// value replacement, never to a duplicate entry or an error.
    pub fn insert(&mut self, key: K, value: V)
        ensures
            final(self)@ == old(self)@.insert(key, value),
    {
        proof {
            use_type_invariant(&*self);
        }
        let mut root: Option<Box<Node<K, V>>> = None;
        core::mem::swap(&mut root, &mut self.root);
        Node::insert(&mut root, key, value);
        self.root = root;
    }

    /// Reports whether some node of the tree holds a key equal to `key`.
    /// False on an empty tree and on any key never inserted.
    pub fn contains(&self, key: &K) -> (present: bool)
        ensures
            present == self@.dom().contains(*key),
    {
        proof {
            use_type_invariant(self);
        }
        Node::get(&self.root, key).is_some()
    }

    /// Returns the value stored for `key`, or `None` when the tree holds no
    /// such key.
    pub fn get(&self, key: &K) -> (found: Option<&V>)
        ensures
            (match found {
                Some(v) => self@.dom().contains(*key) && *v == self@[*key],
                None => !self@.dom().contains(*key),
            }),
    {
        proof {
            use_type_invariant(self);
        }
        Node::get(&self.root, key)
    }
}

impl<K: TotalOrder, V> Default for BST<K, V> {
    /// Returns an empty tree, as [`BST::new`] does.
    fn default() -> (tree: Self)
        ensures
            tree@ == Map::<K, V>::empty(),
    {
        Self::new()
    }
}

impl<K: TotalOrder, V> Node<K, V> {
    /// Returns a leaf node holding `(key, value)`, both child slots empty.
    fn new(key: K, value: V) -> (n: Self)
        ensures
            n.key == key,
            n.value == value,
            n.left is None,
            n.right is None,
    {
        Node { key, value, left: None, right: None }
    }

    /// Inserts `(key, value)` into the subtree rooted in `node`: descends
    /// comparing `key` to each visited node's key, overwrites the value in
    /// place when it finds an equal key, and fills the first empty slot the
    /// descent reaches with a fresh leaf otherwise. The subtree's map gains
    /// (or updates) exactly the one entry, and stays ordered.
    fn insert(node: &mut Option<Box<Node<K, V>>>, key: K, value: V)
        requires
            ordered(*old(node)),
        ensures
            ordered(*final(node)),
            entries(*final(node)) == entries(*old(node)).insert(key, value),
        decreases *old(node),
    {
        match node.take() {
            None => {
                *node = Some(Box::new(Node::new(key, value)));
                proof {
                    assert(entries(*node) =~= entries(*old(node)).insert(key, value));
                }
            },
            Some(boxed) => {
                let mut n: Node<K, V> = *boxed;
                match key.compare(&n.key) {
                    core::cmp::Ordering::Equal => {
                        n.value = value;
                        *node = Some(Box::new(n));
                        proof {
                            assert(entries(*node) =~= entries(*old(node)).insert(key, value));
                        }
                    },
                    core::cmp::Ordering::Less => {
                        Self::insert(&mut n.left, key, value);
                        *node = Some(Box::new(n));
                        proof {
                            if entries(n.right).dom().contains(key) {
                                K::lemma_less_asymmetric(key, n.key);
                            }
                            if key == n.key {
                                K::lemma_less_asymmetric(key, n.key);
                            }
                            assert(entries(*node) =~= entries(*old(node)).insert(key, value));
                        }
                    },
                    core::cmp::Ordering::Greater => {
                        Self::insert(&mut n.right, key, value);
                        *node = Some(Box::new(n));
                        proof {
                            if entries(n.left).dom().contains(key) {
                                K::lemma_less_asymmetric(n.key, key);
                            }
                            if key == n.key {
                                K::lemma_less_asymmetric(n.key, key);
                            }
                            assert(entries(*node) =~= entries(*old(node)).insert(key, value));
                        }
                    },
                }
            },
        }
    }

    /// Iterative descent from `node` toward `key`: left on less, right on
    /// greater, stop on equal or on an empty slot. Iteration rather than
    /// recursion keeps the lookup's stack use constant even on a tree skewed
    /// into a list by a monotone insertion order.
    fn get<'a>(node: &'a Option<Box<Node<K, V>>>, key: &K) -> (found: Option<&'a V>)
        requires
            ordered(*node),
        ensures
            (match found {
                Some(v) => entries(*node).dom().contains(*key) && *v == entries(*node)[*key],
                None => !entries(*node).dom().contains(*key),
            }),
    {
        let mut curr: &'a Option<Box<Node<K, V>>> = node;
        loop
            invariant
                ordered(*curr),
                entries(*curr).dom().contains(*key) == entries(*node).dom().contains(*key),
                entries(*curr).dom().contains(*key) ==> entries(*curr)[*key] == entries(*node)[*key],
            decreases *curr,
        {
            match curr {
                None => {
                    return None;
                },
                Some(n) => {
                    match key.compare(&n.key) {
                        core::cmp::Ordering::Equal => {
                            return Some(&n.value);
                        },
                        core::cmp::Ordering::Less => {
                            proof {
                                if entries(n.right).dom().contains(*key) {
                                    K::lemma_less_asymmetric(*key, n.key);
                                }
                                if *key == n.key {
                                    K::lemma_less_asymmetric(*key, n.key);
                                }
                            }
                            curr = &n.left;
                        },
                        core::cmp::Ordering::Greater => {
                            proof {
                                if entries(n.left).dom().contains(*key) {
                                    K::lemma_less_asymmetric(n.key, *key);
                                }
                                if *key == n.key {
                                    K::lemma_less_asymmetric(n.key, *key);
                                }
                            }
                            curr = &n.right;
                        },
                    }
                },
            }
        }
    }
}

} // verus!
