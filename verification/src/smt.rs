use novasmt::ContentAddrStore;
use vstd::prelude::*;

use crate::crypto::{zero_hash_seq, HashVal};

verus! {

/// The backing store reported a problem (a tree root that the store does not
/// hold). The detail is opaque to the state-transition core.
#[derive(Clone, Copy, Debug, PartialEq, Eq, Structural)]
pub struct SmtError;

/// A content-addressed store holding sparse Merkle trees.
#[verifier::external_body]
pub struct SmtStore {
    db: novasmt::Database<novasmt::InMemoryCas>,
}

/// A view over one sparse Merkle tree in a store. Updates are functional:
/// `with` returns a new view and leaves the receiver unchanged.
#[verifier::external_body]
pub struct SmtTree {
    inner: novasmt::Tree<novasmt::InMemoryCas>,
}

/// The key-value bindings that a tree view denotes. Keys are 32-byte
/// sequences; a key outside the map's domain is bound to the empty value.
pub uninterp spec fn smt_contents(t: SmtTree) -> Map<Seq<u8>, Seq<u8>>;

/// The root hash that commits to a set of bindings. A sparse Merkle tree
/// with no empty values bound has a canonical shape, so the root is a
/// function of the bindings alone.
pub uninterp spec fn smt_root_of(m: Map<Seq<u8>, Seq<u8>>) -> Seq<u8>;

/// The bindings a content-addressed root denotes. Every node names its
/// children by their hashes, so a root determines the whole tree below it,
/// whatever store it is read from; a colliding pair of nodes is the one
/// event this model assumes away, the same hypothesis the conservation law
/// states over the balance keys.
pub uninterp spec fn smt_committed(root: Seq<u8>) -> Map<Seq<u8>, Seq<u8>>;

/// What reading `k` from bindings `m` yields: the bound value, or the empty
/// byte string when `k` is unbound.
pub open spec fn smt_lookup(m: Map<Seq<u8>, Seq<u8>>, k: Seq<u8>) -> Seq<u8> {
    if m.dom().contains(k) {
        m[k]
    } else {
        Seq::empty()
    }
}

impl SmtStore {
    /// Relies on novasmt::Database::new and novasmt::InMemoryCas: a fresh
    /// in-memory store.
    #[verifier::external_body]
    pub fn new() -> (s: SmtStore) {
        SmtStore { db: novasmt::Database::new(novasmt::InMemoryCas::default()) }
    }
}

impl SmtTree {
    /// Relies on novasmt::Database::get_tree: a view rooted at `root`,
    /// denoting the bindings committed under that root.
    #[verifier::external_body]
    pub fn open(store: &SmtStore, root: &HashVal) -> (t: SmtTree)
        ensures
            smt_contents(t) == smt_committed(root@),
    {
        let tree = store.db.get_tree(root.0).expect("get_tree never fails");
        SmtTree { inner: tree }
    }

    /// Relies on novasmt::Database::get_tree: the view rooted at the
    /// all-zero hash denotes the empty mapping.
    #[verifier::external_body]
    pub fn open_empty(store: &SmtStore) -> (t: SmtTree)
        ensures
            smt_contents(t) === Map::empty(),
            smt_contents(t) == smt_committed(zero_hash_seq()),
    {
        let tree = store.db.get_tree([0u8; 32]).expect("get_tree never fails");
        SmtTree { inner: tree }
    }

    /// Relies on novasmt::Tree::get: returns the bytes bound to `key`, and
    /// the empty value for an unbound key. Errs when the backing store lacks
    /// the tree's root node; the in-memory store never evicts interior
    /// nodes, so a present root means the whole walk succeeds.
    #[verifier::external_body]
    pub fn get(&self, key: &HashVal) -> (r: Result<Vec<u8>, SmtError>)
        ensures
            r matches Ok(v) ==> v@ == smt_lookup(smt_contents(*self), key@),
    {
        let root = self.inner.root_hash();
        if root != [0u8; 32] && self.inner.storage().get(&root).is_none() {
            return Err(SmtError);
        }
        Ok(self.inner.get(key.0).into_owned())
    }

    /// Relies on novasmt::Tree::with: a functional update binding `key` to a
    /// non-empty `value`, leaving the receiver's bindings unchanged. Errs
    /// when the backing store lacks the tree's root node.
    #[verifier::external_body]
    pub fn with(&self, key: &HashVal, value: &[u8]) -> (r: Result<SmtTree, SmtError>)
        requires
            value@.len() > 0,
        ensures
            r matches Ok(t2) ==> smt_contents(t2) == smt_contents(*self).insert(key@, value@),
    {
        let root = self.inner.root_hash();
        if root != [0u8; 32] && self.inner.storage().get(&root).is_none() {
            return Err(SmtError);
        }
        Ok(SmtTree { inner: self.inner.clone().with(key.0, value) })
    }

    /// Relies on novasmt::Tree::root_hash: the root hash commits to the
    /// bindings; equal bindings yield equal roots, and reopening at this
    /// root denotes these bindings again.
    #[verifier::external_body]
    pub fn root_hash(&self) -> (r: HashVal)
        ensures
            r@ == smt_root_of(smt_contents(*self)),
            smt_committed(r@) == smt_contents(*self),
    {
        HashVal(self.inner.root_hash())
    }

    /// Relies on novasmt::Tree::clone: a cheap second view over the same
    /// bindings.
    #[verifier::external_body]
    pub(crate) fn duplicate(&self) -> (r: SmtTree)
        ensures
            smt_contents(r) == smt_contents(*self),
    {
        SmtTree { inner: self.inner.clone() }
    }
}

} // verus!
