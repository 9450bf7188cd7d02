use crate::error::AsimovError;
use crate::input::Embeddable;
use crate::input::Input;
use vstd::prelude::*;

verus! {

/// The capability set every vector space backend exposes, over an
/// associated item type that renders to text and carries a key: namespace
/// lifecycle, adding and deleting items, and k-nearest-neighbor queries.
/// Every backend implements the same operations with the same meaning.
pub trait VectorSpace {
    type Item: Embeddable;

    /// The backend's internal consistency invariant; every operation
    /// preserves it.
    spec fn inv(&self) -> bool;

    /// Whether the namespace exists; fails on a malformed name.
    fn namespace_exists(&mut self, namespace: &str) -> (r: Result<bool, AsimovError>)
        requires
            old(self).inv(),
        ensures
            final(self).inv(),
    ;

    /// Creates the namespace with an empty index collection; fails on a
    /// malformed name or when it already exists.
    fn create_namespace(&mut self, namespace: &str) -> (r: Result<(), AsimovError>)
        requires
            old(self).inv(),
        ensures
            final(self).inv(),
    ;

    /// Deletes the namespace and releases its index; fails when it is
    /// absent.
    fn delete_namespace(&mut self, namespace: &str) -> (r: Result<(), AsimovError>)
        requires
            old(self).inv(),
        ensures
            final(self).inv(),
    ;

    /// Embeds and stores a batch of items in the namespace, rebuilding the
    /// index once for the whole batch; fails when the namespace is absent.
    fn add_items(&mut self, namespace: &str, items: Vec<Self::Item>) -> (r: Result<
        (),
        AsimovError,
    >)
        requires
            old(self).inv(),
        ensures
            final(self).inv(),
    ;

    /// Stores one item: a single-element batch.
    fn add_item(&mut self, namespace: &str, item: Self::Item) -> (r: Result<(), AsimovError>)
        requires
            old(self).inv(),
        ensures
            final(self).inv(),
    {
        self.add_items(namespace, vec![item])
    }

    /// Deletes the item whose key renders like the given one; fails when
    /// the namespace or the derived id is absent.
    fn delete_item(&mut self, namespace: &str, item: Self::Item) -> (r: Result<(), AsimovError>)
        requires
            old(self).inv(),
        ensures
            final(self).inv(),
    ;

    /// Embeds the query and returns the stored items nearest to it, up to
    /// k of them; fails when the namespace is absent.
    fn knn<Q: Input>(&self, namespace: &str, query: &Q, k: usize) -> (r: Result<
        Vec<Self::Item>,
        AsimovError,
    >)
        requires
            self.inv(),
    ;
}

} // verus!
