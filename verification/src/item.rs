//! Items: the immutable descriptions of the material that moves through a
//! line. An item is shared by identity wherever it appears in a buffer's
//! ledger or a recipe.

use vstd::prelude::*;
use crate::random::fresh_id;

verus! {

/// An immutable kind of material, referenced everywhere by its identity.
/// `size` and `cost` are fixed-point integer amounts in the caller's unit.
/// Cloning keeps the identity: clones stand for the same shared item.
#[derive(Clone)]
pub struct Item {
    pub id: u128,
    pub name: String,
    pub size: u64,
    pub cost: Option<u64>,
}

impl Item {
    /// Creates an item with a fresh random identity.
    pub fn new(name: String, size: u64, cost: Option<u64>) -> (it: Item)
        ensures
            it.name@ == name@,
            it.size == size,
            it.cost == cost,
    {
        Item { id: fresh_id(), name, size, cost }
    }

    /// The identity under which the item is stored in ledgers and recipes.
    pub fn id(&self) -> (r: u128)
        ensures
            r == self.id,
    {
        self.id
    }
}

} // verus!
