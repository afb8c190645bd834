//! Recipes: conversion rules from input items to output items, built
//! incrementally by append-only edits serialized through the recipe
//! coordinator.

use vstd::prelude::*;
use vstd::pervasive::VecAdditionalExecFns;
use crate::errors::LineError;
use crate::item::Item;
use crate::random::fresh_id;

verus! {

/// A conversion rule: lists of (item identity, quantity) pairs consumed and
/// produced.
pub struct Recipe {
    pub id: u128,
    pub name: String,
    pub input: Vec<(u128, i64)>,
    pub output: Vec<(u128, i64)>,
}

impl Recipe {
    /// All fields agree except possibly the input list.
    pub open spec fn same_but_input(pre: Recipe, post: Recipe) -> bool {
        &&& post.id == pre.id
        &&& post.name == pre.name
        &&& post.output@ == pre.output@
    }

    /// All fields agree except possibly the output list.
    pub open spec fn same_but_output(pre: Recipe, post: Recipe) -> bool {
        &&& post.id == pre.id
        &&& post.name == pre.name
        &&& post.input@ == pre.input@
    }
}

/// Position of the first recipe at or after `k` whose identity is `id`.
pub open spec fn recipe_find_from(rs: Seq<Recipe>, id: u128, k: int) -> Option<int>
    decreases rs.len() - k,
{
    if k < 0 || k >= rs.len() {
        None
    } else if rs[k].id == id {
        Some(k)
    } else {
        recipe_find_from(rs, id, k + 1)
    }
}

/// Position of the first recipe with identity `id`.
pub open spec fn recipe_find(rs: Seq<Recipe>, id: u128) -> Option<int> {
    recipe_find_from(rs, id, 0)
}

/// Position of the first item at or after `k` whose identity is `id`.
pub open spec fn item_find_from(items: Seq<Item>, id: u128, k: int) -> Option<int>
    decreases items.len() - k,
{
    if k < 0 || k >= items.len() {
        None
    } else if items[k].id == id {
        Some(k)
    } else {
        item_find_from(items, id, k + 1)
    }
}

/// Position of the first item with identity `id`.
pub open spec fn item_find(items: Seq<Item>, id: u128) -> Option<int> {
    item_find_from(items, id, 0)
}

/// A mutation request accepted by the recipe coordinator.
pub enum RecipeEvent {
    /// Create an empty recipe and append it to the table.
    CreateRecipe { name: String },
    /// Append an input requirement to the recipe with identity `recipe_id`;
    /// the item must exist in the shared item table.
    AddInput { recipe_id: u128, item_id: u128, quantity: i64 },
    /// Append an output product to the recipe with identity `recipe_id`; the
    /// item must exist in the shared item table.
    AddOutput { recipe_id: u128, item_id: u128, quantity: i64 },
}

/// Position of the first recipe in the table whose identity is `id`.
pub fn find_recipe_index(recipes: &Vec<Recipe>, id: u128) -> (r: Option<usize>)
    ensures
        (match recipe_find(recipes@, id) {
            Some(k) => {
                &&& 0 <= k < recipes@.len()
                &&& r is Some
                &&& r->0 as int == k
                &&& recipes@[k].id == id
            },
            None => r is None,
        }),
{
    let n = recipes.len();
    let mut k: usize = 0;
    while k < n
        invariant
            n == recipes@.len(),
            k <= n,
            recipe_find(recipes@, id) == recipe_find_from(recipes@, id, k as int),
        decreases n - k,
    {
        if recipes[k].id == id {
            return Some(k);
        }
        k = k + 1;
    }
    None
}

/// Position of the first item in the table whose identity is `id`.
pub fn find_item_index(items: &Vec<Item>, id: u128) -> (r: Option<usize>)
    ensures
        (match item_find(items@, id) {
            Some(k) => {
                &&& 0 <= k < items@.len()
                &&& r is Some
                &&& r->0 as int == k
                &&& items@[k].id == id
            },
            None => r is None,
        }),
{
    let n = items.len();
    let mut k: usize = 0;
    while k < n
        invariant
            n == items@.len(),
            k <= n,
            item_find(items@, id) == item_find_from(items@, id, k as int),
        decreases n - k,
    {
        if items[k].id == id {
            return Some(k);
        }
        k = k + 1;
    }
    None
}

/// A recipe that only fills a table slot while its owner is swapped out.
fn placeholder_recipe() -> (r: Recipe) {
    Recipe { id: 0, name: String::new(), input: Vec::new(), output: Vec::new() }
}

/// Applies one recipe coordinator request against the shared recipe table,
/// resolving item identities in the shared item table. Requests are applied
/// one at a time in arrival order; a failed lookup leaves the table unchanged
/// and the error is returned, never swallowed.
pub fn apply_recipe_event(recipes: &mut Vec<Recipe>, items: &Vec<Item>, event: RecipeEvent) -> (r:
    Result<(), LineError>)
    ensures
        (match event {
            RecipeEvent::CreateRecipe { name } => {
                &&& final(recipes)@.len() == old(recipes)@.len() + 1
                &&& forall|k: int|
                    0 <= k < old(recipes)@.len() ==> final(recipes)@[k] == old(recipes)@[k]
                &&& final(recipes)@.last().name == name
                &&& final(recipes)@.last().input@ == Seq::<(u128, i64)>::empty()
                &&& final(recipes)@.last().output@ == Seq::<(u128, i64)>::empty()
                &&& r is Ok
            },
            RecipeEvent::AddInput { recipe_id, item_id, quantity } => {
                match recipe_find(old(recipes)@, recipe_id) {
                    None => {
                        &&& r == Result::<(), LineError>::Err(LineError::RecipeNotFoundError)
                        &&& final(recipes)@ == old(recipes)@
                    },
                    Some(ri) => {
                        match item_find(items@, item_id) {
                            None => {
                                &&& r == Result::<(), LineError>::Err(LineError::ItemNotFoundError)
                                &&& final(recipes)@ == old(recipes)@
                            },
                            Some(_it) => {
                                &&& r is Ok
                                &&& final(recipes)@.len() == old(recipes)@.len()
                                &&& forall|k: int|
                                    0 <= k < old(recipes)@.len() && k != ri ==> final(recipes)@[k]
                                        == old(recipes)@[k]
                                &&& Recipe::same_but_input(old(recipes)@[ri], final(recipes)@[ri])
                                &&& final(recipes)@[ri].input@ == old(recipes)@[ri].input@.push(
                                    (item_id, quantity),
                                )
                            },
                        }
                    },
                }
            },
            RecipeEvent::AddOutput { recipe_id, item_id, quantity } => {
                match recipe_find(old(recipes)@, recipe_id) {
                    None => {
                        &&& r == Result::<(), LineError>::Err(LineError::RecipeNotFoundError)
                        &&& final(recipes)@ == old(recipes)@
                    },
                    Some(ri) => {
                        match item_find(items@, item_id) {
                            None => {
                                &&& r == Result::<(), LineError>::Err(LineError::ItemNotFoundError)
                                &&& final(recipes)@ == old(recipes)@
                            },
                            Some(_it) => {
                                &&& r is Ok
                                &&& final(recipes)@.len() == old(recipes)@.len()
                                &&& forall|k: int|
                                    0 <= k < old(recipes)@.len() && k != ri ==> final(recipes)@[k]
                                        == old(recipes)@[k]
                                &&& Recipe::same_but_output(old(recipes)@[ri], final(recipes)@[ri])
                                &&& final(recipes)@[ri].output@ == old(recipes)@[ri].output@.push(
                                    (item_id, quantity),
                                )
                            },
                        }
                    },
                }
            },
        }),
{
    match event {
        RecipeEvent::CreateRecipe { name } => {
            let r = Recipe { id: fresh_id(), name, input: Vec::new(), output: Vec::new() };
            recipes.push(r);
            Ok(())
        },
        RecipeEvent::AddInput { recipe_id, item_id, quantity } => {
            match find_recipe_index(recipes, recipe_id) {
                None => Err(LineError::RecipeNotFoundError),
                Some(ri) => {
                    match find_item_index(items, item_id) {
                        None => Err(LineError::ItemNotFoundError),
                        Some(_it) => {
                            let mut taken = placeholder_recipe();
                            recipes.set_and_swap(ri, &mut taken);
                            taken.input.push((item_id, quantity));
                            recipes.set_and_swap(ri, &mut taken);
                            proof {
                                assert(recipes@ =~= old(recipes)@.update(
                                    ri as int,
                                    recipes@[ri as int],
                                ));
                            }
                            Ok(())
                        },
                    }
                },
            }
        },
        RecipeEvent::AddOutput { recipe_id, item_id, quantity } => {
            match find_recipe_index(recipes, recipe_id) {
                None => Err(LineError::RecipeNotFoundError),
                Some(ri) => {
                    match find_item_index(items, item_id) {
                        None => Err(LineError::ItemNotFoundError),
                        Some(_it) => {
                            let mut taken = placeholder_recipe();
                            recipes.set_and_swap(ri, &mut taken);
                            taken.output.push((item_id, quantity));
                            recipes.set_and_swap(ri, &mut taken);
                            proof {
                                assert(recipes@ =~= old(recipes)@.update(
                                    ri as int,
                                    recipes@[ri as int],
                                ));
                            }
                            Ok(())
                        },
                    }
                },
            }
        },
    }
}

} // verus!
