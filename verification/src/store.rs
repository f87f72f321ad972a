//! The recipe store: sole owner of the recipe collection.
//!
//! Every operation hands out copies; callers never see a mutable
//! reference into the collection. The store view is the sequence of
//! recipe views in insertion order.

use vstd::prelude::*;

use crate::model::{Recipe, RecipeView};

verus! {

/// Why a store operation could not produce a recipe.
#[derive(Debug, Clone, Copy, PartialEq, Eq, Structural)]
pub enum StoreError {
    /// A random pick was asked of a store that holds no recipes.
    Empty,
    /// No recipe in the store carries the requested identifier.
    NotFound,
}

/// Holds whenever some recipe in `s` carries the identifier `id`.
pub open spec fn has_recipe(s: Seq<RecipeView>, id: u32) -> bool {
    exists|i: int| 0 <= i < s.len() && s[i].id == id
}

/// The least index in `s` whose recipe carries `id`; meaningful only
/// when `has_recipe(s, id)` holds. Lookups on duplicate identifiers
/// resolve to this index: the earliest inserted match wins.
pub open spec fn first_match(s: Seq<RecipeView>, id: u32) -> int
    decreases s.len(),
{
    if s.len() == 0 {
        0
    } else if s[0].id == id {
        0
    } else {
        1 + first_match(s.drop_first(), id)
    }
}

/// Where some recipe carries `id`, the first match is a valid index,
/// carries `id`, and nothing before it does: lookup by identifier is
/// deterministic even when identifiers repeat.
pub proof fn lemma_first_match_properties(s: Seq<RecipeView>, id: u32)
    requires
        has_recipe(s, id),
    ensures
        0 <= first_match(s, id) < s.len(),
        s[first_match(s, id)].id == id,
        forall|j: int| 0 <= j < first_match(s, id) ==> s[j].id != id,
    decreases s.len(),
{
    if s.len() == 0 {
    } else if s[0].id == id {
    } else {
        let rest = s.drop_first();
        assert(has_recipe(rest, id)) by {
            let w = choose|i: int| 0 <= i < s.len() && s[i].id == id;
            assert(rest[w - 1] == s[w]);
        }
        lemma_first_match_properties(rest, id);
        assert forall|j: int| 0 <= j < first_match(s, id) implies s[j].id != id by {
            if j > 0 {
                assert(s[j] == rest[j - 1]);
            }
        }
    }
}

/// A scan that matched at `i`, after finding no match before `i`,
/// has found exactly the first match.
pub proof fn lemma_first_match_at(s: Seq<RecipeView>, id: u32, i: int)
    requires
        0 <= i < s.len(),
        s[i].id == id,
        forall|j: int| 0 <= j < i ==> s[j].id != id,
    ensures
        first_match(s, id) == i,
    decreases s.len(),
{
    if i == 0 {
    } else {
        let rest = s.drop_first();
        assert forall|j: int| 0 <= j < i - 1 implies rest[j].id != id by {
            assert(rest[j] == s[j + 1]);
        }
        assert(rest[i - 1] == s[i]);
        lemma_first_match_at(rest, id, i - 1);
    }
}

/// The store: the canonical, insertion-ordered recipe collection.
pub struct RecipeStore {
    recipes: Vec<Recipe>,
}

impl View for RecipeStore {
    type V = Seq<RecipeView>;

    closed spec fn view(&self) -> Seq<RecipeView> {
        self.recipes.deep_view()
    }
}

impl RecipeStore {
    /// A fresh store holds nothing.
    pub fn new() -> (store: Self)
        ensures
            store@ == Seq::<RecipeView>::empty(),
    {
        let store = RecipeStore { recipes: Vec::new() };
        proof {
            assert(store@ =~= Seq::<RecipeView>::empty());
        }
        store
    }

    /// Appends the given recipe to the end of the collection and echoes
    /// back a copy of what was stored. No uniqueness check is made on
    /// the identifier.
    pub fn create(&mut self, recipe: Recipe) -> (stored: Recipe)
        ensures
            final(self)@ == old(self)@.push(recipe@),
            stored@ == recipe@,
    {
        let stored = recipe.clone();
        self.recipes.push(recipe);
        proof {
            assert(self@ =~= old(self)@.push(stored@));
        }
        stored
    }

    /// A full snapshot of the collection, in insertion order. Later
    /// mutations of the store never reach the snapshot.
    pub fn list(&self) -> (snapshot: Vec<Recipe>)
        ensures
            snapshot.deep_view() == self@,
    {
        let mut snapshot: Vec<Recipe> = Vec::new();
        let n = self.recipes.len();
        let mut i: usize = 0;
        while i < n
            invariant
                i <= n,
                n == self@.len(),
                snapshot.deep_view() == self@.subrange(0, i as int),
            decreases n - i,
        {
            let copy = self.recipes[i].clone();
            proof {
                assert(copy.deep_view() == self@[i as int]);
            }
            let ghost pre = snapshot.deep_view();
            proof {
                assert(pre.len() == i as int);
                assert(snapshot@.len() == i as int);
            }
            snapshot.push(copy);
            i += 1;
            proof {
                assert forall|k: int| 0 <= k < i as int implies snapshot.deep_view()[k] == self@.subrange(
                    0,
                    i as int,
                )[k] by {
                    if k < i as int - 1 {
                        assert(snapshot.deep_view()[k] == pre[k]);
                    }
                }
                assert(snapshot.deep_view() =~= self@.subrange(0, i as int));
            }
        }
        proof {
            assert(self@.subrange(0, n as int) =~= self@);
        }
        snapshot
    }

    /// A copy of the earliest inserted recipe whose identifier equals
    /// `id`, or `NotFound` when no recipe carries `id`.
    pub fn get_by_id(&self, id: u32) -> (result: Result<Recipe, StoreError>)
        ensures
            result is Ok <==> has_recipe(self@, id),
            result matches Ok(found) ==> found@ == self@[first_match(self@, id)],
            result matches Err(e) ==> e == StoreError::NotFound,
    {
        let n = self.recipes.len();
        let mut i: usize = 0;
        while i < n
            invariant
                i <= n,
                n == self@.len(),
                forall|j: int| 0 <= j < i ==> self@[j].id != id,
            decreases n - i,
        {
            if self.recipes[i].id == id {
                let found = self.recipes[i].clone();
                proof {
                    assert(self@[i as int].id == id);
                    assert(has_recipe(self@, id));
                    lemma_first_match_at(self@, id, i as int);
                    assert(found@ == self@[i as int]);
                }
                return Ok(found);
            }
            i += 1;
        }
        Err(StoreError::NotFound)
    }

    /// A copy of one recipe of the collection, chosen uniformly at
    /// random, or `Empty` when the store holds nothing.
    pub fn pick_random(&self) -> (result: Result<Recipe, StoreError>)
        ensures
            result is Ok <==> self@.len() > 0,
            result matches Ok(picked) ==> exists|i: int|
                0 <= i < self@.len() && picked@ == self@[i],
            result matches Err(e) ==> e == StoreError::Empty,
    {
        let n = self.recipes.len();
        if n == 0 {
            Err(StoreError::Empty)
        } else {
            let i = random_index(n);
            let picked = self.recipes[i].clone();
            proof {
                assert(picked@ == self@[i as int]);
            }
            Ok(picked)
        }
    }
}

/// Relies on rand's `Rng::gen_range` on `thread_rng`: a sample from
/// `0..n` is uniformly distributed over `0..n` and lies below `n`;
/// the call panics only on an empty range, which the precondition
/// rules out.
#[verifier::external_body]
fn random_index(n: usize) -> (r: usize)
    requires
        n > 0,
    ensures
        r < n,
{
    rand::Rng::gen_range(&mut rand::thread_rng(), 0..n)
}

/// The collection that a sequence of `create` calls leaves behind:
/// each call appends one recipe to the right.
pub open spec fn store_after_creates(
    initial: Seq<RecipeView>,
    created: Seq<RecipeView>,
) -> Seq<RecipeView>
    decreases created.len(),
{
    if created.len() == 0 {
        initial
    } else {
        store_after_creates(initial.push(created[0]), created.drop_first())
    }
}

/// Any sequence of `create` calls loses nothing and reorders nothing:
/// the store afterwards holds what it held before, followed by every
/// created recipe in call order. In particular a store that starts
/// empty holds exactly the created recipes.
pub proof fn lemma_creates_append(initial: Seq<RecipeView>, created: Seq<RecipeView>)
    ensures
        store_after_creates(initial, created) == initial + created,
    decreases created.len(),
{
    if created.len() == 0 {
        assert(initial + created =~= initial);
    } else {
        lemma_creates_append(initial.push(created[0]), created.drop_first());
        assert(initial.push(created[0]) + created.drop_first() =~= initial + created);
    }
}

/// A store seeded by nothing and fed `created` through `create` holds
/// exactly `created`: afterwards `list` returns the created recipes in
/// call order, each equal by value to what was submitted.
pub proof fn lemma_creates_from_empty(created: Seq<RecipeView>)
    ensures
        store_after_creates(Seq::<RecipeView>::empty(), created) == created,
{
    lemma_creates_append(Seq::<RecipeView>::empty(), created);
    assert(Seq::<RecipeView>::empty() + created =~= created);
}

/// One `create` call is never a lost update: every recipe present
/// before stays at its position, and the created one stands at the
/// end. Store access is serialized, so concurrent `create` calls are
/// some sequence of such appends, and every one of them appears in a
/// later snapshot.
pub proof fn lemma_create_loses_nothing(s: Seq<RecipeView>, r: RecipeView)
    ensures
        s.push(r).len() == s.len() + 1,
        forall|i: int| 0 <= i < s.len() ==> s.push(r)[i] == s[i],
        s.push(r)[s.len() as int] == r,
{
}

/// A recipe handed out by a successful random pick is present in any
/// snapshot that `list` takes of the same store state.
pub proof fn lemma_picked_recipe_listed(
    s: Seq<RecipeView>,
    picked: RecipeView,
    listed: Seq<RecipeView>,
)
    requires
        exists|i: int| 0 <= i < s.len() && picked == s[i],
        listed == s,
    ensures
        exists|i: int| 0 <= i < listed.len() && picked == listed[i],
{
}

} // verus!
