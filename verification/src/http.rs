//! Handler decisions: store results turned into status codes and
//! payloads. An unverified shell routes requests here, sends what
//! comes back, and does nothing else.

use vstd::prelude::*;
use vstd::string::StrSliceExecFns;

use crate::model::Recipe;
use crate::store::{first_match, has_recipe, RecipeStore};

verus! {

pub const STATUS_OK: u16 = 200;

pub const STATUS_CREATED: u16 = 201;

pub const STATUS_BAD_REQUEST: u16 = 400;

pub const STATUS_NOT_FOUND: u16 = 404;

pub const STATUS_SERVER_ERROR: u16 = 500;

/// The list route: always succeeds with the full snapshot.
pub fn list_recipes_response(store: &RecipeStore) -> (r: (u16, Vec<Recipe>))
    ensures
        r.0 == STATUS_OK,
        r.1.deep_view() == store@,
{
    (STATUS_OK, store.list())
}

/// The get-by-id route: the earliest inserted recipe carrying `id`
/// with status 200, or status 404 and no payload when no recipe
/// carries `id`.
pub fn get_recipe_response(store: &RecipeStore, id: u32) -> (r: (u16, Option<Recipe>))
    ensures
        has_recipe(store@, id) ==> r.0 == STATUS_OK && (r.1 matches Some(found) && found@
            == store@[first_match(store@, id)]),
        !has_recipe(store@, id) ==> r.0 == STATUS_NOT_FOUND && r.1 is None,
{
    match store.get_by_id(id) {
        Ok(found) => (STATUS_OK, Some(found)),
        Err(_) => (STATUS_NOT_FOUND, None),
    }
}

/// The create route: appends the submitted recipe, echoes it back,
/// and reports 201 Created.
pub fn create_recipe_response(store: &mut RecipeStore, recipe: Recipe) -> (r: (u16, Recipe))
    ensures
        r.0 == STATUS_CREATED,
        final(store)@ == old(store)@.push(recipe@),
        r.1@ == recipe@,
{
    let stored = store.create(recipe);
    (STATUS_CREATED, stored)
}

/// The HTML front page: one recipe of the store, chosen at random,
/// with status 200; status 500 and no payload when the store is
/// empty. The request fails, the process does not.
pub fn random_recipe_response(store: &RecipeStore) -> (r: (u16, Option<Recipe>))
    ensures
        store@.len() == 0 ==> r.0 == STATUS_SERVER_ERROR && r.1 is None,
        store@.len() > 0 ==> r.0 == STATUS_OK && (r.1 matches Some(picked) && exists|i: int|
            0 <= i < store@.len() && picked@ == store@[i]),
{
    match store.pick_random() {
        Ok(picked) => (STATUS_OK, Some(picked)),
        Err(_) => (STATUS_SERVER_ERROR, None),
    }
}

/// A decimal digit, `'0'` through `'9'`.
pub open spec fn is_ascii_digit(c: char) -> bool {
    48 <= c as int <= 57
}

/// The numeric value of a decimal digit.
pub open spec fn digit_value(c: char) -> int {
    c as int - 48
}

/// Every character of `s` is a decimal digit.
pub open spec fn all_digits(s: Seq<char>) -> bool {
    forall|i: int| 0 <= i < s.len() ==> is_ascii_digit(#[trigger] s[i])
}

/// The number that `s` denotes in decimal, most significant digit
/// first. Leading zeros are allowed and carry no weight.
pub open spec fn decimal_value(s: Seq<char>) -> int
    decreases s.len(),
{
    if s.len() == 0 {
        0
    } else {
        decimal_value(s.drop_last()) * 10 + digit_value(s.last())
    }
}

proof fn lemma_decimal_value_nonneg(s: Seq<char>)
    requires
        all_digits(s),
    ensures
        decimal_value(s) >= 0,
    decreases s.len(),
{
    if s.len() > 0 {
        assert forall|k: int| 0 <= k < s.drop_last().len() implies is_ascii_digit(
            #[trigger] s.drop_last()[k],
        ) by {
            assert(s.drop_last()[k] == s[k]);
        }
        lemma_decimal_value_nonneg(s.drop_last());
        assert(is_ascii_digit(s[s.len() - 1]));
    }
}

proof fn lemma_decimal_value_step(s: Seq<char>, i: int)
    requires
        0 <= i < s.len(),
    ensures
        decimal_value(s.subrange(0, i + 1)) == decimal_value(s.subrange(0, i)) * 10
            + digit_value(s[i]),
{
    assert(s.subrange(0, i + 1).drop_last() =~= s.subrange(0, i));
    assert(s.subrange(0, i + 1).last() == s[i]);
}

/// Reading more digits never shrinks the denoted number: the value of
/// a prefix is at most the value of the whole.
proof fn lemma_decimal_prefix_le(s: Seq<char>, i: int)
    requires
        all_digits(s),
        0 <= i <= s.len(),
    ensures
        decimal_value(s.subrange(0, i)) <= decimal_value(s),
    decreases s.len() - i,
{
    if i == s.len() {
        assert(s.subrange(0, i) =~= s);
    } else {
        lemma_decimal_value_step(s, i);
        assert forall|k: int| 0 <= k < i implies is_ascii_digit(
            #[trigger] s.subrange(0, i)[k],
        ) by {
            assert(s.subrange(0, i)[k] == s[k]);
        }
        lemma_decimal_value_nonneg(s.subrange(0, i));
        assert(is_ascii_digit(s[i]));
        lemma_decimal_prefix_le(s, i + 1);
    }
}

/// Reads a path segment as an unsigned recipe identifier: one or more
/// decimal digits whose value fits the identifier type. Anything else
/// is malformed and yields `None`, so the route answers 400 before
/// the store is touched.
pub fn parse_recipe_id(s: &str) -> (r: Option<u32>)
    ensures
        r matches Some(n) ==> s@.len() > 0 && all_digits(s@) && decimal_value(s@) == n,
        r is None ==> s@.len() == 0 || !all_digits(s@) || decimal_value(s@) > u32::MAX,
{
    let len = s.unicode_len();
    if len == 0 {
        return None;
    }
    let mut acc: u32 = 0;
    let mut i: usize = 0;
    while i < len
        invariant
            0 < len == s@.len(),
            i <= len,
            all_digits(s@.subrange(0, i as int)),
            acc == decimal_value(s@.subrange(0, i as int)),
        decreases len - i,
    {
        let c = s.get_char(i);
        let v = c as u32;
        if v < 48 || v > 57 {
            proof {
                assert(!is_ascii_digit(s@[i as int]));
            }
            return None;
        }
        let d: u32 = v - 48;
        proof {
            assert(is_ascii_digit(s@[i as int]));
            assert forall|k: int| 0 <= k < i as int + 1 implies is_ascii_digit(
                #[trigger] s@.subrange(0, i as int + 1)[k],
            ) by {
                assert(s@.subrange(0, i as int + 1)[k] == s@[k]);
                if k < i as int {
                    assert(s@.subrange(0, i as int)[k] == s@[k]);
                }
            }
            lemma_decimal_value_step(s@, i as int);
        }
        if acc > u32::MAX / 10 || (acc == u32::MAX / 10 && d > u32::MAX % 10) {
            proof {
                if all_digits(s@) {
                    lemma_decimal_prefix_le(s@, i as int + 1);
                }
            }
            return None;
        }
        acc = acc * 10 + d;
        i += 1;
    }
    proof {
        assert(s@.subrange(0, len as int) =~= s@);
    }
    Some(acc)
}

/// A well-formed identifier segment: one or more decimal digits whose
/// value fits the identifier type.
pub open spec fn valid_id(s: Seq<char>) -> bool {
    s.len() > 0 && all_digits(s) && decimal_value(s) <= u32::MAX
}

/// The whole get-by-id route, taken from the raw path segment: a
/// malformed segment answers 400 and never reaches the store; a
/// well-formed one looks its value up as `get_recipe_response` does.
pub fn get_recipe_route(store: &RecipeStore, segment: &str) -> (r: (u16, Option<Recipe>))
    ensures
        !valid_id(segment@) ==> r.0 == STATUS_BAD_REQUEST && r.1 is None,
        valid_id(segment@) && has_recipe(store@, decimal_value(segment@) as u32) ==> r.0
            == STATUS_OK && (r.1 matches Some(found) && found@ == store@[first_match(
            store@,
            decimal_value(segment@) as u32,
        )]),
        valid_id(segment@) && !has_recipe(store@, decimal_value(segment@) as u32) ==> r.0
            == STATUS_NOT_FOUND && r.1 is None,
{
    match parse_recipe_id(segment) {
        Some(id) => get_recipe_response(store, id),
        None => (STATUS_BAD_REQUEST, None),
    }
}

} // verus!
