//! The recipe record: identity and content, no behaviour beyond copying.

use vstd::prelude::*;

verus! {

/// Mathematical image of a [`Recipe`]: the identifier together with the
/// character sequences of the text fields.
#[verifier::ext_equal]
pub ghost struct RecipeView {
    pub id: u32,
    pub title: Seq<char>,
    pub ingredients: Seq<Seq<char>>,
    pub instructions: Seq<char>,
}

/// A recipe record. `id` identifies it, `title` names it, `ingredients`
/// is an ordered list of display strings, `instructions` is free text.
#[derive(Debug, PartialEq, Eq)]
pub struct Recipe {
    pub id: u32,
    pub title: String,
    pub ingredients: Vec<String>,
    pub instructions: String,
}

impl View for Recipe {
    type V = RecipeView;

    open spec fn view(&self) -> RecipeView {
        RecipeView {
            id: self.id,
            title: self.title@,
            ingredients: self.ingredients.deep_view(),
            instructions: self.instructions@,
        }
    }
}

impl DeepView for Recipe {
    type V = RecipeView;

    open spec fn deep_view(&self) -> RecipeView {
        self@
    }
}

impl Clone for Recipe {
    /// A copy of the record equals the original in every field.
    fn clone(&self) -> (res: Self)
        ensures
            res@ == self@,
    {
        let ingredients = self.ingredients.clone();
        proof {
            assert forall|i: int| 0 <= i < self.ingredients@.len() implies ingredients@[i]@
                == self.ingredients@[i]@ by {
            }
            assert(ingredients.deep_view() =~= self.ingredients.deep_view());
        }
        Recipe {
            id: self.id,
            title: self.title.clone(),
            ingredients,
            instructions: self.instructions.clone(),
        }
    }
}

} // verus!
