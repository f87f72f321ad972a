use recipe_service::http::{
    create_recipe_response, get_recipe_response, get_recipe_route, list_recipes_response,
    parse_recipe_id, random_recipe_response, STATUS_BAD_REQUEST, STATUS_CREATED, STATUS_NOT_FOUND,
    STATUS_OK, STATUS_SERVER_ERROR,
};
use recipe_service::model::Recipe;
use recipe_service::store::RecipeStore;

fn recipe(id: u32, title: &str, ingredients: &[&str], instructions: &str) -> Recipe {
    Recipe {
        id,
        title: title.to_string(),
        ingredients: ingredients.iter().map(|s| s.to_string()).collect(),
        instructions: instructions.to_string(),
    }
}

#[test]
fn end_to_end_api_scenario() {
    let mut store = RecipeStore::new();
    let seeded = recipe(
        1,
        "Tacos al Pastor",
        &["Pork", "Pineapple"],
        "Marinate and cook.",
    );
    store.create(seeded.clone());

    let (status, listed) = list_recipes_response(&store);
    assert_eq!(status, 200);
    assert_eq!(listed, vec![seeded.clone()]);

    let (status, found) = get_recipe_response(&store, 1);
    assert_eq!(status, 200);
    assert_eq!(found, Some(seeded.clone()));

    let (status, found) = get_recipe_response(&store, 2);
    assert_eq!(status, 404);
    assert_eq!(found, None);

    let submitted = recipe(2, "Salsa Verde", &["Tomatillo"], "Blend.");
    let (status, echoed) = create_recipe_response(&mut store, submitted.clone());
    assert_eq!(status, 201);
    assert_eq!(echoed, submitted);

    let (status, listed) = list_recipes_response(&store);
    assert_eq!(status, 200);
    assert_eq!(listed, vec![seeded, submitted]);
}

#[test]
fn list_response_is_ok_on_an_empty_store() {
    let store = RecipeStore::new();
    let (status, listed) = list_recipes_response(&store);
    assert_eq!(status, STATUS_OK);
    assert_eq!(listed, vec![]);
}

#[test]
fn create_response_reports_created() {
    let mut store = RecipeStore::new();
    let (status, _) = create_recipe_response(&mut store, recipe(4, "Flan", &["Egg"], "Bake."));
    assert_eq!(status, STATUS_CREATED);
    assert_eq!(store.list().len(), 1);
}

#[test]
fn get_response_reports_not_found_without_a_body() {
    let store = RecipeStore::new();
    assert_eq!(get_recipe_response(&store, 8), (STATUS_NOT_FOUND, None));
}

#[test]
fn random_response_fails_the_request_on_an_empty_store() {
    let store = RecipeStore::new();
    assert_eq!(random_recipe_response(&store), (STATUS_SERVER_ERROR, None));
}

#[test]
fn random_response_serves_a_stored_recipe() {
    let mut store = RecipeStore::new();
    let r = recipe(1, "Tacos", &["Tortilla"], "Fill.");
    store.create(r.clone());
    assert_eq!(random_recipe_response(&store), (STATUS_OK, Some(r)));
}

#[test]
fn get_route_answers_400_before_reaching_the_store() {
    let mut store = RecipeStore::new();
    let r = recipe(1, "Tacos", &[], "");
    store.create(r.clone());
    assert_eq!(get_recipe_route(&store, "one"), (STATUS_BAD_REQUEST, None));
    assert_eq!(get_recipe_route(&store, ""), (STATUS_BAD_REQUEST, None));
    assert_eq!(get_recipe_route(&store, "1"), (STATUS_OK, Some(r)));
    assert_eq!(get_recipe_route(&store, "3"), (STATUS_NOT_FOUND, None));
}

#[test]
fn parse_recipe_id_reads_decimal_digits() {
    assert_eq!(parse_recipe_id("0"), Some(0));
    assert_eq!(parse_recipe_id("1"), Some(1));
    assert_eq!(parse_recipe_id("42"), Some(42));
    assert_eq!(parse_recipe_id("0042"), Some(42));
    assert_eq!(parse_recipe_id("4294967295"), Some(u32::MAX));
}

#[test]
fn parse_recipe_id_rejects_malformed_segments() {
    assert_eq!(parse_recipe_id(""), None);
    assert_eq!(parse_recipe_id("abc"), None);
    assert_eq!(parse_recipe_id("12a"), None);
    assert_eq!(parse_recipe_id("-1"), None);
    assert_eq!(parse_recipe_id("+7"), None);
    assert_eq!(parse_recipe_id("1 2"), None);
    assert_eq!(parse_recipe_id("\u{0663}"), None);
}

#[test]
fn parse_recipe_id_rejects_values_out_of_range() {
    assert_eq!(parse_recipe_id("4294967296"), None);
    assert_eq!(parse_recipe_id("99999999999999999999"), None);
}
