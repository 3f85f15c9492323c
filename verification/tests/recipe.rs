use rime_cli::recipe::{normalize_recipe_name, RecipeInfo};

#[test]
fn test_recipe_info_full_name_without_version() {
    let recipe = RecipeInfo::from("lotem/rime-zhengma");
    assert_eq!(recipe.author, "lotem");
    assert_eq!(recipe.name, "rime-zhengma");
    assert_eq!(recipe.version, None);
}

#[test]
fn test_recipe_info_full_name_with_version() {
    let recipe = RecipeInfo::from("lotem/rime-octagram-data@hant");
    assert_eq!(recipe.author, "lotem");
    assert_eq!(recipe.name, "rime-octagram-data");
    assert_eq!(recipe.version, Some("hant".to_owned()));
}

#[test]
fn test_recipe_info_name_only() {
    let recipe = RecipeInfo::from("luna-pinyin");
    assert_eq!(recipe.author, "rime");
    assert_eq!(recipe.name, "rime-luna-pinyin");
    assert_eq!(recipe.version, None);
}

#[test]
fn test_recipe_info_normalized_name() {
    let recipe = RecipeInfo::from("rime-luna-pinyin");
    assert_eq!(recipe.author, "rime");
    assert_eq!(recipe.name, "rime-luna-pinyin");
    assert_eq!(recipe.version, None);
}

#[test]
fn test_recipe_info_name_and_version_only() {
    let recipe = RecipeInfo::from("bopomofo@master");
    assert_eq!(recipe.author, "rime");
    assert_eq!(recipe.name, "rime-bopomofo");
    assert_eq!(recipe.version, Some("master".to_owned()));
}

#[test]
fn recipe_version_is_after_first_at() {
    let recipe = RecipeInfo::from("a/b@c@d");
    assert_eq!(recipe.author, "a");
    assert_eq!(recipe.name, "b");
    assert_eq!(recipe.version, Some("c@d".to_owned()));
}

#[test]
fn recipe_name_may_hold_slash() {
    let recipe = RecipeInfo::from("a/b/c");
    assert_eq!(recipe.author, "a");
    assert_eq!(recipe.name, "b/c");
    assert_eq!(recipe.version, None);
}

#[test]
fn recipe_slash_after_at_belongs_to_version() {
    let recipe = RecipeInfo::from("pinyin@dev/x");
    assert_eq!(recipe.author, "rime");
    assert_eq!(recipe.name, "rime-pinyin");
    assert_eq!(recipe.version, Some("dev/x".to_owned()));
}

#[test]
fn recipe_empty_text() {
    let recipe = RecipeInfo::from("");
    assert_eq!(recipe.author, "rime");
    assert_eq!(recipe.name, "rime-");
    assert_eq!(recipe.version, None);
}

#[test]
fn recipe_empty_parts() {
    let recipe = RecipeInfo::from("/@");
    assert_eq!(recipe.author, "");
    assert_eq!(recipe.name, "");
    assert_eq!(recipe.version, Some(String::new()));
}

#[test]
fn recipe_non_ascii_text() {
    let recipe = RecipeInfo::from("佛振/rime-倉頡@三代");
    assert_eq!(recipe.author, "佛振");
    assert_eq!(recipe.name, "rime-倉頡");
    assert_eq!(recipe.version, Some("三代".to_owned()));
}

#[test]
fn recipe_to_string_without_version() {
    let recipe = RecipeInfo::from("lotem/rime-zhengma");
    assert_eq!(recipe.to_string(), "lotem/rime-zhengma");
}

#[test]
fn recipe_to_string_with_version() {
    let recipe = RecipeInfo::from("bopomofo@master");
    assert_eq!(recipe.to_string(), "rime/rime-bopomofo@master");
}

#[test]
fn recipe_text_reads_back() {
    let recipe = RecipeInfo {
        author: "lotem".to_owned(),
        name: "rime/octagram".to_owned(),
        version: Some("a@b".to_owned()),
    };
    let again = RecipeInfo::from(recipe.to_string().as_str());
    assert_eq!(again, recipe);
}

#[test]
fn recipe_reading_is_stable() {
    let first = RecipeInfo::from("luna-pinyin@x");
    let second = RecipeInfo::from(first.to_string().as_str());
    assert_eq!(first, second);
}

#[test]
fn recipe_duplicate_keeps_fields() {
    let recipe = RecipeInfo::from("lotem/rime-zhengma@v1");
    assert_eq!(recipe.duplicate(), recipe);
}

#[test]
fn normalize_adds_prefix() {
    assert_eq!(normalize_recipe_name("cangjie"), "rime-cangjie");
    assert_eq!(normalize_recipe_name("rime"), "rime-rime");
    assert_eq!(normalize_recipe_name("rim"), "rime-rim");
}

#[test]
fn normalize_keeps_prefixed_name() {
    assert_eq!(normalize_recipe_name("rime-cangjie"), "rime-cangjie");
    assert_eq!(normalize_recipe_name("rime-"), "rime-");
}

#[test]
fn normalize_is_idempotent() {
    let once = normalize_recipe_name("wubi");
    assert_eq!(normalize_recipe_name(&once), once);
}
