use rime_cli::package::RecipePackage;
use rime_cli::recipe::RecipeInfo;
use std::path::PathBuf;

fn package<'a>(text: &str, host: Option<&'a str>) -> RecipePackage<'a> {
    RecipePackage { recipe: RecipeInfo::from(text), host }
}

#[test]
fn repository_url_on_default_host() {
    let p = package("lotem/rime-zhengma", None);
    assert_eq!(p.repository_url(), "https://github.com/lotem/rime-zhengma.git");
}

#[test]
fn repository_url_on_given_host() {
    let p = package("bopomofo@master", Some("gitee.com"));
    assert_eq!(p.repository_url(), "https://gitee.com/rime/rime-bopomofo.git");
}

#[test]
fn repository_branch_is_version() {
    assert_eq!(package("bopomofo@master", None).repository_branch(), Some("master"));
    assert_eq!(package("bopomofo", None).repository_branch(), None);
}

#[test]
fn local_path_is_pkg_author_name() {
    let p = package("lotem/rime-octagram-data@hant", Some("gitee.com"));
    let expected: PathBuf = ["pkg", "lotem", "rime-octagram-data"].iter().collect();
    assert_eq!(p.local_path(), expected);
    assert_eq!(p.local_path(), PathBuf::from("pkg").join("lotem").join("rime-octagram-data"));
}

#[test]
fn package_to_string_with_branch() {
    let p = package("lotem/rime-octagram-data@hant", None);
    assert_eq!(p.to_string(), "https://github.com/lotem/rime-octagram-data.git@hant");
}

#[test]
fn package_to_string_without_branch() {
    let p = package("luna-pinyin", Some("example.org"));
    assert_eq!(p.to_string(), "https://example.org/rime/rime-luna-pinyin.git");
}

#[test]
fn group_by_repository_collects_versions_of_one_repository() {
    let recipes: Vec<RecipeInfo> = ["lotem/rime-octagram-data@hans", "luna-pinyin", "lotem/rime-octagram-data@hant", "rime-luna-pinyin@dev"]
        .iter()
        .map(|s| RecipeInfo::from(*s))
        .collect();
    let groups = RecipePackage::group_by_repository(&recipes, Some("gitee.com"));
    assert_eq!(groups.len(), 2);
    let octagram = groups
        .iter()
        .find(|g| g.0.name == "rime-octagram-data")
        .expect("octagram group");
    assert_eq!(octagram.0, RecipeInfo { author: "lotem".into(), name: "rime-octagram-data".into(), version: None });
    let versions: Vec<Option<&str>> = octagram.1.iter().map(|p| p.repository_branch()).collect();
    assert_eq!(versions, vec![Some("hans"), Some("hant")]);
    assert!(octagram.1.iter().all(|p| p.host == Some("gitee.com")));
    let luna = groups.iter().find(|g| g.0.name == "rime-luna-pinyin").expect("luna group");
    assert_eq!(luna.0.author, "rime");
    assert_eq!(luna.0.version, None);
    assert_eq!(luna.1.len(), 2);
    assert_eq!(luna.1[0].recipe.version, None);
    assert_eq!(luna.1[1].recipe.version, Some("dev".to_owned()));
    let urls: Vec<String> = luna.1.iter().map(|p| p.repository_url()).collect();
    assert_eq!(urls[0], urls[1]);
}

#[test]
fn group_by_repository_of_nothing_is_empty() {
    let groups = RecipePackage::group_by_repository(&[], None);
    assert!(groups.is_empty());
}

#[test]
fn group_by_repository_keeps_repeated_recipes() {
    let recipes = vec![RecipeInfo::from("a/b"), RecipeInfo::from("a/b")];
    let groups = RecipePackage::group_by_repository(&recipes, None);
    assert_eq!(groups.len(), 1);
    assert_eq!(groups[0].1.len(), 2);
}

#[test]
fn group_by_repository_splits_authors() {
    let recipes = vec![RecipeInfo::from("a/x"), RecipeInfo::from("b/x")];
    let groups = RecipePackage::group_by_repository(&recipes, None);
    assert_eq!(groups.len(), 2);
    assert!(groups.iter().all(|g| g.1.len() == 1));
}
