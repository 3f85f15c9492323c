use std::path::PathBuf;
use vstd::prelude::*;
use crate::recipe::{RecipeInfo, RecipeInfoView};

verus! {

#[verifier::external_type_specification]
#[verifier::external_body]
pub struct ExPathBuf(PathBuf);

/// The path that `PathBuf`'s `FromIterator` builds from the given components,
/// pushed one after the other.
pub uninterp spec fn path_from_components(components: Seq<Seq<char>>) -> PathBuf;

/// Collects string components into a `PathBuf` with std's `FromIterator<&str>`.
/// Claimed: the result is `path_from_components` of the components' chars, that
/// is, it depends on the components alone.
#[verifier::external_body]
fn collect_path(components: &[&str]) -> (p: PathBuf)
    ensures
        p == path_from_components(components@.map_values(|c: &str| c@)),
{
    components.iter().collect()
}

/// A recipe to be fetched from a git host; `None` stands for the default host.
#[derive(Clone)]
pub struct RecipePackage<'a> {
    pub recipe: RecipeInfo,
    pub host: Option<&'a str>,
}

/// A package as the contracts see it.
pub struct RecipePackageView {
    pub recipe: RecipeInfoView,
    pub host: Option<Seq<char>>,
}

/// The chars of an optional string slice.
pub open spec fn opt_str_view(o: Option<&str>) -> Option<Seq<char>> {
    match o {
        Some(s) => Some(s@),
        None => None,
    }
}

impl<'a> View for RecipePackage<'a> {
    type V = RecipePackageView;

    open spec fn view(&self) -> RecipePackageView {
        RecipePackageView { recipe: self.recipe@, host: opt_str_view(self.host) }
    }
}

/// The host of a package: the one it names, else `github.com`.
pub open spec fn host_or_default(host: Option<Seq<char>>) -> Seq<char> {
    match host {
        Some(h) => h,
        None => "github.com"@,
    }
}

/// `https://{host}/{author}/{name}.git`.
pub open spec fn repository_url_of(p: RecipePackageView) -> Seq<char> {
    "https://"@ + host_or_default(p.host) + "/"@ + p.recipe.author + "/"@ + p.recipe.name
        + ".git"@
}

/// The text of a package: its repository URL, then `@branch` where it names a version.
pub open spec fn display_package(p: RecipePackageView) -> Seq<char> {
    repository_url_of(p) + match p.recipe.version {
        Some(v) => "@"@ + v,
        None => Seq::<char>::empty(),
    }
}

/// The components of the local path of a package: `pkg`, the author, the name.
pub open spec fn local_path_components(p: RecipePackageView) -> Seq<Seq<char>> {
    seq!["pkg"@, p.recipe.author, p.recipe.name]
}

/// The repository that a recipe lives in: the recipe with its version dropped.
pub open spec fn repository_key(r: RecipeInfoView) -> RecipeInfoView {
    RecipeInfoView { author: r.author, name: r.name, version: None }
}

/// The package that fetches a recipe from a host.
pub open spec fn package_of(r: RecipeInfoView, host: Option<Seq<char>>) -> RecipePackageView {
    RecipePackageView { recipe: r, host }
}

/// The packages, in input order, of the recipes that live in repository `key`.
pub open spec fn packages_in(
    recipes: Seq<RecipeInfoView>,
    key: RecipeInfoView,
    host: Option<Seq<char>>,
) -> Seq<RecipePackageView> {
    recipes.filter(|r: RecipeInfoView| repository_key(r) == key).map_values(
        |r: RecipeInfoView| package_of(r, host),
    )
}

/// `groups` is the grouping of `recipes` by repository: one group for each
/// repository that a recipe lives in, and none else, each holding the packages of
/// its recipes in input order.
pub open spec fn is_grouping(
    recipes: Seq<RecipeInfoView>,
    host: Option<Seq<char>>,
    groups: Seq<(RecipeInfoView, Seq<RecipePackageView>)>,
) -> bool {
    &&& forall|i: int, j: int| 0 <= i < j < groups.len() ==> groups[i].0 != groups[j].0
    &&& forall|k: int|
        0 <= k < recipes.len() ==> exists|i: int|
            0 <= i < groups.len() && groups[i].0 == repository_key(#[trigger] recipes[k])
    &&& forall|i: int|
        0 <= i < groups.len() ==> exists|k: int|
            0 <= k < recipes.len() && #[trigger] groups[i].0 == repository_key(recipes[k])
    &&& forall|i: int|
        0 <= i < groups.len() ==> #[trigger] groups[i].1 == packages_in(recipes, groups[i].0, host)
}

/// The recipes of a slice, as the contracts see them.
pub open spec fn recipes_view(recipes: Seq<RecipeInfo>) -> Seq<RecipeInfoView> {
    recipes.map_values(|r: RecipeInfo| r@)
}

/// The packages of a vector, as the contracts see them.
pub open spec fn packages_view<'a>(packages: Seq<RecipePackage<'a>>) -> Seq<RecipePackageView> {
    packages.map_values(|p: RecipePackage<'a>| p@)
}

/// Groups of packages, as the contracts see them.
pub open spec fn groups_view<'a>(groups: Seq<(RecipeInfo, Vec<RecipePackage<'a>>)>) -> Seq<
    (RecipeInfoView, Seq<RecipePackageView>),
> {
    groups.map_values(
        |g: (RecipeInfo, Vec<RecipePackage<'a>>)| (g.0@, packages_view(g.1@)),
    )
}

/// `keys` are the repositories that the recipes live in, each once.
#[verifier::opaque]
pub open spec fn are_repository_keys(recipes: Seq<RecipeInfoView>, keys: Seq<RecipeInfoView>) -> bool {
    &&& forall|a: int, b: int| 0 <= a < b < keys.len() ==> keys[a] != keys[b]
    &&& forall|k: int|
        0 <= k < recipes.len() ==> exists|j: int|
            0 <= j < keys.len() && keys[j] == repository_key(#[trigger] recipes[k])
    &&& forall|j: int|
        0 <= j < keys.len() ==> exists|k: int|
            0 <= k < recipes.len() && #[trigger] keys[j] == repository_key(recipes[k])
}

/// The position of repository `key`'s entry among `keys`, where it has one.
fn find_repository(keys: &Vec<RecipeInfo>, recipe: &RecipeInfo) -> (r: Option<usize>)
    requires
        forall|i: int| 0 <= i < keys.len() ==> (#[trigger] keys[i])@.version is None,
    ensures
        match r {
            Some(i) => i < keys.len() && keys[i as int]@ == repository_key(recipe@),
            None => forall|i: int| 0 <= i < keys.len() ==> (#[trigger] keys[i])@ != repository_key(recipe@),
        },
{
    let mut i: usize = 0;
    while i < keys.len()
        invariant
            i <= keys.len(),
            forall|j: int| 0 <= j < keys.len() ==> (#[trigger] keys[j])@.version is None,
            forall|j: int| 0 <= j < i ==> (#[trigger] keys[j])@ != repository_key(recipe@),
        decreases keys.len() - i,
    {
        if keys[i].author == recipe.author && keys[i].name == recipe.name {
            return Some(i);
        }
        i = i + 1;
    }
    None
}

/// Appending a recipe whose repository is already listed keeps the list.
proof fn lemma_keys_extend_known(
    recipes: Seq<RecipeInfoView>,
    keys: Seq<RecipeInfoView>,
    r: RecipeInfoView,
    i: int,
)
    requires
        are_repository_keys(recipes, keys),
        0 <= i < keys.len(),
        keys[i] == repository_key(r),
    ensures
        are_repository_keys(recipes.push(r), keys),
{
    reveal(are_repository_keys);
    let ext = recipes.push(r);
    assert forall|k: int| 0 <= k < ext.len() implies exists|j: int|
        0 <= j < keys.len() && keys[j] == repository_key(#[trigger] ext[k]) by {
        if k < recipes.len() {
            assert(ext[k] == recipes[k]);
        }
    }
    assert forall|j: int| 0 <= j < keys.len() implies exists|k: int|
        0 <= k < ext.len() && #[trigger] keys[j] == repository_key(ext[k]) by {
        let k = choose|k: int| 0 <= k < recipes.len() && keys[j] == repository_key(recipes[k]);
        assert(ext[k] == recipes[k]);
    }
}

/// Appending a recipe whose repository is not listed yet adds that repository.
proof fn lemma_keys_extend_new(recipes: Seq<RecipeInfoView>, keys: Seq<RecipeInfoView>, r: RecipeInfoView)
    requires
        are_repository_keys(recipes, keys),
        forall|j: int| 0 <= j < keys.len() ==> keys[j] != repository_key(r),
    ensures
        are_repository_keys(recipes.push(r), keys.push(repository_key(r))),
{
    reveal(are_repository_keys);
    let ext = recipes.push(r);
    let kext = keys.push(repository_key(r));
    assert forall|a: int, b: int| 0 <= a < b < kext.len() implies kext[a] != kext[b] by {
        assert(kext[a] == keys[a]);
    }
    assert forall|k: int| 0 <= k < ext.len() implies exists|j: int|
        0 <= j < kext.len() && kext[j] == repository_key(#[trigger] ext[k]) by {
        if k < recipes.len() {
            assert(ext[k] == recipes[k]);
            let j = choose|j: int| 0 <= j < keys.len() && keys[j] == repository_key(recipes[k]);
            assert(kext[j] == keys[j]);
        } else {
            assert(kext[keys.len() as int] == repository_key(ext[k]));
        }
    }
    assert forall|j: int| 0 <= j < kext.len() implies exists|k: int|
        0 <= k < ext.len() && #[trigger] kext[j] == repository_key(ext[k]) by {
        if j < keys.len() {
            assert(kext[j] == keys[j]);
            let k = choose|k: int| 0 <= k < recipes.len() && keys[j] == repository_key(recipes[k]);
            assert(ext[k] == recipes[k]);
        } else {
            assert(ext[recipes.len() as int] == r);
        }
    }
}

/// The repositories that the recipes live in, each once, in order of first appearance.
fn repository_keys(recipes: &[RecipeInfo]) -> (keys: Vec<RecipeInfo>)
    ensures
        forall|i: int| 0 <= i < keys.len() ==> (#[trigger] keys[i])@.version is None,
        are_repository_keys(recipes_view(recipes@), recipes_view(keys@)),
{
    let ghost rv = recipes_view(recipes@);
    let mut keys: Vec<RecipeInfo> = Vec::new();
    let mut k: usize = 0;
    proof {
        reveal(are_repository_keys);
        assert(rv.take(0) =~= Seq::<RecipeInfoView>::empty());
        assert(recipes_view(keys@) =~= Seq::<RecipeInfoView>::empty());
    }
    while k < recipes.len()
        invariant
            k <= recipes.len(),
            rv == recipes_view(recipes@),
            forall|i: int| 0 <= i < keys.len() ==> (#[trigger] keys[i])@.version is None,
            are_repository_keys(rv.take(k as int), recipes_view(keys@)),
        decreases recipes.len() - k,
    {
        let recipe = &recipes[k];
        let ghost kv = recipes_view(keys@);
        proof {
            assert(rv.take(k + 1) =~= rv.take(k as int).push(recipe@));
        }
        match find_repository(&keys, recipe) {
            Some(i) => {
                proof {
                    lemma_keys_extend_known(rv.take(k as int), kv, recipe@, i as int);
                }
            },
            None => {
                let key = RecipeInfo {
                    author: recipe.author.clone(),
                    name: recipe.name.clone(),
                    version: None,
                };
                keys.push(key);
                proof {
                    assert forall|j: int| 0 <= j < kv.len() implies kv[j] != repository_key(recipe@) by {
                        assert(kv[j] == keys[j]@);
                    }
                    lemma_keys_extend_new(rv.take(k as int), kv, recipe@);
                    assert(recipes_view(keys@) =~= kv.push(repository_key(recipe@)));
                }
            },
        }
        k = k + 1;
    }
    assert(rv.take(recipes.len() as int) =~= rv);
    keys
}

/// The packages, in input order, of the recipes that live in repository `key`.
fn packages_for<'a>(recipes: &[RecipeInfo], key: &RecipeInfo, host: Option<&'a str>) -> (ps: Vec<
    RecipePackage<'a>,
>)
    requires
        key@.version is None,
    ensures
        packages_view(ps@) == packages_in(recipes_view(recipes@), key@, opt_str_view(host)),
{
    let ghost rv = recipes_view(recipes@);
    let ghost pred = |r: RecipeInfoView| repository_key(r) == key@;
    let ghost to_pkg = |r: RecipeInfoView| package_of(r, opt_str_view(host));
    let mut ps: Vec<RecipePackage<'a>> = Vec::new();
    let mut k: usize = 0;
    proof {
        reveal(Seq::filter);
        assert(rv.take(0).filter(pred) =~= Seq::<RecipeInfoView>::empty());
        assert(packages_view(ps@) =~= rv.take(0).filter(pred).map_values(to_pkg));
    }
    while k < recipes.len()
        invariant
            k <= recipes.len(),
            rv == recipes_view(recipes@),
            key@.version is None,
            pred == (|r: RecipeInfoView| repository_key(r) == key@),
            to_pkg == (|r: RecipeInfoView| package_of(r, opt_str_view(host))),
            packages_view(ps@) == rv.take(k as int).filter(pred).map_values(to_pkg),
        decreases recipes.len() - k,
    {
        let ghost before = packages_view(ps@);
        proof {
            reveal(Seq::filter);
            assert(rv.take(k + 1).drop_last() =~= rv.take(k as int));
            assert(rv.take(k + 1).last() == recipes@[k as int]@);
        }
        if recipes[k].author == key.author && recipes[k].name == key.name {
            ps.push(RecipePackage { recipe: recipes[k].duplicate(), host });
            proof {
                assert(pred(rv[k as int]));
                assert(packages_view(ps@) =~= before.push(to_pkg(rv[k as int])));
                assert(rv.take(k + 1).filter(pred) == rv.take(k as int).filter(pred).push(rv[k as int]));
                assert(packages_view(ps@) =~= rv.take(k + 1).filter(pred).map_values(to_pkg));
            }
        } else {
            proof {
                assert(!pred(rv[k as int]));
                assert(rv.take(k + 1).filter(pred) == rv.take(k as int).filter(pred));
            }
        }
        k = k + 1;
    }
    assert(rv.take(recipes.len() as int) =~= rv);
    ps
}

/// Groups built one per distinct repository, each from the packages of that
/// repository, form the grouping of the recipes.
proof fn lemma_grouping_from_keys(
    recipes: Seq<RecipeInfoView>,
    host: Option<Seq<char>>,
    keys: Seq<RecipeInfoView>,
    groups: Seq<(RecipeInfoView, Seq<RecipePackageView>)>,
)
    requires
        groups.len() == keys.len(),
        forall|j: int|
            0 <= j < groups.len() ==> #[trigger] groups[j].0 == keys[j] && groups[j].1
                == packages_in(recipes, keys[j], host),
        are_repository_keys(recipes, keys),
    ensures
        is_grouping(recipes, host, groups),
{
    reveal(are_repository_keys);
    assert forall|a: int, b: int| 0 <= a < b < groups.len() implies groups[a].0 != groups[b].0 by {
        assert(groups[a].0 == keys[a]);
        assert(groups[b].0 == keys[b]);
    }
    assert forall|k: int| 0 <= k < recipes.len() implies exists|i: int|
        0 <= i < groups.len() && groups[i].0 == repository_key(#[trigger] recipes[k]) by {
        let j = choose|j: int| 0 <= j < keys.len() && keys[j] == repository_key(recipes[k]);
        assert(groups[j].0 == keys[j]);
    }
    assert forall|i: int| 0 <= i < groups.len() implies exists|k: int|
        0 <= k < recipes.len() && #[trigger] groups[i].0 == repository_key(recipes[k]) by {
        assert(groups[i].0 == keys[i]);
        let k = choose|k: int| 0 <= k < recipes.len() && keys[i] == repository_key(recipes[k]);
    }
    assert forall|i: int| 0 <= i < groups.len() implies #[trigger] groups[i].1 == packages_in(
        recipes,
        groups[i].0,
        host,
    ) by {
        assert(groups[i].0 == keys[i]);
    }
}

/// Each recipe lands in exactly one group: the group of its repository, which
/// holds its package.
pub proof fn law_each_recipe_in_one_group(
    recipes: Seq<RecipeInfoView>,
    host: Option<Seq<char>>,
    groups: Seq<(RecipeInfoView, Seq<RecipePackageView>)>,
    k: int,
)
    requires
        is_grouping(recipes, host, groups),
        0 <= k < recipes.len(),
    ensures
        exists|i: int|
            0 <= i < groups.len() && groups[i].0 == repository_key(recipes[k])
                && groups[i].1.contains(package_of(recipes[k], host)),
        forall|i: int, j: int|
            0 <= i < groups.len() && 0 <= j < groups.len() && groups[i].0 == repository_key(
                recipes[k],
            ) && groups[j].0 == repository_key(recipes[k]) ==> i == j,
{
    let i = choose|i: int| 0 <= i < groups.len() && groups[i].0 == repository_key(recipes[k]);
    let key = groups[i].0;
    let pred = |r: RecipeInfoView| repository_key(r) == key;
    let to_pkg = |r: RecipeInfoView| package_of(r, host);
    assert(groups[i].1 == packages_in(recipes, key, host));
    assert(pred(recipes[k]));
    recipes.lemma_filter_contains(pred, k);
    let filtered = recipes.filter(pred);
    let idx = choose|idx: int| 0 <= idx < filtered.len() && filtered[idx] == recipes[k];
    assert(groups[i].1 == filtered.map_values(to_pkg));
    assert(groups[i].1[idx] == package_of(recipes[k], host));
    assert forall|a: int, b: int|
        0 <= a < groups.len() && 0 <= b < groups.len() && groups[a].0 == repository_key(recipes[k])
            && groups[b].0 == repository_key(recipes[k]) implies a == b by {
        if a < b {
            assert(groups[a].0 != groups[b].0);
        } else if b < a {
            assert(groups[b].0 != groups[a].0);
        }
    }
}

/// The packages of one group share the repository: the same repository URL, the
/// same local path, and the group's repository as the repository of their recipe.
pub proof fn law_group_shares_repository(
    recipes: Seq<RecipeInfoView>,
    host: Option<Seq<char>>,
    groups: Seq<(RecipeInfoView, Seq<RecipePackageView>)>,
    i: int,
    a: int,
    b: int,
)
    requires
        is_grouping(recipes, host, groups),
        0 <= i < groups.len(),
        0 <= a < groups[i].1.len(),
        0 <= b < groups[i].1.len(),
    ensures
        repository_key(groups[i].1[a].recipe) == groups[i].0,
        groups[i].1[a].host == host,
        repository_url_of(groups[i].1[a]) == repository_url_of(groups[i].1[b]),
        local_path_components(groups[i].1[a]) == local_path_components(groups[i].1[b]),
{
    let key = groups[i].0;
    let pred = |r: RecipeInfoView| repository_key(r) == key;
    let to_pkg = |r: RecipeInfoView| package_of(r, host);
    assert(groups[i].1 == packages_in(recipes, key, host));
    let filtered = recipes.filter(pred);
    assert(groups[i].1 == filtered.map_values(to_pkg));
    recipes.lemma_filter_pred(pred, a);
    recipes.lemma_filter_pred(pred, b);
    assert(groups[i].1[a] == package_of(filtered[a], host));
    assert(groups[i].1[b] == package_of(filtered[b], host));
}

/// The number of packages over all groups.
pub open spec fn total_packages(groups: Seq<(RecipeInfoView, Seq<RecipePackageView>)>) -> int
    decreases groups.len(),
{
    if groups.len() == 0 {
        0
    } else {
        total_packages(groups.drop_last()) + groups.last().1.len()
    }
}

/// The number of recipes that live in one of the repositories `keys`, counted once
/// per listed repository.
pub open spec fn recipes_in_repositories(recipes: Seq<RecipeInfoView>, keys: Seq<RecipeInfoView>) -> int
    decreases keys.len(),
{
    if keys.len() == 0 {
        0
    } else {
        recipes_in_repositories(recipes, keys.drop_last()) + recipes.filter(
            |r: RecipeInfoView| repository_key(r) == keys.last(),
        ).len()
    }
}

/// How often `key` is listed in `keys`.
pub open spec fn occurrences(keys: Seq<RecipeInfoView>, key: RecipeInfoView) -> int
    decreases keys.len(),
{
    if keys.len() == 0 {
        0
    } else {
        occurrences(keys.drop_last(), key) + if keys.last() == key {
            1int
        } else {
            0int
        }
    }
}

proof fn lemma_filter_push_len(recipes: Seq<RecipeInfoView>, x: RecipeInfoView, key: RecipeInfoView)
    ensures
        recipes.push(x).filter(|r: RecipeInfoView| repository_key(r) == key).len() == recipes.filter(
            |r: RecipeInfoView| repository_key(r) == key,
        ).len() + if repository_key(x) == key {
            1int
        } else {
            0int
        },
{
    reveal(Seq::filter);
    assert(recipes.push(x).drop_last() =~= recipes);
}

proof fn lemma_in_repositories_push(recipes: Seq<RecipeInfoView>, keys: Seq<RecipeInfoView>, x: RecipeInfoView)
    ensures
        recipes_in_repositories(recipes.push(x), keys) == recipes_in_repositories(recipes, keys)
            + occurrences(keys, repository_key(x)),
    decreases keys.len(),
{
    if keys.len() > 0 {
        lemma_in_repositories_push(recipes, keys.drop_last(), x);
        lemma_filter_push_len(recipes, x, keys.last());
    }
}

proof fn lemma_in_repositories_empty(keys: Seq<RecipeInfoView>)
    ensures
        recipes_in_repositories(Seq::empty(), keys) == 0,
    decreases keys.len(),
{
    if keys.len() > 0 {
        reveal(Seq::filter);
        lemma_in_repositories_empty(keys.drop_last());
    }
}

proof fn lemma_occurrences_of_distinct(keys: Seq<RecipeInfoView>, key: RecipeInfoView)
    requires
        forall|a: int, b: int| 0 <= a < b < keys.len() ==> keys[a] != keys[b],
    ensures
        occurrences(keys, key) == if keys.contains(key) {
            1int
        } else {
            0int
        },
    decreases keys.len(),
{
    if keys.len() > 0 {
        let init = keys.drop_last();
        assert forall|a: int, b: int| 0 <= a < b < init.len() implies init[a] != init[b] by {
            assert(init[a] == keys[a] && init[b] == keys[b]);
        }
        lemma_occurrences_of_distinct(init, key);
        if keys.last() == key {
            if init.contains(key) {
                let a = choose|a: int| 0 <= a < init.len() && init[a] == key;
                assert(keys[a] == keys[keys.len() - 1]);
            }
            assert(keys.contains(key));
        } else {
            if keys.contains(key) {
                let a = choose|a: int| 0 <= a < keys.len() && keys[a] == key;
                assert(init[a] == key);
            }
            if init.contains(key) {
                let a = choose|a: int| 0 <= a < init.len() && init[a] == key;
                assert(keys[a] == key);
            }
        }
    }
}

proof fn lemma_in_repositories_counts_all(recipes: Seq<RecipeInfoView>, keys: Seq<RecipeInfoView>)
    requires
        forall|a: int, b: int| 0 <= a < b < keys.len() ==> keys[a] != keys[b],
        forall|k: int| 0 <= k < recipes.len() ==> keys.contains(repository_key(#[trigger] recipes[k])),
    ensures
        recipes_in_repositories(recipes, keys) == recipes.len(),
    decreases recipes.len(),
{
    if recipes.len() == 0 {
        assert(recipes =~= Seq::<RecipeInfoView>::empty());
        lemma_in_repositories_empty(keys);
    } else {
        let init = recipes.drop_last();
        let x = recipes.last();
        assert forall|k: int| 0 <= k < init.len() implies keys.contains(
            repository_key(#[trigger] init[k]),
        ) by {
            assert(init[k] == recipes[k]);
        }
        lemma_in_repositories_counts_all(init, keys);
        assert(init.push(x) =~= recipes);
        lemma_in_repositories_push(init, keys, x);
        assert(keys.contains(repository_key(recipes[recipes.len() - 1])));
        lemma_occurrences_of_distinct(keys, repository_key(x));
    }
}

/// The repositories of groups.
pub open spec fn group_keys(groups: Seq<(RecipeInfoView, Seq<RecipePackageView>)>) -> Seq<RecipeInfoView> {
    groups.map_values(|g: (RecipeInfoView, Seq<RecipePackageView>)| g.0)
}

proof fn lemma_total_is_in_repositories(
    recipes: Seq<RecipeInfoView>,
    host: Option<Seq<char>>,
    groups: Seq<(RecipeInfoView, Seq<RecipePackageView>)>,
)
    requires
        forall|i: int|
            0 <= i < groups.len() ==> #[trigger] groups[i].1 == packages_in(recipes, groups[i].0, host),
    ensures
        total_packages(groups) == recipes_in_repositories(recipes, group_keys(groups)),
    decreases groups.len(),
{
    if groups.len() > 0 {
        let init = groups.drop_last();
        assert forall|i: int| 0 <= i < init.len() implies #[trigger] init[i].1 == packages_in(
            recipes,
            init[i].0,
            host,
        ) by {
            assert(init[i] == groups[i]);
        }
        lemma_total_is_in_repositories(recipes, host, init);
        assert(group_keys(groups).drop_last() =~= group_keys(init));
        assert(groups.last().1 == packages_in(recipes, groups[groups.len() - 1].0, host));
    }
}

/// Grouping loses and repeats no recipe: the groups hold as many packages as
/// there are recipes.
pub proof fn law_grouping_keeps_every_recipe_once(
    recipes: Seq<RecipeInfoView>,
    host: Option<Seq<char>>,
    groups: Seq<(RecipeInfoView, Seq<RecipePackageView>)>,
)
    requires
        is_grouping(recipes, host, groups),
    ensures
        total_packages(groups) == recipes.len(),
{
    let keys = group_keys(groups);
    lemma_total_is_in_repositories(recipes, host, groups);
    assert forall|a: int, b: int| 0 <= a < b < keys.len() implies keys[a] != keys[b] by {
        assert(groups[a].0 != groups[b].0);
    }
    assert forall|k: int| 0 <= k < recipes.len() implies keys.contains(
        repository_key(#[trigger] recipes[k]),
    ) by {
        let i = choose|i: int| 0 <= i < groups.len() && groups[i].0 == repository_key(recipes[k]);
        assert(keys[i] == groups[i].0);
    }
    lemma_in_repositories_counts_all(recipes, keys);
}

/// The repository URL of every package is `https://`, the host (`github.com` where
/// none is given), `/`, the author, `/`, the name and `.git`.
pub proof fn law_repository_url_shape(p: RecipePackageView)
    ensures
        repository_url_of(p) == seq!['h', 't', 't', 'p', 's', ':', '/', '/'] + match p.host {
            Some(h) => h,
            None => seq!['g', 'i', 't', 'h', 'u', 'b', '.', 'c', 'o', 'm'],
        } + seq!['/'] + p.recipe.author + seq!['/'] + p.recipe.name + seq!['.', 'g', 'i', 't'],
{
    reveal_strlit("https://");
    reveal_strlit("github.com");
    reveal_strlit("/");
    reveal_strlit(".git");
    assert("https://"@ =~= seq!['h', 't', 't', 'p', 's', ':', '/', '/']);
    assert("github.com"@ =~= seq!['g', 'i', 't', 'h', 'u', 'b', '.', 'c', 'o', 'm']);
    assert("/"@ =~= seq!['/']);
    assert(".git"@ =~= seq!['.', 'g', 'i', 't']);
}

/// The local path of every package is `pkg`, its author and its name, whatever
/// its host and version.
pub proof fn law_local_path_shape(p: RecipePackageView)
    ensures
        local_path_components(p) == seq![seq!['p', 'k', 'g'], p.recipe.author, p.recipe.name],
{
    reveal_strlit("pkg");
    assert("pkg"@ =~= seq!['p', 'k', 'g']);
}

/// Two packages share a local path exactly when they share author and name.
pub proof fn law_local_path_identifies_repository(p: RecipePackageView, q: RecipePackageView)
    ensures
        (local_path_components(p) == local_path_components(q)) == (p.recipe.author == q.recipe.author
            && p.recipe.name == q.recipe.name),
{
    if local_path_components(p) == local_path_components(q) {
        assert(local_path_components(p)[1] == local_path_components(q)[1]);
        assert(local_path_components(p)[2] == local_path_components(q)[2]);
    }
    if p.recipe.author == q.recipe.author && p.recipe.name == q.recipe.name {
        assert(local_path_components(p) =~= local_path_components(q));
    }
}

/// The text of a package is its repository URL, followed by `@` and the version
/// where the recipe names one, whatever its host.
pub proof fn law_package_text(p: RecipePackageView)
    ensures
        match p.recipe.version {
            Some(v) => display_package(p) == repository_url_of(p) + seq!['@'] + v,
            None => display_package(p) == repository_url_of(p),
        },
{
    reveal_strlit("@");
    assert("@"@ =~= seq!['@']);
    match p.recipe.version {
        Some(v) => {
            assert(display_package(p) =~= repository_url_of(p) + seq!['@'] + v);
        },
        None => {
            assert(display_package(p) =~= repository_url_of(p));
        },
    }
}

/// The repository of a recipe keeps its author and name and drops its version.
pub proof fn law_repository_key_shape(r: RecipeInfoView)
    ensures
        repository_key(r).author == r.author,
        repository_key(r).name == r.name,
        repository_key(r).version is None,
        forall|q: RecipeInfoView|
            repository_key(q) == repository_key(r) <==> (q.author == r.author && q.name == r.name),
{
}

/// The packages of a repository over no recipes are none; one more recipe adds its
/// package at the end exactly when it lives in that repository.
pub proof fn law_packages_in_order(
    recipes: Seq<RecipeInfoView>,
    r: RecipeInfoView,
    key: RecipeInfoView,
    host: Option<Seq<char>>,
)
    ensures
        packages_in(Seq::empty(), key, host) == Seq::<RecipePackageView>::empty(),
        packages_in(recipes.push(r), key, host) == packages_in(recipes, key, host) + if repository_key(r)
            == key {
            seq![RecipePackageView { recipe: r, host }]
        } else {
            Seq::<RecipePackageView>::empty()
        },
{
    reveal(Seq::filter);
    assert(packages_in(Seq::empty(), key, host) =~= Seq::<RecipePackageView>::empty());
    assert(recipes.push(r).drop_last() =~= recipes);
    let before = packages_in(recipes, key, host);
    if repository_key(r) == key {
        assert(packages_in(recipes.push(r), key, host) =~= before + seq![
            RecipePackageView { recipe: r, host },
        ]);
    } else {
        assert(packages_in(recipes.push(r), key, host) =~= before + Seq::<RecipePackageView>::empty());
    }
}

impl<'b> RecipePackage<'b> {
    /// The URL of the git repository of the package.
    pub fn repository_url(&self) -> (url: String)
        ensures
            url@ == repository_url_of(self@),
    {
        let host = match self.host {
            Some(h) => h,
            None => "github.com",
        };
        let mut url = String::from_str("https://");
        url.append(host);
        url.append("/");
        url.append(self.recipe.author.as_str());
        url.append("/");
        url.append(self.recipe.name.as_str());
        url.append(".git");
        url
    }

    /// The branch to fetch: the version of the recipe, where it names one.
    pub fn repository_branch(&self) -> (branch: Option<&str>)
        ensures
            opt_str_view(branch) == self.recipe@.version,
    {
        match &self.recipe.version {
            Some(v) => Some(v.as_str()),
            None => None,
        }
    }

    /// Where the package is kept locally: `pkg/{author}/{name}`.
    pub fn local_path(&self) -> (path: PathBuf)
        ensures
            path == path_from_components(local_path_components(self@)),
    {
        let components = vec!["pkg", self.recipe.author.as_str(), self.recipe.name.as_str()];
        let path = collect_path(components.as_slice());
        assert(components@.map_values(|c: &str| c@) =~= local_path_components(self@));
        path
    }

    /// The text of the package: its repository URL, then `@branch` where it has one.
    pub fn to_string(&self) -> (s: String)
        ensures
            s@ == display_package(self@),
    {
        let mut s = self.repository_url();
        match self.repository_branch() {
            Some(branch) => {
                s.append("@");
                s.append(branch);
            },
            None => {},
        }
        s
    }

    /// Groups the recipes by the repository they live in: for each repository, the
    /// packages of its recipes on `host`, in input order.
    pub fn group_by_repository<'a>(recipes: &[RecipeInfo], host: Option<&'a str>) -> (groups: Vec<
        (RecipeInfo, Vec<RecipePackage<'a>>),
    >)
        ensures
            is_grouping(recipes_view(recipes@), opt_str_view(host), groups_view(groups@)),
    {
        let keys = repository_keys(recipes);
        let ghost rv = recipes_view(recipes@);
        let mut groups: Vec<(RecipeInfo, Vec<RecipePackage<'a>>)> = Vec::new();
        let mut i: usize = 0;
        while i < keys.len()
            invariant
                i <= keys.len(),
                rv == recipes_view(recipes@),
                groups.len() == i,
                forall|j: int| 0 <= j < i ==> (#[trigger] groups[j]).0@ == keys[j]@,
                forall|j: int|
                    0 <= j < i ==> packages_view((#[trigger] groups[j]).1@) == packages_in(
                        rv,
                        keys[j]@,
                        opt_str_view(host),
                    ),
                forall|j: int| 0 <= j < keys.len() ==> (#[trigger] keys[j])@.version is None,
                are_repository_keys(rv, recipes_view(keys@)),
            decreases keys.len() - i,
        {
            let packages = packages_for(recipes, &keys[i], host);
            groups.push((keys[i].duplicate(), packages));
            i = i + 1;
        }
        proof {
            let gv = groups_view(groups@);
            let kv = recipes_view(keys@);
            assert forall|j: int| 0 <= j < gv.len() implies #[trigger] gv[j].0 == kv[j] && gv[j].1
                == packages_in(rv, kv[j], opt_str_view(host)) by {
                assert(gv[j] == (groups[j].0@, packages_view(groups[j].1@)));
            }
            lemma_grouping_from_keys(rv, opt_str_view(host), kv, gv);
        }
        groups
    }
}

} // verus!
