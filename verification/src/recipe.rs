use vstd::prelude::*;
use crate::text::{split_once_char, split_once_spec, starts_with, is_first_index, lemma_split_once_at, lemma_split_once_none};

verus! {

/// A recipe: the author and the name of the repository that holds it, and the
/// version (a branch of that repository) where one was asked for.
#[derive(Clone, Debug, PartialEq, Eq, Hash)]
pub struct RecipeInfo {
    pub author: String,
    pub name: String,
    pub version: Option<String>,
}

/// A recipe as the contracts see it: its fields as sequences of chars.
pub struct RecipeInfoView {
    pub author: Seq<char>,
    pub name: Seq<char>,
    pub version: Option<Seq<char>>,
}

/// The chars of an optional string.
pub open spec fn opt_string_view(o: Option<String>) -> Option<Seq<char>> {
    match o {
        Some(s) => Some(s@),
        None => None,
    }
}

impl View for RecipeInfo {
    type V = RecipeInfoView;

    open spec fn view(&self) -> RecipeInfoView {
        RecipeInfoView {
            author: self.author@,
            name: self.name@,
            version: opt_string_view(self.version),
        }
    }
}

/// The prefix that every recipe repository of the default author carries: `rime-`.
pub open spec fn rime_prefix() -> Seq<char> {
    seq!['r', 'i', 'm', 'e', '-']
}

/// The author of a recipe that names none: `rime`.
pub open spec fn default_author() -> Seq<char> {
    seq!['r', 'i', 'm', 'e']
}

/// A recipe name with the `rime-` prefix, added where it is missing.
pub open spec fn normalized_name(name: Seq<char>) -> Seq<char> {
    if rime_prefix().is_prefix_of(name) {
        name
    } else {
        rime_prefix() + name
    }
}

/// The recipe that a text `[author/]name[@version]` names: the version is what
/// follows the first `@`; before it, the author is what precedes the first `/`
/// and the name what follows it; with no `/`, the author is `rime` and the name
/// is normalized.
pub open spec fn parse_recipe(source: Seq<char>) -> RecipeInfoView {
    let (full_name, version) = match split_once_spec(source, '@') {
        Some((f, v)) => (f, Some(v)),
        None => (source, None),
    };
    match split_once_spec(full_name, '/') {
        Some((author, name)) => RecipeInfoView { author, name, version },
        None => RecipeInfoView {
            author: default_author(),
            name: normalized_name(full_name),
            version,
        },
    }
}

/// The text of a recipe: `author/name`, then `@version` where it has one.
pub open spec fn display_recipe(r: RecipeInfoView) -> Seq<char> {
    r.author + seq!['/'] + r.name + match r.version {
        Some(v) => seq!['@'] + v,
        None => Seq::<char>::empty(),
    }
}

/// A recipe whose text reads back as itself: no `/` or `@` in the author, no `@`
/// in the name.
pub open spec fn is_plain_recipe(r: RecipeInfoView) -> bool {
    &&& !r.author.contains('/')
    &&& !r.author.contains('@')
    &&& !r.name.contains('@')
}

/// Gives a recipe name the `rime-` prefix where it lacks it.
pub fn normalize_recipe_name(name: &str) -> (r: String)
    ensures
        r@ == normalized_name(name@),
{
    proof {
        reveal_strlit("rime-");
    }
    if starts_with(name, "rime-") {
        name.to_owned()
    } else {
        let mut full = String::from_str("rime-");
        full.append(name);
        full
    }
}

impl RecipeInfo {
    /// A copy of this recipe with the same fields.
    pub fn duplicate(&self) -> (r: RecipeInfo)
        ensures
            r@ == self@,
    {
        let version = match &self.version {
            Some(v) => Some(v.clone()),
            None => None,
        };
        RecipeInfo { author: self.author.clone(), name: self.name.clone(), version }
    }

    /// The text of the recipe: `author/name`, then `@version` where it has one.
    pub fn to_string(&self) -> (s: String)
        ensures
            s@ == display_recipe(self@),
    {
        proof {
            reveal_strlit("/");
            reveal_strlit("@");
        }
        let mut s = self.author.clone();
        s.append("/");
        s.append(self.name.as_str());
        match &self.version {
            Some(v) => {
                s.append("@");
                s.append(v.as_str());
            },
            None => {},
        }
        assert(s@ =~= display_recipe(self@));
        s
    }
}

impl<'a> From<&'a str> for RecipeInfo {
    /// Reads a recipe from `[author/]name[@version]`.
    fn from(source: &'a str) -> (r: RecipeInfo)
        ensures
            r@ == parse_recipe(source@),
    {
        let (full_name, version) = match split_once_char(source, '@') {
            Some((f, v)) => (f, Some(v.to_owned())),
            None => (source, None),
        };
        assert(full_name@ == (match split_once_spec(source@, '@') {
            Some((f, v)) => f,
            None => source@,
        }));
        assert(opt_string_view(version) == (match split_once_spec(source@, '@') {
            Some((f, v)) => Some(v),
            None => None,
        }));
        match split_once_char(full_name, '/') {
            Some((author, name)) => RecipeInfo { author: author.to_owned(), name: name.to_owned(), version },
            None => {
                proof {
                    reveal_strlit("rime");
                    assert("rime"@ =~= default_author());
                }
                RecipeInfo {
                    author: "rime".to_owned(),
                    name: normalize_recipe_name(full_name),
                    version,
                }
            },
        }
    }
}

/// The value of `RecipeInfo::from` is stated over views, by the `ensures` of `from`
/// itself (`parse_recipe`): no spec value of type `RecipeInfo` is built from a
/// text here, so `from_spec` is not claimed to describe `from`.
impl<'a> vstd::std_specs::convert::FromSpecImpl<&'a str> for RecipeInfo {
    open spec fn obeys_from_spec() -> bool {
        false
    }

    open spec fn from_spec(v: &'a str) -> RecipeInfo {
        arbitrary()
    }
}

/// The text of `author/name` holds no `@` where neither part does.
proof fn lemma_head_has_no_at(a: Seq<char>, n: Seq<char>)
    requires
        !a.contains('@'),
        !n.contains('@'),
    ensures
        !(a + seq!['/'] + n).contains('@'),
{
    let head = a + seq!['/'] + n;
    assert forall|j: int| 0 <= j < head.len() implies head[j] != '@' by {
        if j < a.len() {
            assert(head[j] == a[j]);
        } else if j > a.len() {
            assert(head[j] == n[j - a.len() - 1]);
        }
    }
}

/// `author/name` splits at the `/` after the author, where the author holds no `/`.
proof fn lemma_head_splits_at_slash(a: Seq<char>, n: Seq<char>)
    requires
        !a.contains('/'),
    ensures
        split_once_spec(a + seq!['/'] + n, '/') == Some((a, n)),
{
    let head = a + seq!['/'] + n;
    assert forall|j: int| 0 <= j < a.len() implies head[j] != '/' by {
        assert(head[j] == a[j]);
    }
    assert(is_first_index(head, '/', a.len() as int));
    lemma_split_once_at(head, '/', a.len() as int);
    assert(head.take(a.len() as int) =~= a);
    assert(head.skip(a.len() as int + 1) =~= n);
}

/// Reading back the text of a recipe gives the recipe, where its author holds no
/// `/` or `@` and its name no `@`.
pub proof fn law_parse_display_roundtrip(r: RecipeInfoView)
    requires
        is_plain_recipe(r),
    ensures
        parse_recipe(display_recipe(r)) == r,
{
    let a = r.author;
    let n = r.name;
    let head = a + seq!['/'] + n;
    let s = display_recipe(r);
    lemma_head_has_no_at(a, n);
    match r.version {
        Some(v) => {
            assert(s =~= head + (seq!['@'] + v));
            let p = head.len() as int;
            assert forall|j: int| 0 <= j < p implies s[j] != '@' by {
                assert(s[j] == head[j]);
            }
            assert(is_first_index(s, '@', p));
            lemma_split_once_at(s, '@', p);
            assert(s.take(p) =~= head);
            assert(s.skip(p + 1) =~= v);
        },
        None => {
            assert(s =~= head);
            lemma_split_once_none(s, '@');
        },
    }
    lemma_head_splits_at_slash(a, n);
}

/// The part of a text before its first `c`, or the whole text where it holds no
/// `c`, holds no `c`.
proof fn lemma_split_parts(s: Seq<char>, c: char)
    ensures
        match split_once_spec(s, c) {
            Some((before, after)) => !before.contains(c) && s == before + seq![c] + after,
            None => !s.contains(c),
        },
{
    if exists|i: int| is_first_index(s, c, i) {
        let i = choose|i: int| is_first_index(s, c, i);
        let before = s.take(i);
        assert forall|j: int| 0 <= j < before.len() implies before[j] != c by {
            assert(before[j] == s[j]);
        }
        assert(s =~= before + seq![c] + s.skip(i + 1));
    } else {
        if s.contains(c) {
            let j = choose|j: int| 0 <= j < s.len() && s[j] == c;
            let first = choose_first(s, c, j);
            assert(is_first_index(s, c, first));
        }
    }
}

/// Some position at or before `j` holds the first `c`, where `s[j]` is `c`.
proof fn choose_first(s: Seq<char>, c: char, j: int) -> (i: int)
    requires
        0 <= j < s.len(),
        s[j] == c,
    ensures
        is_first_index(s, c, i),
    decreases j,
{
    if exists|k: int| 0 <= k < j && s[k] == c {
        let k = choose|k: int| 0 <= k < j && s[k] == c;
        choose_first(s, c, k)
    } else {
        j
    }
}

/// Every recipe read from a text is plain: its author holds no `/` or `@`, its
/// name no `@`.
pub proof fn law_parsed_recipe_is_plain(source: Seq<char>)
    ensures
        is_plain_recipe(parse_recipe(source)),
{
    lemma_split_parts(source, '@');
    let full_name = match split_once_spec(source, '@') {
        Some((f, v)) => f,
        None => source,
    };
    assert(!full_name.contains('@'));
    lemma_split_parts(full_name, '/');
    match split_once_spec(full_name, '/') {
        Some((author, name)) => {
            assert forall|j: int| 0 <= j < author.len() implies author[j] != '@' by {
                assert(author[j] == full_name[j]);
            }
            assert forall|j: int| 0 <= j < name.len() implies name[j] != '@' by {
                assert(name[j] == full_name[author.len() + 1 + j]);
            }
        },
        None => {
            let name = normalized_name(full_name);
            assert forall|j: int| 0 <= j < name.len() implies name[j] != '@' by {
                if !rime_prefix().is_prefix_of(full_name) && j >= 5 {
                    assert(name[j] == full_name[j - 5]);
                }
            }
            assert(!default_author().contains('/'));
            assert(!default_author().contains('@'));
        },
    }
}

/// Reading, printing and reading again gives what the first reading gave.
pub proof fn law_parse_is_stable(source: Seq<char>)
    ensures
        parse_recipe(display_recipe(parse_recipe(source))) == parse_recipe(source),
{
    law_parsed_recipe_is_plain(source);
    law_parse_display_roundtrip(parse_recipe(source));
}

/// Normalizing a name gives one that starts with `rime-`, and normalizing it again
/// changes nothing.
pub proof fn law_normalize_idempotent(name: Seq<char>)
    ensures
        seq!['r', 'i', 'm', 'e', '-'].is_prefix_of(normalized_name(name)),
        normalized_name(name) == if seq!['r', 'i', 'm', 'e', '-'].is_prefix_of(name) {
            name
        } else {
            seq!['r', 'i', 'm', 'e', '-'] + name
        },
        normalized_name(normalized_name(name)) == normalized_name(name),
{
    if !rime_prefix().is_prefix_of(name) {
        assert((rime_prefix() + name).subrange(0, 5) =~= rime_prefix());
    }
}

/// A text whose part before the first `@` (or the whole text, where it has no `@`)
/// holds no `/` reads as a recipe of author `rime`, named by that part with `rime-`
/// put in front unless it starts with it; the version is what follows the first
/// `@`, where there is one.
pub proof fn law_parse_without_author(source: Seq<char>, i: int)
    requires
        0 <= i <= source.len(),
        i == source.len() || source[i] == '@',
        forall|j: int| 0 <= j < i ==> source[j] != '@' && source[j] != '/',
    ensures
        parse_recipe(source).author == seq!['r', 'i', 'm', 'e'],
        seq!['r', 'i', 'm', 'e', '-'].is_prefix_of(parse_recipe(source).name),
        parse_recipe(source).name == if seq!['r', 'i', 'm', 'e', '-'].is_prefix_of(source.take(i)) {
            source.take(i)
        } else {
            seq!['r', 'i', 'm', 'e', '-'] + source.take(i)
        },
        parse_recipe(source).version == if i == source.len() {
            None
        } else {
            Some(source.skip(i + 1))
        },
{
    let full = source.take(i);
    if i == source.len() {
        assert(full =~= source);
        assert(!source.contains('@')) by {
            if source.contains('@') {
                let j = choose|j: int| 0 <= j < source.len() && source[j] == '@';
            }
        }
        lemma_split_once_none(source, '@');
    } else {
        assert(is_first_index(source, '@', i));
        lemma_split_once_at(source, '@', i);
    }
    assert(!full.contains('/')) by {
        if full.contains('/') {
            let j = choose|j: int| 0 <= j < full.len() && full[j] == '/';
            assert(full[j] == source[j]);
        }
    }
    lemma_split_once_none(full, '/');
    law_normalize_idempotent(full);
}

/// A text with a `/` before its first `@` reads as the recipe whose author is the
/// text before the first `/`, whose name is the text from there to the first `@`
/// (or to the end), and whose version is what follows the first `@`, where there
/// is one.
pub proof fn law_parse_with_author(source: Seq<char>, j: int, i: int)
    requires
        0 <= j < i <= source.len(),
        source[j] == '/',
        forall|k: int| 0 <= k < j ==> source[k] != '/',
        forall|k: int| 0 <= k < i ==> source[k] != '@',
        i == source.len() || source[i] == '@',
    ensures
        parse_recipe(source) == (RecipeInfoView {
            author: source.take(j),
            name: source.subrange(j + 1, i),
            version: if i == source.len() {
                None
            } else {
                Some(source.skip(i + 1))
            },
        }),
{
    let full = source.take(i);
    if i == source.len() {
        assert(full =~= source);
        assert(!source.contains('@')) by {
            if source.contains('@') {
                let k = choose|k: int| 0 <= k < source.len() && source[k] == '@';
            }
        }
        lemma_split_once_none(source, '@');
    } else {
        assert(is_first_index(source, '@', i));
        lemma_split_once_at(source, '@', i);
    }
    assert(is_first_index(full, '/', j));
    lemma_split_once_at(full, '/', j);
    assert(full.take(j) =~= source.take(j));
    assert(full.skip(j + 1) =~= source.subrange(j + 1, i));
}

/// The text of every recipe is its author, `/`, its name, then `@` and the version
/// where it has one.
pub proof fn law_recipe_text_shape(r: RecipeInfoView)
    ensures
        display_recipe(r).take(r.author.len() as int) == r.author,
        display_recipe(r)[r.author.len() as int] == '/',
        match r.version {
            Some(v) => display_recipe(r).skip(r.author.len() as int + 1) == r.name + seq!['@'] + v,
            None => display_recipe(r).skip(r.author.len() as int + 1) == r.name,
        },
{
    let t = display_recipe(r);
    assert(t.take(r.author.len() as int) =~= r.author);
    match r.version {
        Some(v) => {
            assert(t.skip(r.author.len() as int + 1) =~= r.name + seq!['@'] + v);
        },
        None => {
            assert(t.skip(r.author.len() as int + 1) =~= r.name);
        },
    }
}

} // verus!
