use rime_cli::text::{find_char, split_once_char, starts_with};

#[test]
fn find_char_gives_first_position_in_chars() {
    assert_eq!(find_char("ab@c@d", '@'), Some(2));
    assert_eq!(find_char("倉@頡", '@'), Some(1));
    assert_eq!(find_char("abc", '@'), None);
    assert_eq!(find_char("", '@'), None);
}

#[test]
fn split_once_char_matches_std() {
    for s in ["a/b", "a/b/c", "abc", "/", "", "佛/振", "x@y@z"] {
        for c in ['/', '@'] {
            assert_eq!(split_once_char(s, c), s.split_once(c));
        }
    }
}

#[test]
fn starts_with_matches_std() {
    for s in ["rime-x", "rime", "rim", "", "xrime-", "rime-"] {
        assert_eq!(starts_with(s, "rime-"), s.starts_with("rime-"));
    }
    assert!(starts_with("abc", ""));
}
