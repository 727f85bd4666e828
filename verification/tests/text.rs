use release_kthx::order::add_text;
use release_kthx::path::{components, rank_paths, slashed, sort_paths, text_between};
use release_kthx::release::crate_contains_file;
use release_kthx::text::{contains, ends_with, number, rank_texts, replace, split, trim, Rank};

#[test]
fn texts_are_trimmed_like_lines_of_output() {
    assert_eq!(trim(" \t\u{2003}a b\r\n"), "a b");
    assert_eq!(trim("\u{1f}"), "\u{1f}");
    assert_eq!(trim("  "), "");
    for text in ["", " a", "a ", "\u{a0}a\u{3000}", "\u{200b}a", "\u{1c} a \u{85}"] {
        assert_eq!(trim(text), text.trim());
    }
}

#[test]
fn texts_are_split_and_replaced() {
    assert_eq!(split("a//b/", '/'), vec!["a", "", "b", ""]);
    assert_eq!(split("", '/'), vec![""]);
    assert_eq!(replace("aaaa", "aa", "b"), "bb");
    assert_eq!(replace("aaa", "aa", "a"), "aa");
    assert_eq!(replace("abc", "x", "y"), "abc");
    assert!(contains("abc", "bc"));
    assert!(!contains("abc", "cb"));
    assert!(contains("abc", ""));
    assert!(ends_with("abc", "bc"));
    assert!(!ends_with("bc", "abc"));
}

#[test]
fn numbers_are_written_in_decimal() {
    assert_eq!(number(0), "0");
    assert_eq!(number(18446744073709551615), "18446744073709551615");
    assert_eq!(number(1020), "1020");
}

#[test]
fn texts_rank_by_their_characters() {
    assert_eq!(rank_texts("a", "b"), Rank::Before);
    assert_eq!(rank_texts("ab", "a"), Rank::After);
    assert_eq!(rank_texts("a-b", "a_b"), Rank::Before);
    assert_eq!(rank_texts("a", "a"), Rank::Same);
    assert_eq!(rank_texts("\u{ffff}", "\u{10000}"), Rank::Before);
}

#[test]
fn sets_of_texts_stay_sorted() {
    let mut list = Vec::new();
    for item in ["b", "a", "c", "b"] {
        add_text(&mut list, item);
    }
    assert_eq!(list, vec!["a", "b", "c"]);
}

#[test]
fn paths_rank_by_their_components() {
    assert_eq!(rank_paths("a/b", "a-b"), Rank::Before);
    assert_eq!(rank_paths("Cargo.toml", "crates/a/Cargo.toml"), Rank::Before);
    assert_eq!(rank_paths("a", "a/b"), Rank::Before);
    assert_eq!(rank_paths("/a", "a"), Rank::Before);
    assert_eq!(rank_paths("a//b/./c/", "a/b/c"), Rank::Same);
    assert_eq!(rank_paths("./a", "./a/"), Rank::Same);
    assert_eq!(rank_paths("./a", "a"), Rank::Before);
    assert_eq!(
        sort_paths(&vec![
            "b".to_string(),
            "a/c".to_string(),
            "b/".to_string(),
            "a".to_string()
        ]),
        vec!["a", "a/c", "b"]
    );
}

#[test]
fn paths_rank_as_the_standard_library_ranks_them() {
    let list = ["", ".", "..", "/", "/a", "a", "a/b", "a-b", "./a", "../a", "a//b/.", "A", "é"];
    for a in list {
        for b in list {
            let expected = std::path::Path::new(a).cmp(std::path::Path::new(b));
            let rank = match rank_paths(a, b) {
                Rank::Before => std::cmp::Ordering::Less,
                Rank::Same => std::cmp::Ordering::Equal,
                Rank::After => std::cmp::Ordering::Greater,
            };
            assert_eq!(rank, expected, "{a:?} {b:?}");
        }
    }
}

#[test]
fn paths_are_named_by_their_shortest_text() {
    for (path, text) in [
        ("/a//b/", "/a/b"),
        ("/", "/"),
        ("./a/./b", "./a/b"),
        ("../a", "../a"),
        ("", ""),
    ] {
        let list = components(path);
        assert_eq!(text_between(&list, 0, list.len()), text);
        assert_eq!(rank_paths(path, text), Rank::Same);
    }
}

#[test]
fn paths_of_other_systems_are_written_with_slashes() {
    let dir = slashed("crates\\app", '\\');
    assert_eq!(dir, "crates/app");
    assert!(crate_contains_file(&dir, "crates/app/src/lib.rs"));
    assert_eq!(slashed("a/b\\c", '\\'), "a/b/c");
    assert_eq!(slashed("a\\b/c", '/'), "a\\b/c");
    assert_eq!(slashed("", '\\'), "");
}
