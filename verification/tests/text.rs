use oapi_codegen::text::{compare_names, last_segment, strip_marker, to_chars, NameOrder};

#[test]
fn chars_of_a_text_come_in_order() {
    assert_eq!(to_chars("a/ü"), vec!['a', '/', 'ü']);
    assert_eq!(to_chars(""), Vec::<char>::new());
}

#[test]
fn names_compare_character_by_character() {
    assert_eq!(compare_names("get_user", "get_users"), NameOrder::Before);
    assert_eq!(compare_names("get_users", "get_user"), NameOrder::After);
    assert_eq!(compare_names("delete_user", "get_user"), NameOrder::Before);
    assert_eq!(compare_names("b", "a_long_name"), NameOrder::After);
    assert_eq!(compare_names("same", "same"), NameOrder::Same);
    assert_eq!(compare_names("", ""), NameOrder::Same);
    assert_eq!(compare_names("", "a"), NameOrder::Before);
}

#[test]
fn names_compare_as_strings_do() {
    let names = ["", "a", "a_b", "ab", "b", "zebra", "änderung", "Z", "_x", "a1", "a_"];
    for a in names {
        for b in names {
            let expected = if a < b {
                NameOrder::Before
            } else if a == b {
                NameOrder::Same
            } else {
                NameOrder::After
            };
            assert_eq!(compare_names(a, b), expected);
        }
    }
}

#[test]
fn last_segment_follows_the_last_slash() {
    assert_eq!(last_segment("#/components/parameters/userId"), "userId");
    assert_eq!(last_segment("userId"), "userId");
    assert_eq!(last_segment("a/b/"), "");
    assert_eq!(last_segment("/"), "");
    assert_eq!(last_segment(""), "");
    assert_eq!(last_segment("ä/ö"), "ö");
}

#[test]
fn marker_is_taken_out_everywhere() {
    let marker = "type newline = ();";
    assert_eq!(strip_marker("fn a() {}\ntype newline = ();\nfn b() {}\n", marker), "fn a() {}\n\nfn b() {}\n");
    assert_eq!(strip_marker("type newline = ();type newline = ();", marker), "");
    assert_eq!(strip_marker("no marker here", marker), "no marker here");
    assert_eq!(strip_marker("", marker), "");
    assert_eq!(strip_marker("type newline = ()", marker), "type newline = ()");
}

#[test]
fn marker_occurrences_do_not_overlap() {
    assert_eq!(strip_marker("aaa", "aa"), "a");
    assert_eq!(strip_marker("aaaa", "aa"), "");
    assert_eq!(strip_marker("abab", "ab"), "");
    assert_eq!(strip_marker("xabay", "aba"), "xy");
    assert_eq!(strip_marker("ababa", "aba"), "ba");
}

#[test]
fn empty_marker_takes_nothing_out() {
    assert_eq!(strip_marker("abc", ""), "abc");
}

#[test]
fn stripping_agrees_with_replace() {
    let texts = ["", "a", "aXbXc", "XX", "XaX", "aaXaa", "ü X ü"];
    let markers = ["X", "aa", "a", "ü ", "XaX"];
    for text in texts {
        for marker in markers {
            assert_eq!(strip_marker(text, marker), text.replace(marker, ""));
        }
    }
}
