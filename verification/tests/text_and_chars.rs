use import_optimizer::chars::{
    find, find_char, find_quote, is_ident, is_quote_char, is_space_char, matches_at, rfind_char,
    rfind_quote, slice_of, starts_with, strip_padding, trim_chars,
};
use import_optimizer::lines::{append_chars, join_texts, split_lines};
use import_optimizer::order::{stable_order, text_eq, text_le};
use import_optimizer::text::{chars_of, string_of};

fn cs(s: &str) -> Vec<char> {
    s.chars().collect()
}

fn st(v: &[char]) -> String {
    v.iter().collect()
}

#[test]
fn chars_of_gives_the_characters_in_order() {
    assert_eq!(chars_of(""), Vec::<char>::new());
    assert_eq!(chars_of("a b"), vec!['a', ' ', 'b']);
    assert_eq!(chars_of("é导入"), vec!['é', '导', '入']);
}

#[test]
fn string_of_appends_every_character() {
    assert_eq!(string_of(&vec![]), "");
    assert_eq!(string_of(&vec!['a', 'b']), "ab");
    assert_eq!(string_of(&vec!['导', '入', '!']), "导入!");
}

#[test]
fn string_of_undoes_chars_of() {
    for s in ["", "import x from 'y';", "a\r\nb\n", "测试输入:\n"] {
        assert_eq!(string_of(&chars_of(s)), s);
    }
}

#[test]
fn white_space_is_the_unicode_property() {
    let spaces = [
        '\u{9}', '\u{A}', '\u{B}', '\u{C}', '\u{D}', ' ', '\u{85}', '\u{A0}', '\u{1680}',
        '\u{2000}', '\u{2005}', '\u{200A}', '\u{2028}', '\u{2029}', '\u{202F}', '\u{205F}',
        '\u{3000}',
    ];
    for c in spaces {
        assert!(is_space_char(c), "{:?}", c);
    }
    for c in ['\u{8}', '\u{E}', 'a', ';', '\u{84}', '\u{86}', '\u{200B}', '\u{2027}', '\u{3001}'] {
        assert!(!is_space_char(c), "{:?}", c);
    }
}

#[test]
fn white_space_agrees_with_std_on_every_character() {
    let mut n: u32 = 0;
    while n <= 0x10FFFF {
        if let Some(c) = char::from_u32(n) {
            assert_eq!(is_space_char(c), c.is_whitespace(), "{:x}", n);
        }
        n += 1;
    }
}

#[test]
fn quotes_are_the_single_and_the_double_one() {
    assert!(is_quote_char('\''));
    assert!(is_quote_char('"'));
    assert!(!is_quote_char('`'));
}

#[test]
fn identifier_characters() {
    for c in ['a', 'z', 'A', 'Z', '0', '9', '_', '$', 'é', '导'] {
        assert!(is_ident(c), "{:?}", c);
    }
    for c in [' ', '*', ',', '{', '}', '.', '-', '\n', '@', '[', '`', '/', ':'] {
        assert!(!is_ident(c), "{:?}", c);
    }
}

#[test]
fn slice_of_copies_the_range() {
    let v = cs("import");
    assert_eq!(st(&slice_of(&v, 0, 6)), "import");
    assert_eq!(st(&slice_of(&v, 2, 4)), "po");
    assert_eq!(st(&slice_of(&v, 3, 3)), "");
}

#[test]
fn trim_strips_white_space_at_both_ends_only() {
    assert_eq!(st(&trim_chars(&cs("  a b \t\r\n"))), "a b");
    assert_eq!(st(&trim_chars(&cs("\u{3000}x\u{A0}"))), "x");
    assert_eq!(st(&trim_chars(&cs("   "))), "");
    assert_eq!(st(&trim_chars(&cs(""))), "");
    assert_eq!(st(&trim_chars(&cs("x"))), "x");
}

#[test]
fn strip_padding_strips_quotes_and_semicolons_too() {
    assert_eq!(st(&strip_padding(&cs(" ;'\"a;'b\"; '"))), "a;'b");
    assert_eq!(st(&strip_padding(&cs("';\" "))), "");
    assert_eq!(st(&strip_padding(&cs("vuex"))), "vuex");
}

#[test]
fn matches_at_compares_in_place() {
    let v = cs("abcabc");
    assert!(matches_at(&v, 0, &cs("abc")));
    assert!(matches_at(&v, 3, &cs("abc")));
    assert!(!matches_at(&v, 1, &cs("abc")));
    assert!(!matches_at(&v, 4, &cs("abc")));
    assert!(matches_at(&v, 6, &cs("")));
    assert!(!matches_at(&v, 7, &cs("")));
    assert!(!matches_at(&cs("ab"), 0, &cs("abc")));
}

#[test]
fn starts_with_looks_at_the_beginning() {
    assert!(starts_with(&cs("import x"), &cs("import")));
    assert!(starts_with(&cs("important"), &cs("import")));
    assert!(!starts_with(&cs(" import"), &cs("import")));
    assert!(!starts_with(&cs("impor"), &cs("import")));
    assert!(starts_with(&cs(""), &cs("")));
}

#[test]
fn find_gives_the_first_occurrence() {
    assert_eq!(find(&cs("a from b from c"), &cs("from")), Some(2));
    assert_eq!(find(&cs("fromage"), &cs("from")), Some(0));
    assert_eq!(find(&cs("xfrom"), &cs("from")), Some(1));
    assert_eq!(find(&cs("fro m"), &cs("from")), None);
    assert_eq!(find(&cs(""), &cs("from")), None);
    assert_eq!(find(&cs("abc"), &cs("")), Some(0));
    assert_eq!(find(&cs(""), &cs("")), Some(0));
}

#[test]
fn find_char_and_rfind_char() {
    let v = cs("a{b{c}d}e");
    assert_eq!(find_char(&v, '{'), Some(1));
    assert_eq!(rfind_char(&v, '{'), Some(3));
    assert_eq!(find_char(&v, '}'), Some(5));
    assert_eq!(rfind_char(&v, '}'), Some(7));
    assert_eq!(find_char(&v, '*'), None);
    assert_eq!(rfind_char(&v, '*'), None);
    assert_eq!(find_char(&cs(""), 'a'), None);
}

#[test]
fn find_quote_and_rfind_quote() {
    let v = cs(" \"a'b\" ;");
    assert_eq!(find_quote(&v), Some(1));
    assert_eq!(rfind_quote(&v), Some(5));
    assert_eq!(find_quote(&cs("a'")), Some(1));
    assert_eq!(rfind_quote(&cs("a'")), Some(1));
    assert_eq!(find_quote(&cs("abc")), None);
    assert_eq!(rfind_quote(&cs("abc")), None);
}

fn lines_of(s: &str) -> Vec<String> {
    split_lines(&cs(s)).iter().map(|l| st(l)).collect()
}

#[test]
fn split_lines_agrees_with_std() {
    let samples = [
        "",
        "a",
        "a\n",
        "a\nb",
        "a\n\nb\n",
        "\n",
        "\n\n",
        "a\r\nb\r\n",
        "a\r",
        "a\r\r\nb",
        "\r\n",
        "a\rb\nc",
        "foo\nbar\n\r\nbaz\r",
    ];
    for s in samples {
        let want: Vec<String> = s.lines().map(|l| l.to_string()).collect();
        assert_eq!(lines_of(s), want, "{:?}", s);
    }
}

#[test]
fn split_lines_exact_values() {
    assert_eq!(lines_of(""), Vec::<String>::new());
    assert_eq!(lines_of("a\r\n\nb\r"), vec!["a", "", "b\r"]);
    assert_eq!(lines_of("x\n"), vec!["x"]);
}

#[test]
fn join_texts_puts_the_separator_between() {
    assert_eq!(st(&join_texts(&vec![], &cs(", "))), "");
    assert_eq!(st(&join_texts(&vec![cs("a")], &cs(", "))), "a");
    assert_eq!(st(&join_texts(&vec![cs("a"), cs(""), cs("b")], &cs(", "))), "a, , b");
    assert_eq!(st(&join_texts(&vec![cs(""), cs("")], &cs("\n"))), "\n");
}

#[test]
fn append_chars_appends() {
    let mut v = cs("ab");
    append_chars(&mut v, &cs("cd"));
    assert_eq!(st(&v), "abcd");
    append_chars(&mut v, &cs(""));
    assert_eq!(st(&v), "abcd");
}

#[test]
fn text_le_is_the_order_of_the_bytes() {
    let samples = ["", "a", "A", "aa", "ab", "b", "@/x", "vuex", "é", "z", "导", "\u{10000}", "~"];
    for a in samples {
        for b in samples {
            assert_eq!(text_le(&cs(a), &cs(b)), a.as_bytes() <= b.as_bytes(), "{:?} {:?}", a, b);
            assert_eq!(text_eq(&cs(a), &cs(b)), a == b, "{:?} {:?}", a, b);
        }
    }
}

#[test]
fn text_le_exact_values() {
    assert!(text_le(&cs(""), &cs("")));
    assert!(text_le(&cs("a"), &cs("ab")));
    assert!(!text_le(&cs("ab"), &cs("a")));
    assert!(text_le(&cs("B"), &cs("a")));
    assert!(!text_le(&cs("b"), &cs("a")));
}

#[test]
fn stable_order_sorts_and_keeps_equal_keys_in_order() {
    let keys = vec![cs("b"), cs("a"), cs("b"), cs(""), cs("a"), cs("B")];
    assert_eq!(stable_order(&keys), vec![3, 5, 1, 4, 0, 2]);
    assert_eq!(stable_order(&vec![]), Vec::<usize>::new());
    assert_eq!(stable_order(&vec![cs("x")]), vec![0]);
    assert_eq!(stable_order(&vec![cs("c"), cs("b"), cs("a")]), vec![2, 1, 0]);
}
