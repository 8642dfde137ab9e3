use jay::clock::{now_ts, Instant};
use jay::doc::{put_field, read_doc, remove_field, write_doc, Doc, Field};
use jay::graph::{find_cycle, find_cycles, Node};
use jay::order::sort_texts;
use jay::text::{
    align_left, align_right, contains_text, equal_but_case, int_text, is_blank, join,
    keep_nonempty, lines_of, named_line, natural_text, parse_int, replace, split, starts_with,
    strip_prefix, strip_suffix, tail_after, tail_after_first, tail_after_last, trim_end_char,
    trimmed, white_space,
};

fn strings(v: &[&str]) -> Vec<String> {
    v.iter().map(|s| s.to_string()).collect()
}

#[test]
fn white_space_is_that_of_the_language() {
    for n in 0u32..=0x10ffff {
        if let Some(c) = char::from_u32(n) {
            assert_eq!(white_space(c), c.is_whitespace(), "{n:x}");
        }
    }
}

#[test]
fn trimming_and_blanks() {
    for s in ["", "  ", " a ", "\u{3000}x\t\n", "a b", "\u{85}"] {
        assert_eq!(trimmed(s), s.trim());
        assert_eq!(is_blank(s), s.trim().is_empty());
    }
    assert_eq!(trim_end_char("a//", '/'), "a");
    assert_eq!(trim_end_char("//", '/'), "");
}

#[test]
fn finding_and_cutting() {
    assert!(contains_text("abcabd", "abd"));
    assert!(contains_text("abc", ""));
    assert!(!contains_text("ab", "abc"));
    assert!(starts_with("abc", "ab"));
    assert_eq!(strip_prefix("abc", "ab").as_deref(), Some("c"));
    assert_eq!(strip_suffix("a.toml", ".toml").as_deref(), Some("a"));
    assert_eq!(strip_suffix("a", ".toml"), None);
    assert_eq!(tail_after("a://b://c", "://").as_deref(), Some("b://c"));
    assert_eq!(tail_after_first("a/b/c", '/').as_deref(), Some("b/c"));
    assert_eq!(tail_after_last("a/b/c", '/').as_deref(), Some("c"));
    assert_eq!(tail_after_last("abc", '/'), None);
    assert_eq!(replace("aXbXX", "X", "yy"), "ayybyyyy");
    assert_eq!(replace("aaa", "aa", "b"), "ba");
    assert!(equal_but_case("Current", "cURRENT"));
    assert!(!equal_but_case("É", "é"));
}

#[test]
fn splitting_and_joining() {
    let chars: Vec<char> = "a,,b".chars().collect();
    assert_eq!(split(&chars, ','), vec!["a", "", "b"]);
    assert_eq!(split(&Vec::new(), ','), vec![""]);
    assert_eq!(join(&strings(&["a", "b", "c"]), ", "), "a, b, c");
    assert_eq!(join(&Vec::new(), ", "), "");
    assert_eq!(keep_nonempty(strings(&["", "a", ""])), vec!["a"]);
}

#[test]
fn numbers_as_texts() {
    for i in [0, 7, -7, 10, i64::MAX, i64::MIN] {
        assert_eq!(int_text(i), i.to_string());
        assert_eq!(parse_int(&i.to_string()), Some(i));
    }
    assert_eq!(natural_text(u128::MAX), u128::MAX.to_string());
    for s in ["", "-", "+", "+5", "-0", "007", "9223372036854775808", "1 ", "x"] {
        assert_eq!(parse_int(s), s.parse::<i64>().ok(), "{s}");
    }
}

#[test]
fn lines_and_columns() {
    assert_eq!(lines_of("- ", &strings(&["a", "b"])), "- a\n- b\n");
    assert_eq!(named_line("x: ", &Some("y".into())), "x: y\n");
    assert_eq!(named_line("x: ", &None), "");
    assert_eq!(align_left("ab", 4), "ab  ");
    assert_eq!(align_right("ab", 4), "  ab");
    assert_eq!(align_right("abcd", 2), "abcd");
}

#[test]
fn texts_are_sorted_by_code_points() {
    assert_eq!(
        sort_texts(strings(&["b", "a", "é", "B", "ab", ""])),
        vec!["", "B", "a", "ab", "b", "é"]
    );
}

#[test]
fn cycles_are_found() {
    let n = |id: i64, targets: &[i64]| Node {
        id,
        to: targets.to_vec(),
    };
    assert!(find_cycle(&vec![n(1, &[2]), n(2, &[3]), n(3, &[])], 1).is_none());
    let g = vec![n(1, &[2]), n(2, &[1]), n(3, &[3])];
    assert!(find_cycle(&g, 1).is_some());
    assert_eq!(find_cycles(&g).len(), 2);
    assert!(find_cycle(&vec![n(1, &[9])], 1).is_none());
}

#[test]
fn documents_are_read_and_written() {
    let d = read_doc("a = 1\nb = \"x\"\nc = [true]\n[t]\nwhen = 2026-01-01T00:00:00Z\n").unwrap();
    assert_eq!(d.get("a").unwrap().as_integer(), Some(1));
    assert_eq!(d.get("b").unwrap().as_text(), Some("x"));
    assert_eq!(d.get("c").unwrap().as_array().unwrap().len(), 1);
    assert!(d.get("t").unwrap().as_table().is_some());
    assert!(d.get("z").is_none());
    let text = write_doc(d).unwrap();
    assert!(text.contains("when = 2026-01-01T00:00:00Z"), "{text}");
    assert!(read_doc("oops {{{").is_err());
}

#[test]
fn fields_are_put_and_removed() {
    let f = |name: &str, i: i64| Field {
        name: name.into(),
        value: Doc::Integer(i),
    };
    let v = put_field(vec![f("a", 1), f("b", 2)], f("a", 3));
    assert_eq!(v.len(), 2);
    let t = Doc::Table(v);
    assert_eq!(t.get("a").unwrap().as_integer(), Some(3));
    let v = match t {
        Doc::Table(v) => remove_field(v, "a"),
        other => panic!("{other:?}"),
    };
    assert_eq!(v.len(), 1);
}

#[test]
fn the_clock_gives_offsets() {
    let now = now_ts();
    assert!(now.contains('T'), "{now}");
    let a = Instant { secs: 1, nanos: 5 };
    let b = Instant { secs: 1, nanos: 6 };
    assert!(jay::clock::is_earlier(&a, &b));
    assert!(!jay::clock::is_earlier(&b, &a));
}
