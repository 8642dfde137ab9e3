use jay::doc::{complete_text, read_doc, write_doc, Doc, Field};

fn field(name: &str, value: Doc) -> Field {
    Field {
        name: name.into(),
        value,
    }
}

fn text(s: &str) -> Doc {
    Doc::Text(s.into())
}

/// Writes a document and reads it again.
fn there_and_back(d: Doc) -> (String, String, String) {
    let before = format!("{d:?}");
    let written = write_doc(d).unwrap();
    let after = format!("{:?}", read_doc(&written).unwrap());
    (before, written, after)
}

#[test]
fn documents_are_written_as_toml() {
    let (before, written, after) = there_and_back(Doc::Table(vec![
        field("id", Doc::Integer(-7)),
        field("ok", Doc::Boolean(true)),
        field("title", text("first")),
    ]));
    assert_eq!(written, "id = -7\nok = true\ntitle = \"first\"\n");
    assert_eq!(before, after);
}

#[test]
fn texts_read_back_as_they_were_written() {
    let quotes = "'".repeat(40) + &"\"".repeat(40);
    for s in [
        "",
        "plain",
        "tab\there",
        "\nleading newline",
        "two\nlines\n",
        "carriage\rreturn\r\n",
        "back\\slash",
        "trailing backslash\\",
        "backslash before newline\\\nnext",
        "backslash before newline\\\nand a bell\u{7}",
        "\"double\" and 'single'",
        "ends with two\"\"",
        "ends with two''\n''",
        "'''\n\"\"\"",
        "\u{0}\u{1}\u{1f}\u{7f}",
        "äöü 漢字 🐦",
        quotes.as_str(),
    ] {
        let (before, written, after) = there_and_back(Doc::Table(vec![
            field("list", Doc::Array(vec![text(s), text("x")])),
            field("one", text(s)),
        ]));
        assert_eq!(before, after, "{written}");
    }
}

#[test]
fn keys_read_back_as_they_were_written() {
    for name in ["", "a.b", "with space", "quote\"d", "it's", "new\nline", "ä", "back\\slash"] {
        let (before, written, after) = there_and_back(Doc::Table(vec![field(
            name,
            Doc::Table(vec![field(name, Doc::Integer(1))]),
        )]));
        assert_eq!(before, after, "{written}");
    }
}

#[test]
fn nested_tables_and_arrays_read_back() {
    let inner = || Doc::Table(vec![field("x", Doc::Integer(1)), field("y", Doc::Array(vec![]))]);
    let (before, written, after) = there_and_back(Doc::Table(vec![
        field("a", Doc::Table(vec![])),
        field("b", Doc::Array(vec![])),
        field("c", Doc::Array(vec![inner(), Doc::Table(vec![])])),
        field("d", Doc::Array(vec![inner(), Doc::Integer(2)])),
        field("e", Doc::Array(vec![Doc::Array(vec![inner()]), Doc::Array(vec![])])),
        field("f", Doc::Table(vec![field("g", Doc::Table(vec![field("h", inner())]))])),
        field(
            "i",
            Doc::Array(vec![Doc::Table(vec![
                field("j", Doc::Array(vec![inner()])),
                field("k", Doc::Integer(3)),
            ])]),
        ),
        field("z", Doc::Integer(4)),
    ]));
    assert_eq!(before, after, "{written}");
}

#[test]
fn what_nests_to_the_stated_depth_reads_back() {
    let mut array = Doc::Integer(1);
    for _ in 0..jay::doc::NESTING - 1 {
        array = Doc::Array(vec![array]);
    }
    let (before, _, after) = there_and_back(Doc::Table(vec![field("a", array)]));
    assert_eq!(before, after);
    let mut table = Doc::Integer(1);
    for _ in 0..jay::doc::NESTING {
        table = Doc::Table(vec![field("t", table)]);
    }
    let (before, _, after) = there_and_back(table);
    assert_eq!(before, after);
}

#[test]
fn what_is_no_table_is_refused() {
    assert!(write_doc(Doc::Integer(1)).is_err());
    assert!(read_doc("a = ").is_err());
}

#[test]
fn numbers_with_a_fraction_and_dates_are_kept() {
    let t = "at = 2026-01-02T03:04:05Z\nhours = 1.5\n";
    assert_eq!(write_doc(read_doc(t).unwrap()).unwrap(), t);
}

#[test]
fn long_runs_of_quote_marks_are_written() {
    for q in ["'", "\""] {
        for n in [1, 2, 3, 254, 255, 256, 257, 600] {
            let run = q.repeat(n);
            for t in ["", "a", "\n", "\\", "\r", "\\\n"] {
                for s in [format!("{run}{t}"), format!("{t}{run}"), format!("{run}{t}{run}")] {
                    let inner = Doc::Table(vec![field("y", text(&s))]);
                    let (before, written, after) = there_and_back(Doc::Table(vec![
                        field("a", Doc::Array(vec![text(&s), inner])),
                        field("b", Doc::Table(vec![field(&s, text(&s))])),
                    ]));
                    assert_eq!(before, after, "{written}");
                }
            }
        }
    }
}

#[test]
fn every_number_and_date_reads_back() {
    for v in [
        "0.1",
        "-0.0",
        "1e300",
        "5e-324",
        "3.0",
        "inf",
        "-inf",
        "nan",
        "-nan",
        "1979-05-27",
        "07:32:00",
        "07:32:00.999999",
        "1979-05-27T07:32:00",
        "1979-05-27 07:32:00Z",
        "1979-05-27T00:32:00.5-07:00",
    ] {
        let d = read_doc(&format!("v = {v}\n")).unwrap();
        let (before, written, after) = there_and_back(d);
        assert_eq!(before.replace("-NaN", "NaN"), after.replace("-NaN", "NaN"), "{written}");
    }
}

#[test]
fn completing_a_text_adds_what_it_lacks() {
    let out = complete_text("a = 1\n", "a = 2\nb = 0.5\nc = 3\n", &["a", "c"]).unwrap();
    assert_eq!(out, "a = 1\nb = 0.5\n");
    assert!(complete_text("a = ", "b = 1\n", &[]).is_err());
    assert!(complete_text("a = 1\n", "b = ", &[]).is_err());
}
