use md2typst::document::{
    finalize_document, join_lines, split_lines, write_lines, Document,
};
use md2typst::header::{synthesize, CalendarDate, TransformContext};

const DAY: CalendarDate = CalendarDate { day: 5, month: 3, year: 2024 };

fn strings(items: &[&str]) -> Vec<String> {
    items.iter().map(|s| String::from(*s)).collect()
}

fn written(items: &[&str]) -> String {
    let mut out: Vec<char> = "head:".chars().collect();
    write_lines(&strings(items), &mut out);
    out.into_iter().collect()
}

#[test]
fn text_is_split_at_line_feeds() {
    assert_eq!(split_lines("a\nb\n"), strings(&["a", "b"]));
    assert_eq!(split_lines("a\nb"), strings(&["a", "b"]));
    assert_eq!(split_lines(""), strings(&[]));
    assert_eq!(split_lines("\n"), strings(&[""]));
    assert_eq!(split_lines("\n\n"), strings(&["", ""]));
    assert_eq!(split_lines("a"), strings(&["a"]));
    assert_eq!(split_lines("a\n\nb"), strings(&["a", "", "b"]));
}

#[test]
fn carriage_return_before_a_line_feed_is_dropped() {
    assert_eq!(split_lines("a\r\nb\r\n"), strings(&["a", "b"]));
    assert_eq!(split_lines("a\r\r\nb"), strings(&["a\r", "b"]));
    assert_eq!(split_lines("a\rb\n"), strings(&["a\rb"]));
    assert_eq!(split_lines("a\r"), strings(&["a\r"]));
    assert_eq!(split_lines("\r\n"), strings(&[""]));
    assert_eq!(split_lines("\r"), strings(&["\r"]));
}

#[test]
fn lines_are_those_of_the_standard_library() {
    for input in [
        "", "a", "a\n", "a\nb", "a\r\nb\r\n", "\n\na\n\n", "a\r", "\r\n\r\n", "a\rb\r\n", "é\nü",
    ] {
        let expected: Vec<String> = input.lines().map(String::from).collect();
        assert_eq!(split_lines(input), expected, "on {:?}", input);
    }
}

#[test]
fn lines_are_joined_with_line_feeds_between_them() {
    assert_eq!(join_lines(&strings(&[])), "");
    assert_eq!(join_lines(&strings(&["a"])), "a");
    assert_eq!(join_lines(&strings(&["a", "b"])), "a\nb");
    assert_eq!(join_lines(&strings(&["a", "", "b", ""])), "a\n\nb\n");
    assert_eq!(join_lines(&strings(&[""])), "");
    assert_eq!(join_lines(&strings(&["", ""])), "\n");
}

#[test]
fn lines_are_written_with_a_line_feed_each() {
    assert_eq!(written(&[]), "head:");
    assert_eq!(written(&["a"]), "head:a\n");
    assert_eq!(written(&["a", "", "b"]), "head:a\n\nb\n");
    assert_eq!(written(&[""]), "head:\n");
}

#[test]
fn document_is_read_with_its_stem_and_lines() {
    let document = Document::read("my_report.typ", "a\r\nb\n").unwrap();
    assert_eq!(document.path, "my_report.typ");
    assert_eq!(document.stem, "my_report");
    assert_eq!(document.lines, strings(&["a", "b"]));
    assert_eq!(document.text(), "a\nb");
    assert!(Document::read("", "a").is_none());
    assert!(Document::read("..", "a").is_none());
}

#[test]
fn rewriting_gives_another_document_of_the_same_file() {
    let document = Document::read(
        "notes.typ",
        "systemequation $a$\r\n$b$\nsee #link(\"x.md\")\n",
    )
    .unwrap();
    let rewritten = document.rewritten();
    assert_eq!(rewritten.path, "notes.typ");
    assert_eq!(rewritten.stem, "notes");
    assert_eq!(rewritten.lines, strings(&["$cases(a, b)$", "see #link(\"x.pdf\")"]));
    assert_eq!(document.lines, strings(&["systemequation $a$", "$b$", "see #link(\"x.md\")"]));
    assert_eq!(rewritten.written_after("H\n"), "H\n$cases(a, b)$\nsee #link(\"x.pdf\")\n");
}

#[test]
fn one_empty_line_at_the_end_is_not_written() {
    let header = synthesize(TransformContext::new("a", DAY));
    assert_eq!(finalize_document("a", DAY, "x\n\n"), format!("{}x\n", header));
    assert_eq!(finalize_document("a", DAY, "x\n\n\n"), format!("{}x\n\n", header));
    assert_eq!(finalize_document("a", DAY, "\n"), header);
    assert_eq!(finalize_document("a", DAY, "x\n\ny\n"), format!("{}x\n\ny\n", header));
}

#[test]
fn document_is_header_and_rewritten_lines() {
    let text = "= Title\r\nsystemequation $x+y=1$\n$x-y=2$\nsee #link(\"other%20notes.md\")\n\\#pagebreak";
    let document = finalize_document("my_report", DAY, text);
    let header = synthesize(TransformContext::new("my_report", DAY));
    let body = "= Title\n$cases(x+y=1, x-y=2)$\nsee #link(\"other notes.pdf\")\n#pagebreak\n";
    assert_eq!(document, format!("{}{}", header, body));
}

#[test]
fn document_of_an_empty_text_is_the_header() {
    let header = synthesize(TransformContext::new("a", DAY));
    assert_eq!(finalize_document("a", DAY, ""), header);
}
