use md2typst::rewrite::{apply_line_rules, expand_equations, rewrite, rewrite_chars};
use md2typst::rules::{apply_rule, Rule};

fn chars(s: &str) -> Vec<char> {
    s.chars().collect()
}

fn text(v: Vec<char>) -> String {
    v.into_iter().collect()
}

fn apply(rule: Rule, s: &str) -> String {
    text(apply_rule(rule, &chars(s)))
}

#[test]
fn stacked_equations_become_cases() {
    assert_eq!(rewrite("systemequation $x+y=1$\n$x-y=2$"), "$cases(x+y=1, x-y=2)$");
}

#[test]
fn inline_equations_become_cases() {
    assert_eq!(rewrite("systemequation $x+y=1$ $x-y=2$"), "$cases(x+y=1, x-y=2)$");
}

#[test]
fn stacked_equations_allow_white_space_around_the_line_break() {
    assert_eq!(
        rewrite("before systemequation $a$ \t\r\n   $b$ after"),
        "before $cases(a, b)$ after"
    );
    assert_eq!(rewrite("systemequation $a$\n\n\n$b$"), "$cases(a, b)$");
    assert_eq!(rewrite("systemequation $a$\u{a0}\n\u{2003}$b$"), "$cases(a, b)$");
}

#[test]
fn equations_need_their_separator() {
    assert_eq!(rewrite("systemequation $a$$b$"), "systemequation $a$$b$");
    assert_eq!(rewrite("systemequation $a$  $b$"), "systemequation $a$  $b$");
    assert_eq!(rewrite("systemequation $a$\t$b$"), "systemequation $a$\t$b$");
    assert_eq!(rewrite("systemequation $a$\nx$b$"), "systemequation $a$\nx$b$");
}

#[test]
fn equations_hold_no_line_break() {
    assert_eq!(rewrite("systemequation $a\nb$\n$c$"), "systemequation $a\nb$\n$c$");
    assert_eq!(rewrite("systemequation $a$\n$b\nc$"), "systemequation $a$\n$b\nc$");
}

#[test]
fn equations_may_hold_a_bar_and_may_be_empty() {
    assert_eq!(rewrite("systemequation $|x|=1$\n$y=|z|$"), "$cases(|x|=1, y=|z|)$");
    assert_eq!(rewrite("systemequation $$\n$$"), "$cases(, )$");
    assert_eq!(rewrite("systemequation $$ $$"), "$cases(, )$");
}

#[test]
fn marker_needs_its_space_and_dollar() {
    assert_eq!(rewrite("systemequation$a$\n$b$"), "systemequation$a$\n$b$");
    assert_eq!(rewrite("systemequation a\n$b$"), "systemequation a\n$b$");
    assert_eq!(rewrite("Systemequation $a$\n$b$"), "Systemequation $a$\n$b$");
}

#[test]
fn a_third_equation_is_left_alone() {
    assert_eq!(
        rewrite("systemequation $a$\n$b$\n$c$\n"),
        "$cases(a, b)$\n$c$\n"
    );
}

#[test]
fn several_systems_are_each_expanded() {
    assert_eq!(
        rewrite("systemequation $a$\n$b$\ntext\nsystemequation $c$ $d$\nsystemequation $e$\n$f$"),
        "$cases(a, b)$\ntext\n$cases(c, d)$\n$cases(e, f)$"
    );
}

#[test]
fn stacked_form_is_expanded_before_the_inline_form() {
    // The stacked pass turns the second system into `$cases(b, c)$`; the
    // first `$` of that then closes the inline system that begins the text.
    assert_eq!(
        text(expand_equations(&chars("systemequation $a$ $systemequation $b$\n$c$"))),
        "$cases(a, )$cases(b, c)$"
    );
}

#[test]
fn equations_are_expanded_before_spaces_are_decoded() {
    assert_eq!(rewrite("systemequation $a$%20$b$"), "systemequation $a$ $b$");
    assert_eq!(rewrite("systemequation $a%20b$ $c$"), "$cases(a b, c)$");
}

#[test]
fn markdown_link_is_retargeted() {
    assert_eq!(rewrite("#link(\"notes.md\")"), "#link(\"notes.pdf\")");
    assert_eq!(
        rewrite("see #link(\"a/b/notes.md\")[the notes]."),
        "see #link(\"a/b/notes.pdf\")[the notes]."
    );
}

#[test]
fn other_link_targets_are_kept() {
    assert_eq!(rewrite("#link(\"figure.png\")"), "#link(\"figure.png\")");
    assert_eq!(rewrite("#link(\"notes.md\" )"), "#link(\"notes.md\" )");
    assert_eq!(rewrite("#link(\"notes.MD\")"), "#link(\"notes.MD\")");
    assert_eq!(rewrite("link(\"notes.md\")"), "link(\"notes.md\")");
    assert_eq!(rewrite("\"notes.md\")"), "\"notes.md\")");
}

#[test]
fn every_markdown_link_of_a_line_is_retargeted() {
    assert_eq!(
        rewrite("#link(\"a.md\") #link(\"b.png\") #link(\"c.md\")\n#link(\"d.md\")"),
        "#link(\"a.pdf\") #link(\"b.png\") #link(\"c.pdf\")\n#link(\"d.pdf\")"
    );
}

#[test]
fn link_target_does_not_cross_a_line_break() {
    assert_eq!(rewrite("#link(\"a\n.md\")"), "#link(\"a\n.md\")");
    assert_eq!(rewrite("#link(\"a\nb.md\")"), "#link(\"a\nb.md\")");
}

#[test]
fn link_target_ends_at_the_first_markdown_suffix() {
    assert_eq!(
        apply(Rule::LinkTarget, "#link(\"a.md\").md\")"),
        "#link(\"a.pdf\").md\")"
    );
    assert_eq!(apply(Rule::LinkTarget, "#link(\".md\")"), "#link(\".pdf\")");
}

#[test]
fn escaped_pagebreak_is_unescaped() {
    assert_eq!(rewrite("\\#pagebreak"), "#pagebreak");
    assert_eq!(
        rewrite("a\n\\#pagebreak\nb \\#pagebreak()\n"),
        "a\n#pagebreak\nb #pagebreak()\n"
    );
    assert_eq!(rewrite("#pagebreak"), "#pagebreak");
    assert_eq!(rewrite("\\#pagebrea"), "\\#pagebrea");
}

#[test]
fn escaped_pagebreak_loses_one_backslash_only() {
    assert_eq!(rewrite("\\\\#pagebreak"), "\\#pagebreak");
    assert_eq!(rewrite(&rewrite("\\\\#pagebreak")), "#pagebreak");
}

#[test]
fn encoded_spaces_are_decoded() {
    assert_eq!(rewrite("%20"), " ");
    assert_eq!(rewrite("a%20b%20%20c"), "a b  c");
    assert_eq!(
        rewrite("a%20b #link(\"my%20notes.md\")"),
        "a b #link(\"my notes.pdf\")"
    );
    assert_eq!(rewrite("%2%200"), "%2 0");
    assert_eq!(rewrite("100%"), "100%");
    assert_eq!(rewrite("%2"), "%2");
}

#[test]
fn rules_leave_other_text_alone() {
    let plain = "= Title\n\nSome *text* with $x^2$ and a #emph[call].\n";
    assert_eq!(rewrite(plain), plain);
    assert_eq!(rewrite(""), "");
    assert_eq!(rewrite("\n"), "\n");
    assert_eq!(rewrite("é\u{1F600}%20ü"), "é\u{1F600} ü");
}

#[test]
fn line_rules_twice_are_line_rules_once() {
    let inputs = [
        "#link(\"a.md\") and #link(\"b%20c.md\")\n\\#pagebreak\nx%20y",
        "plain",
        "",
        "%20%20%20",
        "#link(\"a.png\") #link(\"b.md\")",
    ];
    for input in inputs {
        let once = apply_line_rules(&chars(input));
        let twice = apply_line_rules(&once);
        assert_eq!(twice, once);
    }
}

#[test]
fn line_rules_twice_may_differ_where_a_pattern_is_left() {
    let once = apply_line_rules(&chars("#link(\"#link(\"a.md\").md\")"));
    assert_eq!(text(once.clone()), "#link(\"#link(\"a.pdf\").md\")");
    let twice = apply_line_rules(&once);
    assert_eq!(text(twice), "#link(\"#link(\"a.pdf\").pdf\")");
}

#[test]
fn each_occurrence_of_a_literal_is_replaced_once() {
    let before = "a\\#page %2 ";
    let after = " z%20\\#pagebreak";
    for (rule, pattern, replacement) in [
        (Rule::PageBreak, "\\#pagebreak", "#pagebreak"),
        (Rule::EncodedSpace, "%20", " "),
    ] {
        let whole = format!("{}{}{}", before, pattern, after);
        let parts = format!("{}{}{}", apply(rule, before), replacement, apply(rule, after));
        assert_eq!(apply(rule, &whole), parts);
    }
}

#[test]
fn rewrite_of_characters_agrees_with_rewrite_of_strings() {
    let input = "systemequation $a$\n$b$\n#link(\"x%20y.md\")\n\\#pagebreak\n";
    assert_eq!(text(rewrite_chars(&chars(input))), rewrite(input));
    assert_eq!(
        rewrite(input),
        "$cases(a, b)$\n#link(\"x y.pdf\")\n#pagebreak\n"
    );
}

#[test]
fn line_rules_work_line_by_line() {
    let lines = [
        "see #link(\"a%20b.md\") and \\#pagebreak",
        "",
        "#link(\"open",
        ".md\") closed%20late",
        "systemequation $a$ $b$",
    ];
    let whole = lines.join("\n");
    for rule in [Rule::InlineEquations, Rule::LinkTarget, Rule::PageBreak, Rule::EncodedSpace] {
        let by_line: Vec<String> = lines.iter().map(|line| apply(rule, line)).collect();
        assert_eq!(apply(rule, &whole), by_line.join("\n"));
    }
    let by_line: Vec<String> =
        lines.iter().map(|line| text(apply_line_rules(&chars(line)))).collect();
    assert_eq!(text(apply_line_rules(&chars(&whole))), by_line.join("\n"));
}

#[test]
fn stacked_equations_reach_over_lines() {
    let whole = "systemequation $a$\n$b$";
    let by_line = format!(
        "{}\n{}",
        apply(Rule::StackedEquations, "systemequation $a$"),
        apply(Rule::StackedEquations, "$b$")
    );
    assert_eq!(apply(Rule::StackedEquations, whole), "$cases(a, b)$");
    assert_eq!(by_line, whole);
}

#[test]
fn plain_links_and_single_escapes_come_to_rest_at_once() {
    let inputs = [
        "#link(\"a.md\")[A], #link(\"b%20c.md\")[B] and #link(\"d.png\")\n\\#pagebreak\n",
        "text \\#pagebreak() text %20 #link(\"x/y.md\")",
        "#link(\"a.md\")#link(\"b.md\")",
    ];
    for input in inputs {
        let once = apply_line_rules(&chars(input));
        assert_eq!(apply_line_rules(&once), once, "on {:?}", input);
        assert!(!text(once.clone()).contains(".md\")"));
        assert!(!text(once).contains("\\#pagebreak"));
    }
}

#[test]
fn systems_of_equations_leave_their_marker_and_delimiters() {
    for (a, gap, b) in [
        ("x+y=1", "\n", "x-y=2"),
        ("x", " ", "y"),
        ("", " \r\n\t", ""),
        ("systemequation ", "\n\n", "a b"),
        ("cases(1, 2)", " ", ", "),
    ] {
        let input = format!("systemequation ${}${}${}$", a, gap, b);
        let output = text(expand_equations(&chars(&input)));
        assert_eq!(output, format!("$cases({}, {})$", a, b));
        assert_eq!(output.matches('$').count(), 2);
        assert_eq!(output.matches("$cases(").count(), 1);
        assert!(!output.contains("systemequation $"));
    }
}
