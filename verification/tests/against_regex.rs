use md2typst::rules::{apply_rule, Rule};
use regex::{Captures, Regex};

fn apply(rule: Rule, s: &str) -> String {
    let chars: Vec<char> = s.chars().collect();
    apply_rule(rule, &chars).into_iter().collect()
}

/// The regular expressions that the three structural rules stand for.
struct Patterns {
    stacked: Regex,
    inline: Regex,
    link: Regex,
}

impl Patterns {
    fn new() -> Patterns {
        Patterns {
            stacked: Regex::new(r"systemequation \$([^\n\$]*)\$\s*\n\s*\$([^\n\$]*)\$").unwrap(),
            inline: Regex::new(r"systemequation \$([^\n\$]*)\$ \$([^\n\$]*)\$").unwrap(),
            link: Regex::new(r#"#link\("(.*?)\.md"\)"#).unwrap(),
        }
    }

    fn apply(&self, rule: Rule, s: &str) -> String {
        match rule {
            Rule::StackedEquations => self
                .stacked
                .replace_all(s, |caps: &Captures| format!("$cases({}, {})$", &caps[1], &caps[2]))
                .into_owned(),
            Rule::InlineEquations => self
                .inline
                .replace_all(s, |caps: &Captures| format!("$cases({}, {})$", &caps[1], &caps[2]))
                .into_owned(),
            Rule::LinkTarget => self.link.replace_all(s, "#link(\"$1.pdf\")").into_owned(),
            Rule::PageBreak => s.replace("\\#pagebreak", "#pagebreak"),
            Rule::EncodedSpace => s.replace("%20", " "),
        }
    }
}

/// A small generator of texts that are dense in the pieces of the patterns.
struct Texts {
    state: u64,
}

impl Texts {
    fn next(&mut self) -> u64 {
        self.state = self
            .state
            .wrapping_mul(6364136223846793005)
            .wrapping_add(1442695040888963407);
        self.state >> 33
    }

    fn text(&mut self, pieces: &[&str]) -> String {
        let count = self.next() % 9;
        let mut out = String::new();
        for _ in 0..count {
            let index = (self.next() % pieces.len() as u64) as usize;
            out.push_str(pieces[index]);
        }
        out
    }
}

fn compare(rule: Rule, pieces: &[&str], rounds: usize) {
    let patterns = Patterns::new();
    let mut texts = Texts { state: 0x9E3779B97F4A7C15 };
    for _ in 0..rounds {
        let input = texts.text(pieces);
        assert_eq!(apply(rule, &input), patterns.apply(rule, &input), "on {:?}", input);
    }
}

const EQUATION_PIECES: [&str; 14] = [
    "systemequation $",
    "systemequation ",
    "$",
    "$",
    " ",
    "\n",
    "\r\n",
    "\t",
    "x=1",
    "y",
    "|",
    "\u{a0}",
    "$ $",
    "$\n$",
];

const LINK_PIECES: [&str; 12] = [
    "#link(\"",
    "#link(\"",
    ".md\")",
    ".md\")",
    ".md",
    "\")",
    ".pdf\")",
    "a",
    "b c",
    "\n",
    "#",
    ".",
];

const LITERAL_PIECES: [&str; 12] = [
    "\\#pagebreak",
    "\\",
    "#pagebreak",
    "\\#page",
    "break",
    "%20",
    "%",
    "2",
    "0",
    "%2",
    " ",
    "\n",
];

#[test]
fn stacked_equations_agree_with_the_regular_expression() {
    compare(Rule::StackedEquations, &EQUATION_PIECES, 20000);
}

#[test]
fn inline_equations_agree_with_the_regular_expression() {
    compare(Rule::InlineEquations, &EQUATION_PIECES, 20000);
}

#[test]
fn link_targets_agree_with_the_regular_expression() {
    compare(Rule::LinkTarget, &LINK_PIECES, 20000);
}

#[test]
fn page_breaks_agree_with_the_replacement_of_the_literal() {
    compare(Rule::PageBreak, &LITERAL_PIECES, 20000);
}

#[test]
fn encoded_spaces_agree_with_the_replacement_of_the_literal() {
    compare(Rule::EncodedSpace, &LITERAL_PIECES, 20000);
}

#[test]
fn rules_agree_with_the_regular_expressions_on_a_document() {
    let document = "= Notes\n\nsystemequation $x+y=1$\n$x-y=2$\n\nsee #link(\"other%20notes.md\") \
        and #link(\"image.png\")\n\\#pagebreak\nsystemequation $a$ $b$\n";
    let patterns = Patterns::new();
    for rule in [
        Rule::StackedEquations,
        Rule::InlineEquations,
        Rule::LinkTarget,
        Rule::PageBreak,
        Rule::EncodedSpace,
    ] {
        assert_eq!(apply(rule, document), patterns.apply(rule, document));
    }
}

fn rewrite_by_regex(patterns: &Patterns, s: &str) -> String {
    let mut text = String::from(s);
    for rule in [
        Rule::StackedEquations,
        Rule::InlineEquations,
        Rule::LinkTarget,
        Rule::PageBreak,
        Rule::EncodedSpace,
    ] {
        text = patterns.apply(rule, &text);
    }
    text
}

const DOCUMENT_PIECES: [&str; 16] = [
    "systemequation $",
    "$",
    "$ $",
    "$\n$",
    "x=1",
    " ",
    "\n",
    "#link(\"",
    ".md\")",
    "notes",
    "\\#pagebreak",
    "\\",
    "%20",
    "%2",
    "0",
    ".png\")",
];

#[test]
fn rewriter_agrees_with_the_regular_expressions_in_its_order() {
    let patterns = Patterns::new();
    let mut texts = Texts { state: 0x2545F4914F6CDD1D };
    for _ in 0..20000 {
        let input = texts.text(&DOCUMENT_PIECES);
        assert_eq!(
            md2typst::rewrite::rewrite(&input),
            rewrite_by_regex(&patterns, &input),
            "on {:?}",
            input
        );
    }
}
