//! The rewrite rules and what each of them means.
//!
//! A rule looks at the text from one position on and either matches a prefix
//! of it, which it replaces, or does not match. Applying a rule walks the text
//! from left to right: where the rule matches, the replacement is written and
//! the walk goes on behind the match; elsewhere one character is copied.

use crate::text::{
    append_chars, append_range, char_is_space, chars_of, has_at, is_space, starts_with,
};
use vstd::prelude::*;

verus! {

/// The rewrite rules.
#[derive(Clone, Copy, Debug, PartialEq, Eq, Structural)]
pub enum Rule {
    /// `systemequation $A$`, a line break among white space, `$B$`
    /// becomes `$cases(A, B)$`.
    StackedEquations,
    /// `systemequation $A$ $B$` on one line becomes `$cases(A, B)$`.
    InlineEquations,
    /// `#link("X.md")` becomes `#link("X.pdf")`.
    LinkTarget,
    /// `\#pagebreak` becomes `#pagebreak`.
    PageBreak,
    /// `%20` becomes a space.
    EncodedSpace,
}

/// What a rule does at a position where it matches: the number of characters
/// it takes and the characters it writes in their place.
pub struct Rewrite {
    pub consumed: nat,
    pub replacement: Seq<char>,
}

/// The marker that opens a system of two equations, with the `$` that opens
/// the first equation.
pub open spec fn equation_marker() -> Seq<char> {
    "systemequation $"@
}

/// The delimiter of an equation.
pub open spec fn dollar() -> Seq<char> {
    "$"@
}

/// What opens the `cases` expression.
pub open spec fn cases_open() -> Seq<char> {
    "$cases("@
}

/// What stands between the two branches of the `cases` expression.
pub open spec fn cases_between() -> Seq<char> {
    ", "@
}

/// What closes the `cases` expression.
pub open spec fn cases_close() -> Seq<char> {
    ")$"@
}

/// What opens a link, up to the quotation mark before its target.
pub open spec fn link_open() -> Seq<char> {
    "#link(\""@
}

/// What closes a link to a Markdown file: the extension, the quotation mark
/// behind the target and the bracket.
pub open spec fn link_close_markdown() -> Seq<char> {
    ".md\")"@
}

/// What closes a link to the compiled document.
pub open spec fn link_close_document() -> Seq<char> {
    ".pdf\")"@
}

/// The page break as the converter escapes it.
pub open spec fn escaped_pagebreak() -> Seq<char> {
    "\\#pagebreak"@
}

/// The page break as the compiler reads it.
pub open spec fn pagebreak() -> Seq<char> {
    "#pagebreak"@
}

/// A space as it is encoded in a link target.
pub open spec fn encoded_space() -> Seq<char> {
    "%20"@
}

/// A space.
pub open spec fn space() -> Seq<char> {
    " "@
}

/// The offset of the first occurrence of `pat` in `s` that no line break
/// precedes, if there is one.
pub open spec fn find_on_line(s: Seq<char>, pat: Seq<char>) -> Option<nat>
    decreases s.len(),
{
    if starts_with(s, pat) {
        Some(0)
    } else if s.len() == 0 || s[0] == '\n' {
        None
    } else {
        match find_on_line(s.skip(1), pat) {
            Some(k) => Some(k + 1),
            None => None,
        }
    }
}

/// The number of white-space characters that `s` begins with.
pub open spec fn space_run(s: Seq<char>) -> nat
    decreases s.len(),
{
    if s.len() > 0 && is_space(s[0]) {
        1 + space_run(s.skip(1))
    } else {
        0
    }
}

/// The length of the separator that `s` begins with, where a `$` follows it.
/// Between stacked equations the separator is a run of white space that
/// holds a line break; between equations on one line it is one space.
pub open spec fn separator(s: Seq<char>, stacked: bool) -> Option<nat> {
    if stacked {
        let w = space_run(s);
        if w < s.len() && s[w as int] == '$' && s.take(w as int).contains('\n') {
            Some(w)
        } else {
            None
        }
    } else {
        if s.len() >= 2 && s[0] == ' ' && s[1] == '$' {
            Some(1)
        } else {
            None
        }
    }
}

/// Where the parts of two equations lie, counted from the marker: the
/// length of the first equation, of the separator and of the second equation.
pub struct EquationPair {
    pub first_len: nat,
    pub gap_len: nat,
    pub second_len: nat,
}

impl EquationPair {
    /// The index at which the first equation begins.
    pub open spec fn first_start(self) -> int {
        equation_marker().len() as int
    }

    /// The index at which the second equation begins.
    pub open spec fn second_start(self) -> int {
        self.first_start() + self.first_len + 1 + self.gap_len + 1
    }

    /// The index behind the `$` that closes the second equation.
    pub open spec fn end(self) -> int {
        self.second_start() + self.second_len + 1
    }

    /// The first equation.
    pub open spec fn first(self, s: Seq<char>) -> Seq<char> {
        s.subrange(self.first_start(), self.first_start() + self.first_len)
    }

    /// The second equation.
    pub open spec fn second(self, s: Seq<char>) -> Seq<char> {
        s.subrange(self.second_start(), self.second_start() + self.second_len)
    }
}

/// Two equations at the start of `s`: the marker, the first equation between
/// `$`, the separator, the second equation between `$`. An equation holds
/// neither `$` nor a line break.
pub open spec fn equation_pair(s: Seq<char>, stacked: bool) -> Option<EquationPair> {
    if starts_with(s, equation_marker()) {
        let first = equation_marker().len() as int;
        match find_on_line(s.skip(first), dollar()) {
            None => None,
            Some(a) => {
                let gap = first + a + 1;
                match separator(s.skip(gap), stacked) {
                    None => None,
                    Some(w) => {
                        let second = gap + w + 1;
                        match find_on_line(s.skip(second), dollar()) {
                            None => None,
                            Some(b) => Some(
                                EquationPair { first_len: a, gap_len: w, second_len: b },
                            ),
                        }
                    },
                }
            },
        }
    } else {
        None
    }
}

/// A match of two equations at the start of `s`, which become the two
/// branches of one `cases` expression.
pub open spec fn equations_match(s: Seq<char>, stacked: bool) -> Option<Rewrite> {
    match equation_pair(s, stacked) {
        Some(pair) => Some(
            Rewrite {
                consumed: pair.end() as nat,
                replacement: cases_open() + pair.first(s) + cases_between() + pair.second(s)
                    + cases_close(),
            },
        ),
        None => None,
    }
}

/// A match of a link to a Markdown file at the start of `s`: the target runs
/// up to the first `.md")` on the line.
pub open spec fn link_match(s: Seq<char>) -> Option<Rewrite> {
    if starts_with(s, link_open()) {
        let target = s.skip(link_open().len() as int);
        match find_on_line(target, link_close_markdown()) {
            None => None,
            Some(k) => Some(
                Rewrite {
                    consumed: link_open().len() + k + link_close_markdown().len(),
                    replacement: link_open() + target.take(k as int) + link_close_document(),
                },
            ),
        }
    } else {
        None
    }
}

/// A match of the literal `pat` at the start of `s`.
pub open spec fn literal_match(s: Seq<char>, pat: Seq<char>, replacement: Seq<char>) -> Option<
    Rewrite,
> {
    if starts_with(s, pat) {
        Some(Rewrite { consumed: pat.len(), replacement })
    } else {
        None
    }
}

impl Rule {
    /// What the rule does at the start of `s`, if it matches there.
    pub open spec fn match_prefix(self, s: Seq<char>) -> Option<Rewrite> {
        match self {
            Rule::StackedEquations => equations_match(s, true),
            Rule::InlineEquations => equations_match(s, false),
            Rule::LinkTarget => link_match(s),
            Rule::PageBreak => literal_match(s, escaped_pagebreak(), pagebreak()),
            Rule::EncodedSpace => literal_match(s, encoded_space(), space()),
        }
    }

    /// Whether the rule matches at the start of `s`. A match always takes at
    /// least one character and never more than there are.
    pub open spec fn matches_prefix(self, s: Seq<char>) -> bool {
        match self.match_prefix(s) {
            Some(m) => 0 < m.consumed <= s.len(),
            None => false,
        }
    }
}

/// The text that a rule makes of `s`.
pub open spec fn apply(rule: Rule, s: Seq<char>) -> Seq<char>
    decreases s.len(),
{
    if s.len() == 0 {
        s
    } else if rule.matches_prefix(s) {
        let m = rule.match_prefix(s)->0;
        m.replacement + apply(rule, s.skip(m.consumed as int))
    } else {
        seq![s[0]] + apply(rule, s.skip(1))
    }
}

/// Where `find_on_line` finds `pat`, it stands there, inside `s`.
pub proof fn lemma_find_on_line_bounds(s: Seq<char>, pat: Seq<char>)
    ensures
        find_on_line(s, pat) matches Some(k) ==> k + pat.len() <= s.len() && starts_with(
            s.skip(k as int),
            pat,
        ),
    decreases s.len(),
{
    if starts_with(s, pat) {
        assert(s.skip(0) =~= s);
    } else if s.len() == 0 || s[0] == '\n' {
    } else {
        lemma_find_on_line_bounds(s.skip(1), pat);
        if let Some(k) = find_on_line(s.skip(1), pat) {
            assert(s.skip(1).skip(k as int) =~= s.skip((k + 1) as int));
        }
    }
}

/// What `find_on_line` finds is the first occurrence on the line: neither a
/// line break nor an occurrence stands before it. Where it finds nothing, a
/// line break stands before every occurrence.
pub proof fn lemma_find_on_line_is_first(s: Seq<char>, pat: Seq<char>)
    ensures
        match find_on_line(s, pat) {
            Some(k) => {
                &&& forall|j: int| 0 <= j < k ==> #[trigger] s[j] != '\n'
                &&& forall|j: int| 0 <= j < k ==> !starts_with(#[trigger] s.skip(j), pat)
            },
            None => forall|k: int|
                0 <= k <= s.len() && starts_with(#[trigger] s.skip(k), pat) ==> exists|j: int|
                    0 <= j < k && s[j] == '\n',
        },
    decreases s.len(),
{
    assert(s.skip(0) =~= s);
    if starts_with(s, pat) {
    } else if s.len() == 0 {
        assert forall|k: int| 0 <= k <= s.len() implies !starts_with(#[trigger] s.skip(k), pat) by {
            assert(s.skip(k) =~= s);
        }
    } else if s[0] == '\n' {
    } else {
        let rest = s.skip(1);
        lemma_find_on_line_is_first(rest, pat);
        lemma_find_on_line_bounds(rest, pat);
        match find_on_line(rest, pat) {
            Some(k) => {
                assert forall|j: int| 0 <= j < k + 1 implies #[trigger] s[j] != '\n' by {
                    if j > 0 {
                        assert(rest[j - 1] == s[j]);
                    }
                }
                assert forall|j: int| 0 <= j < k + 1 implies !starts_with(
                    #[trigger] s.skip(j),
                    pat,
                ) by {
                    if j > 0 {
                        assert(rest.skip(j - 1) =~= s.skip(j));
                    }
                }
            },
            None => {
                assert forall|k: int|
                    0 <= k <= s.len() && starts_with(#[trigger] s.skip(k), pat) implies exists|
                    j: int,
                | 0 <= j < k && s[j] == '\n' by {
                    assert(k > 0);
                    assert(rest.skip(k - 1) =~= s.skip(k));
                    let j = choose|j: int| 0 <= j < k - 1 && rest[j] == '\n';
                    assert(s[j + 1] == '\n');
                }
            },
        }
    }
}

/// An occurrence on the line before which neither a line break nor another
/// occurrence stands is the one that `find_on_line` finds.
pub proof fn lemma_find_on_line_finds(s: Seq<char>, pat: Seq<char>, k: int)
    requires
        0 <= k <= s.len(),
        starts_with(s.skip(k), pat),
        forall|j: int| 0 <= j < k ==> #[trigger] s[j] != '\n',
        forall|j: int| 0 <= j < k ==> !starts_with(#[trigger] s.skip(j), pat),
    ensures
        find_on_line(s, pat) == Some(k as nat),
    decreases k,
{
    assert(s.skip(0) =~= s);
    if k > 0 {
        let rest = s.skip(1);
        assert(rest.skip(k - 1) =~= s.skip(k));
        assert forall|j: int| 0 <= j < k - 1 implies #[trigger] rest[j] != '\n' by {
            assert(rest[j] == s[j + 1]);
        }
        assert forall|j: int| 0 <= j < k - 1 implies !starts_with(#[trigger] rest.skip(j), pat) by {
            assert(rest.skip(j) =~= s.skip(j + 1));
        }
        lemma_find_on_line_finds(rest, pat, k - 1);
    }
}

/// A run of white space holds white space only and ends before a character
/// that is none, or with the text.
pub proof fn lemma_space_run_is_maximal(s: Seq<char>)
    ensures
        forall|j: int| 0 <= j < space_run(s) ==> is_space(#[trigger] s[j]),
        space_run(s) < s.len() ==> !is_space(s[space_run(s) as int]),
    decreases s.len(),
{
    if s.len() > 0 && is_space(s[0]) {
        let rest = s.skip(1);
        lemma_space_run_is_maximal(rest);
        lemma_space_run_bounds(rest);
        assert forall|j: int| 0 <= j < space_run(s) implies is_space(#[trigger] s[j]) by {
            if j > 0 {
                assert(rest[j - 1] == s[j]);
            }
        }
    }
}

/// A run of white space is no longer than the text.
pub proof fn lemma_space_run_bounds(s: Seq<char>)
    ensures
        space_run(s) <= s.len(),
    decreases s.len(),
{
    if s.len() > 0 && is_space(s[0]) {
        lemma_space_run_bounds(s.skip(1));
    }
}

/// Two equations that were found lie inside the text.
pub proof fn lemma_equation_pair_bounds(s: Seq<char>, stacked: bool)
    ensures
        equation_pair(s, stacked) matches Some(pair) ==> pair.end() <= s.len(),
{
    reveal_strlit("$");
    if starts_with(s, equation_marker()) {
        let first = equation_marker().len() as int;
        lemma_find_on_line_bounds(s.skip(first), dollar());
        if let Some(a) = find_on_line(s.skip(first), dollar()) {
            let gap = first + a + 1;
            lemma_space_run_bounds(s.skip(gap));
            if let Some(w) = separator(s.skip(gap), stacked) {
                let second = gap + w + 1;
                lemma_find_on_line_bounds(s.skip(second), dollar());
            }
        }
    }
}

/// The match of a rule lies inside the text and is not empty.
pub proof fn lemma_match_bounds(rule: Rule, s: Seq<char>)
    ensures
        rule.match_prefix(s) is Some ==> rule.matches_prefix(s),
{
    reveal_strlit("#link(\"");
    reveal_strlit(".md\")");
    reveal_strlit("\\#pagebreak");
    reveal_strlit("%20");
    match rule {
        Rule::StackedEquations | Rule::InlineEquations => {
            let stacked = rule == Rule::StackedEquations;
            lemma_equation_pair_bounds(s, stacked);
        },
        Rule::LinkTarget => {
            if starts_with(s, link_open()) {
                lemma_find_on_line_bounds(
                    s.skip(link_open().len() as int),
                    link_close_markdown(),
                );
            }
        },
        Rule::PageBreak => {},
        Rule::EncodedSpace => {},
    }
}

/// What the link rule matches is a link to a Markdown file, and what it
/// writes is that link with the extension of the compiled document: the
/// target and all else stay as they are.
pub proof fn lemma_link_match_keeps_target(s: Seq<char>)
    requires
        link_match(s) is Some,
    ensures
        ({
            let m = link_match(s)->0;
            let target = s.subrange(
                link_open().len() as int,
                m.consumed - link_close_markdown().len(),
            );
            &&& m.consumed <= s.len()
            &&& s.take(m.consumed as int) == link_open() + target + link_close_markdown()
            &&& m.replacement == link_open() + target + link_close_document()
        }),
{
    let n = link_open().len() as int;
    let rest = s.skip(n);
    lemma_find_on_line_bounds(rest, link_close_markdown());
    let k = find_on_line(rest, link_close_markdown())->0 as int;
    let c = link_close_markdown().len() as int;
    let target = s.subrange(n, n + k);
    assert(rest.take(k) =~= target);
    assert(rest.skip(k).take(c) =~= s.subrange(n + k, n + k + c));
    assert(s.take(n + k + c) =~= s.take(n) + target + s.subrange(n + k, n + k + c));
}

/// An offset moved right by `by`.
spec fn shifted(found: Option<nat>, by: nat) -> Option<nat> {
    match found {
        Some(k) => Some(k + by),
        None => None,
    }
}

/// The literals of the rules as character vectors.
struct Literals {
    equation_marker: Vec<char>,
    dollar: Vec<char>,
    cases_open: Vec<char>,
    cases_between: Vec<char>,
    cases_close: Vec<char>,
    link_open: Vec<char>,
    link_close_markdown: Vec<char>,
    link_close_document: Vec<char>,
    escaped_pagebreak: Vec<char>,
    pagebreak: Vec<char>,
    encoded_space: Vec<char>,
    space: Vec<char>,
}

impl Literals {
    /// Each vector holds the literal it is named after.
    spec fn wf(&self) -> bool {
        &&& self.equation_marker@ == equation_marker()
        &&& self.dollar@ == dollar()
        &&& self.cases_open@ == cases_open()
        &&& self.cases_between@ == cases_between()
        &&& self.cases_close@ == cases_close()
        &&& self.link_open@ == link_open()
        &&& self.link_close_markdown@ == link_close_markdown()
        &&& self.link_close_document@ == link_close_document()
        &&& self.escaped_pagebreak@ == escaped_pagebreak()
        &&& self.pagebreak@ == pagebreak()
        &&& self.encoded_space@ == encoded_space()
        &&& self.space@ == space()
    }

    /// The literals, each written out once.
    fn new() -> (lits: Literals)
        ensures
            lits.wf(),
    {
        Literals {
            equation_marker: chars_of("systemequation $"),
            dollar: chars_of("$"),
            cases_open: chars_of("$cases("),
            cases_between: chars_of(", "),
            cases_close: chars_of(")$"),
            link_open: chars_of("#link(\""),
            link_close_markdown: chars_of(".md\")"),
            link_close_document: chars_of(".pdf\")"),
            escaped_pagebreak: chars_of("\\#pagebreak"),
            pagebreak: chars_of("#pagebreak"),
            encoded_space: chars_of("%20"),
            space: chars_of(" "),
        }
    }
}

/// Looks for `pat` from index `from` on, up to the end of the line, and
/// returns the index where it stands.
fn find_on_line_at(text: &Vec<char>, from: usize, pat: &Vec<char>) -> (found: Option<usize>)
    requires
        from <= text.len(),
    ensures
        match find_on_line(text@.skip(from as int), pat@) {
            Some(k) => found == Some((from + k) as usize) && from + k + pat.len() <= text.len(),
            None => found is None,
        },
{
    let mut j: usize = from;
    loop
        invariant
            from <= j <= text.len(),
            find_on_line(text@.skip(from as int), pat@) == shifted(
                find_on_line(text@.skip(j as int), pat@),
                (j - from) as nat,
            ),
        decreases text.len() - j,
    {
        proof {
            lemma_find_on_line_bounds(text@.skip(j as int), pat@);
        }
        if has_at(text, j, pat) {
            return Some(j);
        }
        if j >= text.len() || text[j] == '\n' {
            return None;
        }
        assert(text@.skip(j as int).skip(1) =~= text@.skip(j + 1));
        j += 1;
    }
}

/// Looks for the separator of two equations from index `from` on and returns
/// the index of the `$` behind it.
fn separator_at(text: &Vec<char>, from: usize, stacked: bool) -> (found: Option<usize>)
    requires
        from <= text.len(),
    ensures
        match separator(text@.skip(from as int), stacked) {
            Some(w) => found == Some((from + w) as usize) && from + w < text.len(),
            None => found is None,
        },
{
    let ghost s = text@.skip(from as int);
    if stacked {
        let mut j: usize = from;
        let mut line_break: bool = false;
        while j < text.len() && char_is_space(text[j])
            invariant
                from <= j <= text.len(),
                space_run(text@.skip(from as int)) == (j - from) + space_run(text@.skip(j as int)),
                line_break <==> exists|k: int| from <= k < j && text@[k] == '\n',
            decreases text.len() - j,
        {
            if text[j] == '\n' {
                line_break = true;
            }
            assert(text@.skip(j as int).skip(1) =~= text@.skip(j + 1));
            j += 1;
        }
        let ghost w = (j - from) as nat;
        assert(space_run(s) == w);
        proof {
            if line_break {
                let k = choose|k: int| from <= k < j && text@[k] == '\n';
                assert(s.take(w as int)[k - from] == '\n');
            }
            if s.take(w as int).contains('\n') {
                let i = choose|i: int| 0 <= i < w && s.take(w as int)[i] == '\n';
                assert(text@[from + i] == '\n');
            }
        }
        if j < text.len() && text[j] == '$' && line_break {
            Some(j)
        } else {
            None
        }
    } else {
        if text.len() - from >= 2 && text[from] == ' ' && text[from + 1] == '$' {
            Some(from + 1)
        } else {
            None
        }
    }
}

/// Looks for two equations at index `at` and returns where the first one
/// begins and ends and where the second one begins and ends.
fn locate_equations(lits: &Literals, text: &Vec<char>, at: usize, stacked: bool) -> (found:
    Option<(usize, usize, usize, usize)>)
    requires
        lits.wf(),
        at <= text.len(),
    ensures
        match equation_pair(text@.skip(at as int), stacked) {
            Some(pair) => found == Some(
                (
                    (at + pair.first_start()) as usize,
                    (at + pair.first_start() + pair.first_len) as usize,
                    (at + pair.second_start()) as usize,
                    (at + pair.second_start() + pair.second_len) as usize,
                ),
            ) && at + pair.end() <= text.len(),
            None => found is None,
        },
{
    let ghost s = text@.skip(at as int);
    proof {
        reveal_strlit("$");
    }
    if !has_at(text, at, &lits.equation_marker) {
        return None;
    }
    let first: usize = at + lits.equation_marker.len();
    assert(s.skip(first - at) =~= text@.skip(first as int));
    let close_first: usize = match find_on_line_at(text, first, &lits.dollar) {
        Some(k) => k,
        None => {
            return None;
        },
    };
    let gap: usize = close_first + 1;
    assert(s.skip(gap - at) =~= text@.skip(gap as int));
    let open_second: usize = match separator_at(text, gap, stacked) {
        Some(k) => k,
        None => {
            return None;
        },
    };
    let second: usize = open_second + 1;
    assert(s.skip(second - at) =~= text@.skip(second as int));
    match find_on_line_at(text, second, &lits.dollar) {
        Some(close_second) => Some((first, close_first, second, close_second)),
        None => None,
    }
}

/// Tries to match two equations at index `at`. On a match, writes what
/// replaces them to `out` and returns the index behind the match.
fn equations_at(
    lits: &Literals,
    text: &Vec<char>,
    at: usize,
    stacked: bool,
    out: &mut Vec<char>,
) -> (end: Option<usize>)
    requires
        lits.wf(),
        at <= text.len(),
    ensures
        match equations_match(text@.skip(at as int), stacked) {
            Some(m) => end == Some((at + m.consumed) as usize) && at + m.consumed <= text.len()
                && final(out)@ == old(out)@ + m.replacement,
            None => end is None && final(out)@ == old(out)@,
        },
{
    match locate_equations(lits, text, at, stacked) {
        None => None,
        Some((first, close_first, second, close_second)) => {
            let ghost s = text@.skip(at as int);
            let ghost pair = equation_pair(s, stacked)->0;
            assert(pair.first(s) =~= text@.subrange(first as int, close_first as int));
            assert(pair.second(s) =~= text@.subrange(second as int, close_second as int));
            append_chars(out, &lits.cases_open);
            append_range(out, text, first, close_first);
            append_chars(out, &lits.cases_between);
            append_range(out, text, second, close_second);
            append_chars(out, &lits.cases_close);
            Some(close_second + 1)
        },
    }
}

/// Tries to match a link to a Markdown file at index `at`. On a match, writes
/// what replaces it to `out` and returns the index behind the match.
fn link_at(lits: &Literals, text: &Vec<char>, at: usize, out: &mut Vec<char>) -> (end: Option<
    usize,
>)
    requires
        lits.wf(),
        at <= text.len(),
    ensures
        match link_match(text@.skip(at as int)) {
            Some(m) => end == Some((at + m.consumed) as usize) && at + m.consumed <= text.len()
                && final(out)@ == old(out)@ + m.replacement,
            None => end is None && final(out)@ == old(out)@,
        },
{
    let ghost s = text@.skip(at as int);
    if !has_at(text, at, &lits.link_open) {
        return None;
    }
    let target: usize = at + lits.link_open.len();
    assert(s.skip(link_open().len() as int) =~= text@.skip(target as int));
    let close: usize = match find_on_line_at(text, target, &lits.link_close_markdown) {
        Some(k) => k,
        None => {
            return None;
        },
    };
    let ghost k = (close - target) as nat;
    assert(text@.skip(target as int).take(k as int) =~= text@.subrange(
        target as int,
        close as int,
    ));
    append_chars(out, &lits.link_open);
    append_range(out, text, target, close);
    append_chars(out, &lits.link_close_document);
    Some(close + lits.link_close_markdown.len())
}

/// Tries to match the literal `pat` at index `at`. On a match, writes
/// `replacement` to `out` and returns the index behind the match.
fn literal_at(
    text: &Vec<char>,
    at: usize,
    pat: &Vec<char>,
    replacement: &Vec<char>,
    out: &mut Vec<char>,
) -> (end: Option<usize>)
    requires
        at <= text.len(),
    ensures
        match literal_match(text@.skip(at as int), pat@, replacement@) {
            Some(m) => end == Some((at + m.consumed) as usize) && at + m.consumed <= text.len()
                && final(out)@ == old(out)@ + m.replacement,
            None => end is None && final(out)@ == old(out)@,
        },
{
    if has_at(text, at, pat) {
        append_chars(out, replacement);
        Some(at + pat.len())
    } else {
        None
    }
}

/// Tries to match `rule` at index `at`. On a match, writes what replaces it
/// to `out` and returns the index behind the match.
fn rewrite_at(rule: Rule, lits: &Literals, text: &Vec<char>, at: usize, out: &mut Vec<char>) -> (end:
    Option<usize>)
    requires
        lits.wf(),
        at <= text.len(),
    ensures
        match rule.match_prefix(text@.skip(at as int)) {
            Some(m) => end == Some((at + m.consumed) as usize) && at < at + m.consumed
                <= text.len() && final(out)@ == old(out)@ + m.replacement,
            None => end is None && final(out)@ == old(out)@,
        },
{
    proof {
        lemma_match_bounds(rule, text@.skip(at as int));
    }
    match rule {
        Rule::StackedEquations => equations_at(lits, text, at, true, out),
        Rule::InlineEquations => equations_at(lits, text, at, false, out),
        Rule::LinkTarget => link_at(lits, text, at, out),
        Rule::PageBreak => literal_at(text, at, &lits.escaped_pagebreak, &lits.pagebreak, out),
        Rule::EncodedSpace => literal_at(text, at, &lits.encoded_space, &lits.space, out),
    }
}

/// Applies one rule to a whole text.
pub fn apply_rule(rule: Rule, text: &Vec<char>) -> (out: Vec<char>)
    ensures
        out@ == apply(rule, text@),
{
    let lits = Literals::new();
    let mut out: Vec<char> = Vec::new();
    let mut at: usize = 0;
    assert(text@.skip(0) =~= text@);
    while at < text.len()
        invariant
            lits.wf(),
            at <= text.len(),
            out@ + apply(rule, text@.skip(at as int)) == apply(rule, text@),
        decreases text.len() - at,
    {
        let ghost rest = text@.skip(at as int);
        let ghost before = out@;
        match rewrite_at(rule, &lits, text, at, &mut out) {
            Some(end) => {
                proof {
                    let m = rule.match_prefix(rest)->0;
                    assert(rest.skip(m.consumed as int) =~= text@.skip(end as int));
                    assert(before + (m.replacement + apply(rule, text@.skip(end as int))) =~= (
                    before + m.replacement) + apply(rule, text@.skip(end as int)));
                }
                at = end;
            },
            None => {
                out.push(text[at]);
                proof {
                    assert(rest.skip(1) =~= text@.skip(at + 1));
                    assert(before + (seq![rest[0]] + apply(rule, text@.skip(at + 1)))
                        =~= before.push(text@[at as int]) + apply(rule, text@.skip(at + 1)));
                }
                at += 1;
            },
        }
    }
    out
}

} // verus!
