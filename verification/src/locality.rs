//! The rules that work inside a line: what they make of a text is what they
//! make of its lines, one by one.

use crate::rewrite::line_rules_applied;
use crate::rules::{
    apply, dollar, encoded_space, equation_marker, equation_pair, escaped_pagebreak,
    find_on_line, lemma_equation_pair_bounds, lemma_find_on_line_bounds, lemma_match_bounds,
    link_close_markdown, link_open, separator, Rule,
};
use crate::text::starts_with;
use vstd::prelude::*;

verus! {

/// The rules that look at one line only: all but the one for stacked
/// equations.
pub open spec fn is_line_rule(rule: Rule) -> bool {
    rule != Rule::StackedEquations
}

/// A text without a line feed in it.
pub open spec fn is_on_one_line(s: Seq<char>) -> bool {
    forall|i: int| 0 <= i < s.len() ==> #[trigger] s[i] != '\n'
}

/// A text that holds no line feed begins a line where it begins the text
/// around the line.
proof fn lemma_starts_with_is_local(line: Seq<char>, rest: Seq<char>, pat: Seq<char>)
    requires
        is_on_one_line(pat),
    ensures
        starts_with(line + seq!['\n'] + rest, pat) == starts_with(line, pat),
{
    let s = line + seq!['\n'] + rest;
    if pat.len() <= line.len() {
        assert(s.take(pat.len() as int) =~= line.take(pat.len() as int));
    } else if starts_with(s, pat) {
        assert(s.take(pat.len() as int)[line.len() as int] == '\n');
        assert(pat[line.len() as int] != '\n');
    }
}

/// What is found on a line does not depend on the text behind the line.
proof fn lemma_find_on_line_is_local(line: Seq<char>, rest: Seq<char>, pat: Seq<char>)
    requires
        is_on_one_line(pat),
        pat.len() > 0,
    ensures
        find_on_line(line + seq!['\n'] + rest, pat) == find_on_line(line, pat),
    decreases line.len(),
{
    let s = line + seq!['\n'] + rest;
    lemma_starts_with_is_local(line, rest, pat);
    if starts_with(line, pat) {
    } else if line.len() == 0 {
        assert(s[0] == '\n');
    } else {
        assert(s[0] == line[0]);
        assert(s.skip(1) =~= line.skip(1) + seq!['\n'] + rest);
        lemma_find_on_line_is_local(line.skip(1), rest, pat);
    }
}

/// A line with the text behind it, from an index of the line on.
proof fn lemma_skip_in_line(line: Seq<char>, rest: Seq<char>, n: int)
    requires
        0 <= n <= line.len(),
    ensures
        (line + seq!['\n'] + rest).skip(n) == line.skip(n) + seq!['\n'] + rest,
{
    assert((line + seq!['\n'] + rest).skip(n) =~= line.skip(n) + seq!['\n'] + rest);
}

/// Two equations on one line are found in the line as in the text around
/// it.
proof fn lemma_inline_pair_is_local(line: Seq<char>, rest: Seq<char>)
    ensures
        equation_pair(line + seq!['\n'] + rest, false) == equation_pair(line, false),
{
    reveal_strlit("systemequation $");
    reveal_strlit("$");
    let s = line + seq!['\n'] + rest;
    let n = equation_marker().len() as int;
    lemma_starts_with_is_local(line, rest, equation_marker());
    if starts_with(line, equation_marker()) {
        lemma_skip_in_line(line, rest, n);
        lemma_find_on_line_is_local(line.skip(n), rest, dollar());
        lemma_find_on_line_bounds(line.skip(n), dollar());
        if let Some(a) = find_on_line(line.skip(n), dollar()) {
            let gap = n + a + 1;
            lemma_skip_in_line(line, rest, gap);
            let here = line.skip(gap);
            let there = s.skip(gap);
            assert(there.len() > here.len());
            assert(forall|i: int| 0 <= i < here.len() ==> there[i] == here[i]);
            assert(there[here.len() as int] == '\n');
            assert(separator(there, false) == separator(here, false));
            if let Some(w) = separator(here, false) {
                let second = gap + w + 1;
                lemma_skip_in_line(line, rest, second);
                lemma_find_on_line_is_local(line.skip(second), rest, dollar());
            }
        }
    }
}

/// What a line rule does at the start of a line does not depend on the text
/// behind the line.
proof fn lemma_match_is_local(rule: Rule, line: Seq<char>, rest: Seq<char>)
    requires
        is_line_rule(rule),
    ensures
        rule.match_prefix(line + seq!['\n'] + rest) == rule.match_prefix(line),
{
    let s = line + seq!['\n'] + rest;
    match rule {
        Rule::StackedEquations => {},
        Rule::InlineEquations => {
            lemma_inline_pair_is_local(line, rest);
            lemma_equation_pair_bounds(line, false);
            if let Some(pair) = equation_pair(line, false) {
                assert(pair.first(s) =~= pair.first(line));
                assert(pair.second(s) =~= pair.second(line));
            }
        },
        Rule::LinkTarget => {
            reveal_strlit("#link(\"");
            reveal_strlit(".md\")");
            let n = link_open().len() as int;
            lemma_starts_with_is_local(line, rest, link_open());
            if starts_with(line, link_open()) {
                lemma_skip_in_line(line, rest, n);
                lemma_find_on_line_is_local(line.skip(n), rest, link_close_markdown());
                lemma_find_on_line_bounds(line.skip(n), link_close_markdown());
                if let Some(k) = find_on_line(line.skip(n), link_close_markdown()) {
                    assert(s.skip(n).take(k as int) =~= line.skip(n).take(k as int));
                }
            }
        },
        Rule::PageBreak => {
            reveal_strlit("\\#pagebreak");
            lemma_starts_with_is_local(line, rest, escaped_pagebreak());
        },
        Rule::EncodedSpace => {
            reveal_strlit("%20");
            lemma_starts_with_is_local(line, rest, encoded_space());
        },
    }
}

/// No rule matches at a line feed.
proof fn lemma_no_match_at_line_feed(rule: Rule, rest: Seq<char>)
    ensures
        rule.match_prefix(seq!['\n'] + rest) is None,
{
    reveal_strlit("systemequation $");
    reveal_strlit("#link(\"");
    reveal_strlit("\\#pagebreak");
    reveal_strlit("%20");
    let s = seq!['\n'] + rest;
    assert(s[0] == '\n');
    assert forall|pat: Seq<char>| pat.len() > 0 && pat[0] != '\n' implies !starts_with(s, pat) by {
        if starts_with(s, pat) {
            assert(s.take(pat.len() as int)[0] == pat[0]);
        }
    }
}

/// A line rule rewrites a line and the text behind it each as it would
/// alone: what the rule makes of a text is made line by line.
pub proof fn lemma_line_rule_is_local(rule: Rule, line: Seq<char>, rest: Seq<char>)
    requires
        is_line_rule(rule),
    ensures
        apply(rule, line + seq!['\n'] + rest) == apply(rule, line) + seq!['\n'] + apply(rule, rest),
    decreases line.len(),
{
    let s = line + seq!['\n'] + rest;
    if line.len() == 0 {
        lemma_no_match_at_line_feed(rule, rest);
        assert(s =~= seq!['\n'] + rest);
        assert(s.skip(1) =~= rest);
        assert(apply(rule, line) =~= Seq::<char>::empty());
        assert(apply(rule, s) =~= apply(rule, line) + seq!['\n'] + apply(rule, rest));
    } else {
        lemma_match_is_local(rule, line, rest);
        lemma_match_bounds(rule, line);
        lemma_match_bounds(rule, s);
        if rule.matches_prefix(line) {
            let m = rule.match_prefix(line)->0;
            lemma_skip_in_line(line, rest, m.consumed as int);
            lemma_line_rule_is_local(rule, line.skip(m.consumed as int), rest);
            assert(apply(rule, s) =~= apply(rule, line) + seq!['\n'] + apply(rule, rest));
        } else {
            lemma_skip_in_line(line, rest, 1);
            lemma_line_rule_is_local(rule, line.skip(1), rest);
            assert(s[0] == line[0]);
            assert(apply(rule, s) =~= apply(rule, line) + seq!['\n'] + apply(rule, rest));
        }
    }
}

/// The three line rules together rewrite a line and the text behind it each
/// as they would alone.
pub proof fn lemma_line_rules_are_local(line: Seq<char>, rest: Seq<char>)
    ensures
        line_rules_applied(line + seq!['\n'] + rest) == line_rules_applied(line) + seq!['\n']
            + line_rules_applied(rest),
{
    lemma_line_rule_is_local(Rule::LinkTarget, line, rest);
    lemma_line_rule_is_local(
        Rule::PageBreak,
        apply(Rule::LinkTarget, line),
        apply(Rule::LinkTarget, rest),
    );
    lemma_line_rule_is_local(
        Rule::EncodedSpace,
        apply(Rule::PageBreak, apply(Rule::LinkTarget, line)),
        apply(Rule::PageBreak, apply(Rule::LinkTarget, rest)),
    );
}

} // verus!
