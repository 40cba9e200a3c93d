//! The pattern rewriter: the rules applied to a whole document, in their
//! fixed order.

use crate::occurrences::{lemma_decoded_has_no_encoded_space, occurs};
use crate::rules::{apply, apply_rule, Rule};
use crate::text::{chars_of, string_of};
use vstd::prelude::*;

verus! {

/// Both forms of two equations expanded: first the stacked form, then, in
/// what that leaves, the form on one line.
pub open spec fn equations_expanded(s: Seq<char>) -> Seq<char> {
    apply(Rule::InlineEquations, apply(Rule::StackedEquations, s))
}

/// The three rules that work inside a line: links retargeted, then the page
/// break unescaped, then the encoded spaces decoded.
pub open spec fn line_rules_applied(s: Seq<char>) -> Seq<char> {
    apply(Rule::EncodedSpace, apply(Rule::PageBreak, apply(Rule::LinkTarget, s)))
}

/// The rewritten document: the equations expanded, then the line rules.
pub open spec fn rewritten(s: Seq<char>) -> Seq<char> {
    line_rules_applied(equations_expanded(s))
}

/// Expands both forms of two equations.
pub fn expand_equations(text: &Vec<char>) -> (out: Vec<char>)
    ensures
        out@ == equations_expanded(text@),
{
    let stacked = apply_rule(Rule::StackedEquations, text);
    apply_rule(Rule::InlineEquations, &stacked)
}

/// Applies the three line rules.
pub fn apply_line_rules(text: &Vec<char>) -> (out: Vec<char>)
    ensures
        out@ == line_rules_applied(text@),
{
    let linked = apply_rule(Rule::LinkTarget, text);
    let unescaped = apply_rule(Rule::PageBreak, &linked);
    apply_rule(Rule::EncodedSpace, &unescaped)
}

/// Rewrites a document given as characters.
pub fn rewrite_chars(text: &Vec<char>) -> (out: Vec<char>)
    ensures
        out@ == rewritten(text@),
{
    let expanded = expand_equations(text);
    apply_line_rules(&expanded)
}

/// Rewrites a document.
pub fn rewrite(text: &str) -> (out: String)
    ensures
        out@ == rewritten(text@),
{
    let chars = chars_of(text);
    let done = rewrite_chars(&chars);
    string_of(&done)
}

/// No encoded space is left in a rewritten document, nor in what the line
/// rules make of a text.
pub proof fn lemma_rewritten_holds_no_encoded_space(s: Seq<char>)
    ensures
        !occurs(Rule::EncodedSpace, rewritten(s)),
        !occurs(Rule::EncodedSpace, line_rules_applied(s)),
{
    lemma_decoded_has_no_encoded_space(
        apply(Rule::PageBreak, apply(Rule::LinkTarget, equations_expanded(s))),
    );
    lemma_decoded_has_no_encoded_space(apply(Rule::PageBreak, apply(Rule::LinkTarget, s)));
}

} // verus!
