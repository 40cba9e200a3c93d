//! Where a rule matches in a text, and what follows for the text that the
//! rule makes of it.

use crate::rules::{apply, encoded_space, escaped_pagebreak, pagebreak, space, Rule};
use crate::text::starts_with;
use vstd::prelude::*;

verus! {

/// Whether `rule` matches somewhere in `s`.
pub open spec fn occurs(rule: Rule, s: Seq<char>) -> bool {
    exists|i: int| 0 <= i < s.len() && #[trigger] rule.matches_prefix(s.skip(i))
}

/// A rule leaves a text in which it matches nowhere as it is.
pub proof fn lemma_apply_without_occurrence(rule: Rule, s: Seq<char>)
    requires
        !occurs(rule, s),
    ensures
        apply(rule, s) == s,
    decreases s.len(),
{
    if s.len() > 0 {
        assert(s.skip(0) =~= s);
        assert(!rule.matches_prefix(s.skip(0)));
        let rest = s.skip(1);
        assert forall|i: int| 0 <= i < rest.len() implies !#[trigger] rule.matches_prefix(
            rest.skip(i),
        ) by {
            assert(rest.skip(i) =~= s.skip(i + 1));
            assert(!rule.matches_prefix(s.skip(i + 1)));
        }
        lemma_apply_without_occurrence(rule, rest);
        assert(seq![s[0]] + rest =~= s);
    }
}

/// The first character of what decoding makes of a text is a space where
/// the text begins with an encoded space, and the first character of the
/// text elsewhere.
proof fn lemma_decoded_first(s: Seq<char>)
    requires
        s.len() > 0,
    ensures
        apply(Rule::EncodedSpace, s).len() > 0,
        apply(Rule::EncodedSpace, s)[0] == if starts_with(s, encoded_space()) {
            ' '
        } else {
            s[0]
        },
        !starts_with(s, encoded_space()) ==> apply(Rule::EncodedSpace, s) == seq![s[0]] + apply(
            Rule::EncodedSpace,
            s.skip(1),
        ),
{
    reveal_strlit("%20");
    reveal_strlit(" ");
}

/// Decoding leaves no encoded space behind.
pub proof fn lemma_decoded_has_no_encoded_space(s: Seq<char>)
    ensures
        !occurs(Rule::EncodedSpace, apply(Rule::EncodedSpace, s)),
    decreases s.len(),
{
    let rule = Rule::EncodedSpace;
    let out = apply(rule, s);
    reveal_strlit("%20");
    reveal_strlit(" ");
    if s.len() > 0 {
        let step: int = if rule.matches_prefix(s) {
            3
        } else {
            1
        };
        let rest = s.skip(step);
        let tail = apply(rule, rest);
        lemma_decoded_has_no_encoded_space(rest);
        assert(out.skip(1) =~= tail);
        assert forall|i: int| 0 <= i < out.len() implies !#[trigger] rule.matches_prefix(
            out.skip(i),
        ) by {
            if i >= 1 {
                assert(out.skip(i) =~= tail.skip(i - 1));
                assert(!rule.matches_prefix(tail.skip(i - 1)));
            } else {
                assert(out.skip(0) =~= out);
                if rule.matches_prefix(out) {
                    // the text begins with `%`, so nothing was replaced here
                    assert(out[0] == '%');
                    assert(!rule.matches_prefix(s));
                    assert(s[0] == '%');
                    assert(tail[0] == '2');
                    lemma_decoded_first(rest);
                    assert(rest[0] == '2');
                    assert(tail.skip(1) =~= apply(rule, rest.skip(1)));
                    assert(tail[1] == '0');
                    lemma_decoded_first(rest.skip(1));
                    assert(rest.skip(1)[0] == '0');
                    assert(s.take(3) =~= encoded_space());
                }
            }
        }
    }
}

/// The two rules that replace one fixed text by another.
pub open spec fn is_literal_rule(rule: Rule) -> bool {
    rule == Rule::PageBreak || rule == Rule::EncodedSpace
}

/// The text that a literal rule looks for.
pub open spec fn pattern_of(rule: Rule) -> Seq<char> {
    if rule == Rule::PageBreak {
        escaped_pagebreak()
    } else {
        encoded_space()
    }
}

/// The text that a literal rule writes.
pub open spec fn replacement_of(rule: Rule) -> Seq<char> {
    if rule == Rule::PageBreak {
        pagebreak()
    } else {
        space()
    }
}

/// The first character of the pattern of a literal rule stands nowhere else
/// in the pattern.
proof fn lemma_pattern_head_is_unique(rule: Rule)
    requires
        is_literal_rule(rule),
    ensures
        pattern_of(rule).len() > 0,
        forall|k: int|
            0 < k < pattern_of(rule).len() ==> #[trigger] pattern_of(rule)[k] != pattern_of(rule)[0],
{
    reveal_strlit("\\#pagebreak");
    reveal_strlit("%20");
}

/// A literal rule replaces each occurrence of its pattern once: around an
/// occurrence, the text before it and the text behind it are rewritten as
/// they would be alone.
pub proof fn lemma_literal_once_per_occurrence(rule: Rule, before: Seq<char>, after: Seq<char>)
    requires
        is_literal_rule(rule),
    ensures
        apply(rule, before + pattern_of(rule) + after) == apply(rule, before) + replacement_of(rule)
            + apply(rule, after),
    decreases before.len(),
{
    let pat = pattern_of(rule);
    let n = pat.len() as int;
    let s = before + pat + after;
    lemma_pattern_head_is_unique(rule);
    if before.len() == 0 {
        assert(s.take(n) =~= pat);
        assert(s.skip(n) =~= after);
        assert(apply(rule, before) =~= Seq::<char>::empty());
        assert(apply(rule, s) =~= apply(rule, before) + replacement_of(rule) + apply(rule, after));
    } else if starts_with(before, pat) {
        assert(s.take(n) =~= before.take(n));
        assert(s.skip(n) =~= before.skip(n) + pat + after);
        lemma_literal_once_per_occurrence(rule, before.skip(n), after);
        assert(apply(rule, s) =~= apply(rule, before) + replacement_of(rule) + apply(rule, after));
    } else {
        if starts_with(s, pat) {
            if before.len() >= n {
                assert(s.take(n) =~= before.take(n));
            } else {
                let k = before.len() as int;
                assert(s.take(n)[k] == pat[k]);
                assert(s[k] == pat[0]);
            }
        }
        assert(s.skip(1) =~= before.skip(1) + pat + after);
        lemma_literal_once_per_occurrence(rule, before.skip(1), after);
        assert(s[0] == before[0]);
        assert(apply(rule, s) =~= apply(rule, before) + replacement_of(rule) + apply(rule, after));
    }
}

} // verus!
