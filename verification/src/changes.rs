//! Where a line rule changes a text first, and when the three line rules
//! together leave a text as it is.

use crate::occurrences::{
    lemma_apply_without_occurrence, lemma_decoded_has_no_encoded_space, occurs,
};
use crate::rewrite::line_rules_applied;
use crate::rules::{
    apply, find_on_line, lemma_find_on_line_bounds, link_close_markdown, link_open, Rule,
};
use vstd::prelude::*;

verus! {

/// The rules that retarget links, unescape page breaks and decode spaces.
pub open spec fn is_plain_rule(rule: Rule) -> bool {
    rule == Rule::LinkTarget || rule == Rule::PageBreak || rule == Rule::EncodedSpace
}

/// The index of the first match of `rule` in `s`, or the length of `s`
/// where there is none.
pub open spec fn first_match(rule: Rule, s: Seq<char>) -> nat
    decreases s.len(),
{
    if s.len() == 0 || rule.matches_prefix(s) {
        0
    } else {
        1 + first_match(rule, s.skip(1))
    }
}

/// The offset of the first character that a match at the start of `s` does
/// not write back as it was: for a link the `m` of its extension, for the
/// other rules the first character of the match.
pub open spec fn change_offset(rule: Rule, s: Seq<char>) -> nat {
    if rule == Rule::LinkTarget {
        (rule.match_prefix(s)->0.consumed - 4) as nat
    } else {
        0
    }
}

/// The character that a plain rule finds where it first changes a match.
pub open spec fn old_char(rule: Rule) -> char {
    if rule == Rule::LinkTarget {
        'm'
    } else if rule == Rule::PageBreak {
        '\\'
    } else {
        '%'
    }
}

/// The character that a plain rule writes where it first changes a match.
pub open spec fn new_char(rule: Rule) -> char {
    if rule == Rule::LinkTarget {
        'p'
    } else if rule == Rule::PageBreak {
        '#'
    } else {
        ' '
    }
}

/// The index at which `rule` first changes `s`, or the length of `s` where
/// it changes nothing.
pub open spec fn first_change(rule: Rule, s: Seq<char>) -> nat {
    let at = first_match(rule, s);
    if at < s.len() {
        at + change_offset(rule, s.skip(at as int))
    } else {
        s.len()
    }
}

/// A character that some plain rule writes where it changes a match.
pub open spec fn is_written(c: char) -> bool {
    c == 'p' || c == '#' || c == ' '
}

/// `after` is `before` up to the index `at`. There the two differ, with a
/// character in `after` that a plain rule writes and one in `before` that
/// none writes; or `at` is the length of `before` and the two are equal.
pub open spec fn differs_first_at(before: Seq<char>, after: Seq<char>, at: nat) -> bool {
    &&& at <= before.len()
    &&& at <= after.len()
    &&& forall|j: int| 0 <= j < at ==> #[trigger] after[j] == before[j]
    &&& if at < before.len() {
        at < after.len() && is_written(after[at as int]) && !is_written(before[at as int])
    } else {
        after == before
    }
}

/// The first match of a rule is a match, and none stands before it.
pub proof fn lemma_first_match(rule: Rule, s: Seq<char>)
    ensures
        first_match(rule, s) <= s.len(),
        first_match(rule, s) < s.len() ==> rule.matches_prefix(s.skip(first_match(rule, s) as int)),
        forall|j: int| 0 <= j < first_match(rule, s) ==> !#[trigger] rule.matches_prefix(s.skip(j)),
        first_match(rule, s) < s.len() <==> occurs(rule, s),
    decreases s.len(),
{
    assert(s.skip(0) =~= s);
    if s.len() == 0 || rule.matches_prefix(s) {
    } else {
        let rest = s.skip(1);
        lemma_first_match(rule, rest);
        let at = first_match(rule, rest);
        assert(rest.skip(at as int) =~= s.skip((at + 1) as int));
        assert forall|j: int| 0 <= j < at + 1 implies !#[trigger] rule.matches_prefix(
            s.skip(j),
        ) by {
            if j > 0 {
                assert(rest.skip(j - 1) =~= s.skip(j));
            }
        }
        if occurs(rule, s) {
            let i = choose|i: int| 0 <= i < s.len() && rule.matches_prefix(s.skip(i));
            assert(i >= at + 1);
        }
    }
}

/// What a plain rule does to a match: it writes the match back up to the
/// offset of the change, and there it writes its own character in place of
/// the one it found.
proof fn lemma_match_changes(rule: Rule, s: Seq<char>)
    requires
        is_plain_rule(rule),
        rule.matches_prefix(s),
    ensures
        ({
            let m = rule.match_prefix(s)->0;
            let at = change_offset(rule, s) as int;
            &&& at < m.consumed
            &&& at < m.replacement.len()
            &&& forall|j: int| 0 <= j < at ==> #[trigger] m.replacement[j] == s[j]
            &&& m.replacement[at] == new_char(rule)
            &&& s[at] == old_char(rule)
        }),
{
    reveal_strlit("#link(\"");
    reveal_strlit(".md\")");
    reveal_strlit(".pdf\")");
    reveal_strlit("\\#pagebreak");
    reveal_strlit("#pagebreak");
    reveal_strlit("%20");
    reveal_strlit(" ");
    if rule == Rule::LinkTarget {
        let n = link_open().len() as int;
        let target = s.skip(n);
        lemma_find_on_line_bounds(target, link_close_markdown());
        let k = find_on_line(target, link_close_markdown())->0 as int;
        let m = rule.match_prefix(s)->0;
        assert(target.skip(k).take(5) =~= link_close_markdown());
        assert(s[n + k] == target.skip(k).take(5)[0]);
        assert(s[n + k + 1] == target.skip(k).take(5)[1]);
        assert forall|j: int| 0 <= j < n + k + 1 implies #[trigger] m.replacement[j] == s[j] by {
            if j < n {
                assert(s.take(n)[j] == s[j]);
            } else if j < n + k {
                assert(target.take(k)[j - n] == s[j]);
            }
        }
    } else {
        assert(s.take(rule.match_prefix(s)->0.consumed as int)[0] == s[0]);
    }
}

/// Where a plain rule first changes a text.
pub proof fn lemma_rule_differs_first_at(rule: Rule, s: Seq<char>)
    requires
        is_plain_rule(rule),
    ensures
        differs_first_at(s, apply(rule, s), first_change(rule, s)),
        first_change(rule, s) < s.len() <==> occurs(rule, s),
    decreases s.len(),
{
    lemma_first_match(rule, s);
    let out = apply(rule, s);
    if s.len() == 0 {
    } else if rule.matches_prefix(s) {
        lemma_match_changes(rule, s);
        assert(s.skip(0) =~= s);
    } else {
        let rest = s.skip(1);
        lemma_rule_differs_first_at(rule, rest);
        lemma_first_match(rule, rest);
        let at = first_match(rule, rest);
        assert(rest.skip(at as int) =~= s.skip((at + 1) as int));
        let f = first_change(rule, rest);
        assert(first_change(rule, s) == f + 1);
        assert forall|j: int| 0 <= j < f + 1 implies #[trigger] out[j] == s[j] by {
            if j > 0 {
                assert(out[j] == apply(rule, rest)[j - 1]);
            }
        }
        if f < rest.len() {
            assert(out[(f + 1) as int] == apply(rule, rest)[f as int]);
        } else {
            assert(out =~= s);
        }
    }
}

/// Two changes one after the other: the text differs first where the
/// earlier of the two changes stands.
proof fn lemma_changes_compose(x: Seq<char>, u: Seq<char>, v: Seq<char>, fa: nat, fb: nat)
    requires
        differs_first_at(x, u, fa),
        differs_first_at(u, v, fb),
    ensures
        differs_first_at(
            x,
            v,
            if fa <= fb {
                fa
            } else {
                fb
            },
        ),
        (if fa <= fb {
            fa
        } else {
            fb
        }) < x.len() <==> fa < x.len() || fb < u.len(),
{
    if fa < x.len() {
        if fb < fa {
            assert(u[fb as int] == x[fb as int]);
            assert forall|j: int| 0 <= j < fb implies #[trigger] v[j] == x[j] by {
                assert(v[j] == u[j]);
                assert(u[j] == x[j]);
            }
        } else {
            assert(fa != fb);
            assert(fb > fa);
            if fb < u.len() {
            } else {
                assert(v == u);
            }
            assert(v[fa as int] == u[fa as int]);
            assert forall|j: int| 0 <= j < fa implies #[trigger] v[j] == x[j] by {
                assert(v[j] == u[j]);
                assert(u[j] == x[j]);
            }
        }
    } else {
        assert(u == x);
    }
}

/// The index at which the three line rules, one after the other, first
/// change a text, or the length of the text where they change nothing.
pub open spec fn first_line_rule_change(s: Seq<char>) -> nat {
    let linked = apply(Rule::LinkTarget, s);
    let unescaped = apply(Rule::PageBreak, linked);
    let a = first_change(Rule::LinkTarget, s);
    let b = first_change(Rule::PageBreak, linked);
    let c = first_change(Rule::EncodedSpace, unescaped);
    let ab = if a <= b {
        a
    } else {
        b
    };
    if ab <= c {
        ab
    } else {
        c
    }
}

/// The three line rules leave a text as it is where none of them matches in
/// it, and only there.
pub proof fn lemma_line_rules_fixed_points(s: Seq<char>)
    ensures
        line_rules_applied(s) == s <==> !occurs(Rule::LinkTarget, s) && !occurs(Rule::PageBreak, s)
            && !occurs(Rule::EncodedSpace, s),
        differs_first_at(s, line_rules_applied(s), first_line_rule_change(s)),
{
    let linked = apply(Rule::LinkTarget, s);
    let unescaped = apply(Rule::PageBreak, linked);
    let decoded = apply(Rule::EncodedSpace, unescaped);
    let a = first_change(Rule::LinkTarget, s);
    let b = first_change(Rule::PageBreak, linked);
    let c = first_change(Rule::EncodedSpace, unescaped);
    let ab = if a <= b {
        a
    } else {
        b
    };
    lemma_rule_differs_first_at(Rule::LinkTarget, s);
    lemma_rule_differs_first_at(Rule::PageBreak, linked);
    lemma_rule_differs_first_at(Rule::EncodedSpace, unescaped);
    lemma_changes_compose(s, linked, unescaped, a, b);
    lemma_changes_compose(s, unescaped, decoded, ab, c);
    if !occurs(Rule::LinkTarget, s) {
        lemma_apply_without_occurrence(Rule::LinkTarget, s);
        if !occurs(Rule::PageBreak, s) {
            lemma_apply_without_occurrence(Rule::PageBreak, s);
        }
    }
}

/// The line rules applied a second time change nothing, where the first
/// application has left no link to a Markdown file and no escaped page break
/// in the text. Encoded spaces are never left.
pub proof fn lemma_line_rules_idempotent(s: Seq<char>)
    requires
        !occurs(Rule::LinkTarget, line_rules_applied(s)),
        !occurs(Rule::PageBreak, line_rules_applied(s)),
    ensures
        line_rules_applied(line_rules_applied(s)) == line_rules_applied(s),
{
    lemma_decoded_has_no_encoded_space(apply(Rule::PageBreak, apply(Rule::LinkTarget, s)));
    lemma_line_rules_fixed_points(line_rules_applied(s));
}

/// Where the first application of the line rules has left a link to a
/// Markdown file or an escaped page break in the text, the second
/// application changes the text.
pub proof fn lemma_line_rules_not_idempotent(s: Seq<char>)
    requires
        occurs(Rule::LinkTarget, line_rules_applied(s)) || occurs(
            Rule::PageBreak,
            line_rules_applied(s),
        ),
    ensures
        line_rules_applied(line_rules_applied(s)) != line_rules_applied(s),
{
    lemma_line_rules_fixed_points(line_rules_applied(s));
}

} // verus!
