//! What the two equation rules make of a well-formed system of two
//! equations.

use crate::occurrences::{lemma_apply_without_occurrence, occurs};
use crate::rewrite::{equations_expanded, line_rules_applied, rewritten};
use crate::rules::{
    apply, cases_between, cases_close, cases_open, dollar, equation_marker, equation_pair,
    equations_match, find_on_line, lemma_equation_pair_bounds, lemma_find_on_line_bounds,
    lemma_find_on_line_is_first, lemma_space_run_is_maximal, space, space_run, EquationPair,
    Rule,
};
use crate::text::is_space;
use vstd::prelude::*;

verus! {

/// An equation holds neither `$` nor a line break.
pub open spec fn is_equation(e: Seq<char>) -> bool {
    forall|i: int| 0 <= i < e.len() ==> e[i] != '$' && e[i] != '\n'
}

/// The separator of stacked equations is white space with a line break in it.
pub open spec fn is_stacked_gap(gap: Seq<char>) -> bool {
    &&& forall|i: int| 0 <= i < gap.len() ==> is_space(#[trigger] gap[i])
    &&& gap.contains('\n')
}

/// A system of two equations as it is written in a document.
pub open spec fn two_equations(a: Seq<char>, gap: Seq<char>, b: Seq<char>) -> Seq<char> {
    equation_marker() + a + dollar() + gap + dollar() + b + dollar()
}

/// The `cases` expression with the branches `a` and `b`.
pub open spec fn cases_of(a: Seq<char>, b: Seq<char>) -> Seq<char> {
    cases_open() + a + cases_between() + b + cases_close()
}

/// What an equation rule matches is a system of two equations, and what it
/// writes is the `cases` expression of the same two equations.
pub proof fn lemma_equations_match_shape(s: Seq<char>, stacked: bool)
    requires
        equation_pair(s, stacked) is Some,
    ensures
        ({
            let pair = equation_pair(s, stacked)->0;
            let gap = s.subrange(
                pair.first_start() + pair.first_len + 1,
                pair.second_start() - 1,
            );
            &&& pair.end() <= s.len()
            &&& s.take(pair.end()) == two_equations(pair.first(s), gap, pair.second(s))
            &&& equations_match(s, stacked)->0.replacement == cases_of(
                pair.first(s),
                pair.second(s),
            )
            &&& is_equation(pair.first(s))
            &&& is_equation(pair.second(s))
            &&& stacked ==> is_stacked_gap(gap)
            &&& !stacked ==> gap == space()
        }),
{
    reveal_strlit("$");
    reveal_strlit(" ");
    let pair = equation_pair(s, stacked)->0;
    let n = equation_marker().len() as int;
    let a = pair.first_len as int;
    let w = pair.gap_len as int;
    let b = pair.second_len as int;
    let gap_at = n + a + 1;
    let second_at = gap_at + w + 1;
    let gap = s.subrange(gap_at, second_at - 1);
    lemma_equation_pair_bounds(s, stacked);
    lemma_find_on_line_bounds(s.skip(n), dollar());
    lemma_find_on_line_is_first(s.skip(n), dollar());
    lemma_find_on_line_bounds(s.skip(second_at), dollar());
    lemma_find_on_line_is_first(s.skip(second_at), dollar());
    assert(s.skip(n).skip(a).take(1)[0] == s[n + a]);
    assert(s.skip(second_at).skip(b).take(1)[0] == s[second_at + b]);
    assert(s.skip(gap_at)[w] == s[gap_at + w]);
    assert(s.take(n) =~= equation_marker());
    assert(s.take(pair.end()) =~= two_equations(pair.first(s), gap, pair.second(s)));
    assert forall|i: int| 0 <= i < a implies pair.first(s)[i] != '$' && pair.first(s)[i]
        != '\n' by {
        assert(s.skip(n)[i] == pair.first(s)[i]);
        if pair.first(s)[i] == '$' {
            assert(s.skip(n).skip(i).take(1) =~= dollar());
        }
    }
    assert forall|i: int| 0 <= i < b implies pair.second(s)[i] != '$' && pair.second(s)[i]
        != '\n' by {
        assert(s.skip(second_at)[i] == pair.second(s)[i]);
        if pair.second(s)[i] == '$' {
            assert(s.skip(second_at).skip(i).take(1) =~= dollar());
        }
    }
    if stacked {
        lemma_space_run_is_maximal(s.skip(gap_at));
        assert forall|i: int| 0 <= i < gap.len() implies is_space(#[trigger] gap[i]) by {
            assert(s.skip(gap_at)[i] == gap[i]);
        }
        assert(s.skip(gap_at).take(w) =~= gap);
    } else {
        assert(gap =~= space());
    }
}

/// Behind an equation, the closing `$` is the first one on the line.
proof fn lemma_find_closing_dollar(e: Seq<char>, rest: Seq<char>)
    requires
        is_equation(e),
        rest.len() > 0,
        rest[0] == '$',
    ensures
        find_on_line(e + rest, dollar()) == Some(e.len()),
    decreases e.len(),
{
    reveal_strlit("$");
    let s = e + rest;
    if e.len() == 0 {
        assert(s.take(1) =~= dollar());
    } else {
        assert(s[0] == e[0]);
        assert(s.take(1)[0] == s[0]);
        assert(s.skip(1) =~= e.skip(1) + rest);
        lemma_find_closing_dollar(e.skip(1), rest);
    }
}

/// A run of white space ends where the white space ends.
proof fn lemma_space_run_of_prefix(gap: Seq<char>, rest: Seq<char>)
    requires
        forall|i: int| 0 <= i < gap.len() ==> is_space(#[trigger] gap[i]),
        rest.len() > 0,
        !is_space(rest[0]),
    ensures
        space_run(gap + rest) == gap.len(),
    decreases gap.len(),
{
    let s = gap + rest;
    if gap.len() > 0 {
        assert(s[0] == gap[0]);
        assert(s.skip(1) =~= gap.skip(1) + rest);
        assert forall|i: int| 0 <= i < gap.skip(1).len() implies is_space(
            #[trigger] gap.skip(1)[i],
        ) by {
            assert(gap.skip(1)[i] == gap[i + 1]);
        }
        lemma_space_run_of_prefix(gap.skip(1), rest);
    } else {
        assert(s[0] == rest[0]);
    }
}

/// In a well-formed system of two equations the rule finds the two
/// equations as they were written.
pub proof fn lemma_pair_of_two_equations(a: Seq<char>, gap: Seq<char>, b: Seq<char>, stacked: bool)
    requires
        is_equation(a),
        is_equation(b),
        stacked ==> is_stacked_gap(gap),
        !stacked ==> gap == space(),
    ensures
        equation_pair(two_equations(a, gap, b), stacked) == Some(
            EquationPair { first_len: a.len(), gap_len: gap.len(), second_len: b.len() },
        ),
        two_equations(a, gap, b).len() == equation_marker().len() + a.len() + gap.len() + b.len()
            + 3,
{
    reveal_strlit("$");
    reveal_strlit(" ");
    let d = dollar();
    let t3 = b + d;
    let t2 = gap + (d + t3);
    let t1 = a + (d + t2);
    let s = equation_marker() + t1;
    assert(s =~= two_equations(a, gap, b));
    assert(s.take(equation_marker().len() as int) =~= equation_marker());
    let n = equation_marker().len() as int;
    assert(s.skip(n) =~= t1);
    lemma_find_closing_dollar(a, d + t2);
    assert(s.skip(n + a.len() + 1) =~= t2);
    if stacked {
        lemma_space_run_of_prefix(gap, d + t3);
        assert(t2.take(gap.len() as int) =~= gap);
    }
    assert(t2[gap.len() as int] == '$');
    assert(s.skip(n + a.len() + 1 + gap.len() + 1) =~= t3);
    lemma_find_closing_dollar(b, d);
}

/// A rule that matches the whole text writes its replacement and nothing
/// else.
proof fn lemma_apply_whole_match(rule: Rule, s: Seq<char>)
    requires
        rule.matches_prefix(s),
        rule.match_prefix(s)->0.consumed == s.len(),
    ensures
        apply(rule, s) == rule.match_prefix(s)->0.replacement,
{
    let m = rule.match_prefix(s)->0;
    assert(s.skip(s.len() as int).len() == 0);
    assert(m.replacement + apply(rule, s.skip(s.len() as int)) =~= m.replacement);
}

/// What an equation rule makes of a well-formed system of two equations
/// with the separator that the rule asks for: the `cases` expression.
proof fn lemma_apply_to_two_equations(a: Seq<char>, gap: Seq<char>, b: Seq<char>, stacked: bool)
    requires
        is_equation(a),
        is_equation(b),
        stacked ==> is_stacked_gap(gap),
        !stacked ==> gap == space(),
    ensures
        apply(
            if stacked {
                Rule::StackedEquations
            } else {
                Rule::InlineEquations
            },
            two_equations(a, gap, b),
        ) == cases_of(a, b),
{
    let rule = if stacked {
        Rule::StackedEquations
    } else {
        Rule::InlineEquations
    };
    let s = two_equations(a, gap, b);
    lemma_pair_of_two_equations(a, gap, b, stacked);
    let pair = equation_pair(s, stacked)->0;
    assert(pair.first(s) =~= a);
    assert(pair.second(s) =~= b);
    assert(pair.end() == s.len());
    lemma_apply_whole_match(rule, s);
}

/// Where an equation rule matches, a `$` stands at the end of the marker
/// and another one behind it.
proof fn lemma_match_needs_two_dollars(s: Seq<char>, stacked: bool)
    requires
        equation_pair(s, stacked) is Some,
    ensures
        s.len() > equation_marker().len() + equation_pair(s, stacked)->0.first_len,
        s[equation_marker().len() - 1] == '$',
        s[(equation_marker().len() + equation_pair(s, stacked)->0.first_len) as int] == '$',
{
    reveal_strlit("$");
    reveal_strlit("systemequation $");
    let n = equation_marker().len() as int;
    assert(s.take(n)[n - 1] == '$');
    let first = s.skip(n);
    lemma_find_on_line_bounds(first, dollar());
    let a = find_on_line(first, dollar())->0;
    assert(first.skip(a as int).take(1)[0] == '$');
    lemma_equation_pair_bounds(s, stacked);
}

/// Where the rule for stacked equations matches, the text holds a line
/// break.
proof fn lemma_stacked_match_needs_line_break(s: Seq<char>)
    requires
        equation_pair(s, true) is Some,
    ensures
        s.contains('\n'),
{
    let n = equation_marker().len() as int;
    let first = s.skip(n);
    let a = find_on_line(first, dollar())->0;
    let gap = s.skip(n + a + 1);
    let w = space_run(gap);
    lemma_equation_pair_bounds(s, true);
    let k = choose|k: int| 0 <= k < w && gap.take(w as int)[k] == '\n';
    assert(s[n + a + 1 + k] == '\n');
}

/// A `cases` expression whose branches are equations holds no system of two
/// equations.
proof fn lemma_cases_hold_no_equations(a: Seq<char>, b: Seq<char>, stacked: bool)
    requires
        is_equation(a),
        is_equation(b),
    ensures
        !occurs(
            if stacked {
                Rule::StackedEquations
            } else {
                Rule::InlineEquations
            },
            cases_of(a, b),
        ),
{
    let rule = if stacked {
        Rule::StackedEquations
    } else {
        Rule::InlineEquations
    };
    let c = cases_of(a, b);
    reveal_strlit("$cases(");
    reveal_strlit(", ");
    reveal_strlit(")$");
    reveal_strlit("systemequation $");
    assert forall|j: int| 0 < j < c.len() - 1 implies c[j] != '$' by {}
    assert forall|i: int| 0 <= i < c.len() implies !#[trigger] rule.matches_prefix(c.skip(i)) by {
        let t = c.skip(i);
        if equation_pair(t, stacked) is Some {
            lemma_match_needs_two_dollars(t, stacked);
            let n = equation_marker().len() as int;
            let k = equation_pair(t, stacked)->0.first_len as int;
            assert(c[i + n - 1] == '$');
            assert(c[i + n + k] == '$');
        }
    }
}

/// A system of two equations on one line holds no stacked equations.
proof fn lemma_inline_holds_no_stacked(a: Seq<char>, b: Seq<char>)
    requires
        is_equation(a),
        is_equation(b),
    ensures
        !occurs(Rule::StackedEquations, two_equations(a, space(), b)),
{
    let s = two_equations(a, space(), b);
    reveal_strlit("$");
    reveal_strlit(" ");
    reveal_strlit("systemequation $");
    assert forall|j: int| 0 <= j < s.len() implies s[j] != '\n' by {}
    assert forall|i: int| 0 <= i < s.len() implies !#[trigger] Rule::StackedEquations.matches_prefix(
        s.skip(i),
    ) by {
        let t = s.skip(i);
        if equation_pair(t, true) is Some {
            lemma_stacked_match_needs_line_break(t);
            let k = choose|k: int| 0 <= k < t.len() && t[k] == '\n';
            assert(s[i + k] == '\n');
        }
    }
}

/// Two stacked equations become one `cases` expression with the equations as
/// its branches, in their order; the marker and the four `$` that enclosed
/// the equations are gone.
pub proof fn lemma_stacked_equations_expand(a: Seq<char>, gap: Seq<char>, b: Seq<char>)
    requires
        is_equation(a),
        is_equation(b),
        is_stacked_gap(gap),
    ensures
        equations_expanded(two_equations(a, gap, b)) == cases_of(a, b),
{
    lemma_apply_to_two_equations(a, gap, b, true);
    lemma_cases_hold_no_equations(a, b, false);
    lemma_apply_without_occurrence(Rule::InlineEquations, cases_of(a, b));
}

/// Two equations on one line become one `cases` expression with the
/// equations as its branches, in their order; the marker and the four `$`
/// that enclosed the equations are gone.
pub proof fn lemma_inline_equations_expand(a: Seq<char>, b: Seq<char>)
    requires
        is_equation(a),
        is_equation(b),
    ensures
        equations_expanded(two_equations(a, space(), b)) == cases_of(a, b),
{
    lemma_inline_holds_no_stacked(a, b);
    lemma_apply_without_occurrence(Rule::StackedEquations, two_equations(a, space(), b));
    lemma_apply_to_two_equations(a, space(), b, false);
}

/// What the rewriter makes of a well-formed system of two equations, in
/// either form: the line rules applied to the one `cases` expression.
pub proof fn lemma_two_equations_rewritten(a: Seq<char>, gap: Seq<char>, b: Seq<char>)
    requires
        is_equation(a),
        is_equation(b),
        is_stacked_gap(gap) || gap == space(),
    ensures
        rewritten(two_equations(a, gap, b)) == line_rules_applied(cases_of(a, b)),
{
    if is_stacked_gap(gap) {
        lemma_stacked_equations_expand(a, gap, b);
    } else {
        lemma_inline_equations_expand(a, b);
    }
}

} // verus!
