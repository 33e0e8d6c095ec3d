//! Laws of the substitutor, of the directive resolver, of the tree
//! materialiser and of the resolution of parameters.

use vstd::prelude::*;
use crate::builtin::{BuiltinView, Context};
use crate::config::{present_views, ProjectView};
use crate::directive::{
    decides, emit, equality_at, equality_from, is_close, is_open, is_syntax_mark, keeps_block,
    keeps_from, mark_at, marker_at, resolved_template, scan, scan_step,
};
use crate::engine::Reframe;
use crate::param::{case_variants, param_views, ParamKind, ParamView};
use crate::path::same_path;
use crate::presence::{is_present, relevance, rule_admits, Relevance};
use crate::resolve::{after_answer, first_with_key, lemma_first_with_key_bound, with_value};
use crate::substitute::{
    apply_rules, builtin_rules, lemma_apply_without_dollar, param_rules, plan, substituted,
    variant_rules, RuleView,
};
use crate::text::{
    contains, has_at, is_space, last_from, last_in, occurs_from, skip_spaces, split,
};
use crate::case::{all_styles, style_name, styled_opt};
use crate::declare::{declared, declared_options, raw_text, DeclView};
use crate::tree::{
    is_secondary, last_split, splits_at, stripped, word_char, word_flags, CopyAction,
};
use crate::walk::{copies, may_read};

verus! {

// ---------------------------------------------------------------------------
// Substitution without a token
// ---------------------------------------------------------------------------

/// Whether the token of every replacement begins with `$`.
pub open spec fn tokens_begin_with_dollar(rules: Seq<RuleView>) -> bool {
    forall|i: int|
        0 <= i < rules.len() ==> (#[trigger] rules[i]).token.len() > 0 && rules[i].token[0] == '$'
}

proof fn lemma_builtin_tokens(vars: Seq<BuiltinView>, ctx: Context)
    ensures
        tokens_begin_with_dollar(builtin_rules(vars, ctx)),
    decreases vars.len(),
{
    if vars.len() > 0 {
        lemma_builtin_tokens(vars.drop_last(), ctx);
    }
}

proof fn lemma_param_tokens(params: Seq<ParamView>)
    ensures
        tokens_begin_with_dollar(param_rules(params)),
    decreases params.len(),
{
    if params.len() > 0 {
        lemma_param_tokens(params.drop_last());
    }
}

/// Substitution leaves alone a text that holds no `$`, and not only because
/// it looks for one first: none of its replacements would change the text.
pub proof fn lemma_substitution_identity(
    text: Seq<char>,
    project: ProjectView,
    params: Seq<ParamView>,
    builtins: Seq<BuiltinView>,
    ctx: Context,
)
    requires
        !text.contains('$'),
    ensures
        substituted(text, project, params, builtins, ctx) == text,
        apply_rules(text, plan(project, params, builtins, ctx)) == text,
{
    lemma_builtin_tokens(builtins, ctx);
    lemma_param_tokens(params);
    assert(tokens_begin_with_dollar(variant_rules(project.variants)));
    let rules = plan(project, params, builtins, ctx);
    assert(tokens_begin_with_dollar(rules));
    lemma_apply_without_dollar(text, rules);
}

// ---------------------------------------------------------------------------
// A text behind a prefix
// ---------------------------------------------------------------------------

/// A pattern occurs in `pre + rest` at an index behind `pre` exactly where it
/// occurs in `rest`.
proof fn lemma_has_at_behind(pre: Seq<char>, rest: Seq<char>, pat: Seq<char>, i: int)
    requires
        0 <= i,
    ensures
        has_at(pre + rest, pat, pre.len() + i) == has_at(rest, pat, i),
{
    let s = pre + rest;
    if i + pat.len() <= rest.len() {
        assert(s.subrange(pre.len() + i, pre.len() + i + pat.len()) =~= rest.subrange(
            i,
            i + pat.len(),
        ));
    }
}

/// A pattern that begins with `<` does not occur in `pre + rest` at an index
/// within `pre`, where `pre` holds no `<`.
proof fn lemma_not_within(pre: Seq<char>, rest: Seq<char>, pat: Seq<char>, i: int)
    requires
        pat.len() > 0,
        pat[0] == '<',
        !pre.contains('<'),
        i < pre.len(),
    ensures
        !has_at(pre + rest, pat, i),
{
    let s = pre + rest;
    if has_at(s, pat, i) {
        assert(s.subrange(i, i + pat.len())[0] == pat[0]);
        assert(s[i] == pre[i]);
        assert(pre.contains('<'));
    }
}

/// A pattern occurs in `pre + rest` from an index behind `pre` on exactly
/// where it occurs in `rest` from there on.
proof fn lemma_occurs_behind(pre: Seq<char>, rest: Seq<char>, pat: Seq<char>, k: int)
    requires
        0 <= k,
    ensures
        occurs_from(pre + rest, pat, pre.len() + k) == occurs_from(rest, pat, k),
{
    let s = pre + rest;
    if occurs_from(s, pat, pre.len() + k) {
        let i = choose|i: int| pre.len() + k <= i && #[trigger] has_at(s, pat, i);
        lemma_has_at_behind(pre, rest, pat, i - pre.len());
        assert(has_at(rest, pat, i - pre.len()));
    }
    if occurs_from(rest, pat, k) {
        let i = choose|i: int| k <= i && #[trigger] has_at(rest, pat, i);
        lemma_has_at_behind(pre, rest, pat, i);
        assert(has_at(s, pat, pre.len() + i));
    }
}

/// A pattern that begins with `<` occurs in `pre + rest` exactly where it
/// occurs in `rest`, where `pre` holds no `<`.
proof fn lemma_contains_behind(pre: Seq<char>, rest: Seq<char>, pat: Seq<char>)
    requires
        pat.len() > 0,
        pat[0] == '<',
        !pre.contains('<'),
    ensures
        contains(pre + rest, pat) == contains(rest, pat),
{
    let s = pre + rest;
    if contains(s, pat) {
        let i = choose|i: int| 0 <= i && #[trigger] has_at(s, pat, i);
        if i < pre.len() {
            lemma_not_within(pre, rest, pat, i);
        }
        lemma_has_at_behind(pre, rest, pat, i - pre.len());
        assert(has_at(rest, pat, i - pre.len()));
    }
    if contains(rest, pat) {
        let i = choose|i: int| 0 <= i && #[trigger] has_at(rest, pat, i);
        lemma_has_at_behind(pre, rest, pat, i);
        assert(has_at(s, pat, pre.len() + i));
    }
}

/// White space is skipped behind `pre` as it is in `rest`.
proof fn lemma_skip_behind(pre: Seq<char>, rest: Seq<char>, k: int)
    requires
        0 <= k,
    ensures
        skip_spaces(pre + rest, pre.len() + k) == pre.len() + skip_spaces(rest, k),
    decreases rest.len() - k,
{
    let s = pre + rest;
    if k < rest.len() {
        assert(s[pre.len() + k] == rest[k]);
        if is_space(rest[k]) {
            lemma_skip_behind(pre, rest, k + 1);
        }
    }
}

/// The last occurrence behind `pre` is the last occurrence in `rest`.
proof fn lemma_last_behind(pre: Seq<char>, rest: Seq<char>, pat: Seq<char>, lo: int, hi: int)
    requires
        0 <= lo,
    ensures
        last_in(pre + rest, pat, pre.len() + lo, pre.len() + hi) == if last_in(rest, pat, lo, hi)
            >= 0 {
            pre.len() + last_in(rest, pat, lo, hi)
        } else {
            -1
        },
        last_in(rest, pat, lo, hi) >= -1,
    decreases hi - lo + 1,
{
    if hi >= lo {
        lemma_has_at_behind(pre, rest, pat, hi);
        if !has_at(rest, pat, hi) {
            lemma_last_behind(pre, rest, pat, lo, hi - 1);
        }
    }
}

/// White space is skipped forwards only.
proof fn lemma_skip_forward(s: Seq<char>, k: int)
    ensures
        skip_spaces(s, k) >= k,
    decreases s.len() - k,
{
    if 0 <= k < s.len() && is_space(s[k]) {
        lemma_skip_forward(s, k + 1);
    }
}

/// An equality form behind `pre` is the equality form in `rest`.
proof fn lemma_equality_at_behind(pre: Seq<char>, rest: Seq<char>, head: Seq<char>, i: int)
    requires
        0 <= i,
    ensures
        equality_at(pre + rest, head, pre.len() + i) == equality_at(rest, head, i),
{
    let s = pre + rest;
    let closing = "\" %>"@;
    let a = skip_spaces(rest, i + head.len());
    let b = skip_spaces(rest, a + 2);
    lemma_skip_forward(rest, i + head.len());
    lemma_skip_forward(rest, a + 2);
    lemma_has_at_behind(pre, rest, head, i);
    lemma_skip_behind(pre, rest, i + head.len());
    lemma_has_at_behind(pre, rest, "=="@, a);
    lemma_skip_behind(pre, rest, a + 2);
    lemma_has_at_behind(pre, rest, "\""@, b);
    lemma_last_behind(pre, rest, closing, b + 1, rest.len() as int);
    let close = last_from(rest, closing, b + 1);
    assert(last_from(s, closing, pre.len() + b + 1) == last_in(
        s,
        closing,
        pre.len() + (b + 1),
        (pre.len() + rest.len()) as int,
    ));
    if close >= 0 {
        crate::text::lemma_last_in_found(rest, closing, b + 1, rest.len() as int);
        assert(s.subrange(pre.len() + b + 1, pre.len() + close) =~= rest.subrange(b + 1, close));
    }
}

/// The first equality form behind `pre` is the first one in `rest`.
proof fn lemma_equality_from_behind(
    pre: Seq<char>,
    rest: Seq<char>,
    head: Seq<char>,
    i: int,
)
    requires
        0 <= i,
    ensures
        equality_from(pre + rest, head, pre.len() + i) == equality_from(rest, head, i),
    decreases rest.len() - i,
{
    if i < rest.len() {
        lemma_equality_at_behind(pre, rest, head, i);
        lemma_equality_from_behind(pre, rest, head, i + 1);
    }
}

/// No equality form starts within `pre`, where `pre` holds no `<` and the
/// head of the form begins with one.
proof fn lemma_equality_skips(pre: Seq<char>, rest: Seq<char>, head: Seq<char>, j: int)
    requires
        head.len() > 0,
        head[0] == '<',
        !pre.contains('<'),
        0 <= j <= pre.len(),
    ensures
        equality_from(pre + rest, head, j) == equality_from(rest, head, 0),
    decreases pre.len() - j,
{
    if j < pre.len() {
        lemma_not_within(pre, rest, head, j);
        lemma_equality_skips(pre, rest, head, j + 1);
        if j >= (pre + rest).len() {
            assert(rest.len() == 0);
        }
    } else {
        lemma_equality_from_behind(pre, rest, head, 0);
    }
}

/// A line opens a block exactly where what stands behind `pre` does, where
/// `pre` holds no `<`.
proof fn lemma_open_behind(pre: Seq<char>, rest: Seq<char>)
    requires
        !pre.contains('<'),
    ensures
        is_open(pre + rest) == is_open(rest),
{
    reveal_strlit("<% if ");
    let s = pre + rest;
    let head = "<% if "@;
    let tail = " %>"@;
    if is_open(s) {
        let i = choose|i: int| #[trigger]
            has_at(s, head, i) && occurs_from(s, tail, i + head.len());
        if i < pre.len() {
            lemma_not_within(pre, rest, head, i);
        }
        lemma_has_at_behind(pre, rest, head, i - pre.len());
        lemma_occurs_behind(pre, rest, tail, i - pre.len() + head.len());
        assert(has_at(rest, head, i - pre.len()) && occurs_from(
            rest,
            tail,
            i - pre.len() + head.len(),
        ));
    }
    if is_open(rest) {
        let i = choose|i: int| #[trigger]
            has_at(rest, head, i) && occurs_from(rest, tail, i + head.len());
        lemma_has_at_behind(pre, rest, head, i);
        lemma_occurs_behind(pre, rest, tail, i + head.len());
        assert(has_at(s, head, pre.len() + i) && occurs_from(s, tail, pre.len() + i + head.len()));
    }
}

/// A parameter decides for a line what it decides for what stands behind
/// `pre`, where `pre` holds no `<`.
proof fn lemma_decides_behind(pre: Seq<char>, rest: Seq<char>, p: ParamView)
    requires
        !pre.contains('<'),
    ensures
        decides(pre + rest, p) == decides(rest, p),
{
    reveal_strlit("<% if param.");
    let head = "<% if param."@ + p.key;
    let flag = "<% if param."@ + p.key + " %>"@;
    assert(head[0] == '<');
    assert(flag[0] == '<');
    lemma_contains_behind(pre, rest, flag);
    lemma_equality_skips(pre, rest, head, 0);
}

/// The parameters decide for a line what they decide for what stands behind
/// `pre`, where `pre` holds no `<`.
proof fn lemma_keeps_behind(pre: Seq<char>, rest: Seq<char>, params: Seq<ParamView>, i: int)
    requires
        !pre.contains('<'),
        0 <= i,
    ensures
        keeps_from(pre + rest, params, i) == keeps_from(rest, params, i),
    decreases params.len() - i,
{
    if i < params.len() {
        lemma_decides_behind(pre, rest, params[i]);
        lemma_keeps_behind(pre, rest, params, i + 1);
    }
}

// ---------------------------------------------------------------------------
// Lines that differ in the comment marker
// ---------------------------------------------------------------------------

/// Whether `m` is a comment marker: `#`, `//`, `/*` or `--`.
pub open spec fn is_marker(m: Seq<char>) -> bool {
    m == "#"@ || m == "//"@ || m == "/*"@ || m == "--"@
}

/// Whether `gap` is white space only.
pub open spec fn all_spaces(gap: Seq<char>) -> bool {
    forall|k: int| 0 <= k < gap.len() ==> is_space(#[trigger] gap[k])
}

/// Whether `body` is a directive: it begins with `<%` and holds `%>` after it.
pub open spec fn is_directive(body: Seq<char>) -> bool {
    has_at(body, "<%"@, 0) && occurs_from(body, "%>"@, 2)
}

/// A directive line: what leads in, a comment marker, white space, and the
/// directive.
pub open spec fn marked(lead: Seq<char>, m: Seq<char>, gap: Seq<char>, body: Seq<char>) -> Seq<
    char,
> {
    lead + m + gap + body
}

/// Whether two lines are the same directive line but for the comment marker
/// before the directive; what leads in holds no `<`.
pub open spec fn differ_in_marker(a: Seq<char>, b: Seq<char>) -> bool {
    exists|lead: Seq<char>, m1: Seq<char>, m2: Seq<char>, gap: Seq<char>, body: Seq<char>|
        #![trigger marked(lead, m1, gap, body), marked(lead, m2, gap, body)]
        !lead.contains('<') && is_marker(m1) && is_marker(m2) && all_spaces(gap) && is_directive(
            body,
        ) && a == marked(lead, m1, gap, body) && b == marked(lead, m2, gap, body)
}

/// Whether two lines are equal, or the same directive line but for the
/// comment marker.
pub open spec fn alike(a: Seq<char>, b: Seq<char>) -> bool {
    a == b || differ_in_marker(a, b)
}

/// A comment marker holds no `<` and has one or two characters; the marker
/// `#` has one, and no other marker begins with `#`.
proof fn lemma_marker_chars(m: Seq<char>)
    requires
        is_marker(m),
    ensures
        !m.contains('<'),
        1 <= m.len() <= 2,
        m == "#"@ ==> m.len() == 1 && m[0] == '#',
        m != "#"@ ==> m.len() == 2 && m[0] != '#',
{
    reveal_strlit("#");
    reveal_strlit("//");
    reveal_strlit("/*");
    reveal_strlit("--");
}

/// White space is skipped up to the first character that is none.
proof fn lemma_skip_run(s: Seq<char>, from: int, n: int)
    requires
        0 <= from,
        0 <= n,
        from + n < s.len(),
        forall|k: int| from <= k < from + n ==> is_space(#[trigger] s[k]),
        !is_space(s[from + n]),
    ensures
        skip_spaces(s, from) == from + n,
    decreases n,
{
    if n > 0 {
        lemma_skip_run(s, from + 1, n - 1);
    }
}

/// A directive line holds a syntax mark.
proof fn lemma_marked_is_mark(lead: Seq<char>, m: Seq<char>, gap: Seq<char>, body: Seq<char>)
    requires
        is_marker(m),
        all_spaces(gap),
        is_directive(body),
    ensures
        is_syntax_mark(marked(lead, m, gap, body)),
{
    reveal_strlit("<%");
    lemma_marker_chars(m);
    let s = marked(lead, m, gap, body);
    let a = lead.len() as int;
    let pre = lead + m + gap;
    assert(s =~= pre + body);
    assert(body.subrange(0, 2)[0] == '<');
    assert(body[0] == '<');
    assert(s.subrange(a, a + m.len()) =~= m);
    assert(has_at(s, m, a));
    if m != "#"@ {
        assert(!has_at(s, "#"@, a)) by {
            reveal_strlit("#");
            if has_at(s, "#"@, a) {
                assert(s.subrange(a, a + 1)[0] == '#');
            }
        }
    }
    assert(marker_at(s, a) == m.len());
    assert forall|k: int| a + m.len() <= k < a + m.len() + gap.len() implies is_space(
        #[trigger] s[k],
    ) by {
        assert(s[k] == gap[k - a - m.len()]);
    }
    assert(s[a + m.len() + gap.len()] == body[0]);
    lemma_skip_run(s, a + m.len(), gap.len() as int);
    lemma_has_at_behind(pre, body, "<%"@, 0);
    lemma_occurs_behind(pre, body, "%>"@, 2);
    assert(mark_at(s, a));
}

/// Two lines that are alike are read alike: both open a block or neither
/// does, the parameters decide the same for both, both hold the closing token
/// or neither does, and where they are not equal, both hold a syntax mark.
pub proof fn lemma_alike_lines(a: Seq<char>, b: Seq<char>, params: Seq<ParamView>)
    requires
        alike(a, b),
    ensures
        is_open(a) == is_open(b),
        is_close(a) == is_close(b),
        keeps_block(a, params) == keeps_block(b, params),
        a != b ==> is_syntax_mark(a) && is_syntax_mark(b),
{
    if a != b {
        let (lead, m1, m2, gap, body) = choose|
            lead: Seq<char>,
            m1: Seq<char>,
            m2: Seq<char>,
            gap: Seq<char>,
            body: Seq<char>,
        |
            #![trigger marked(lead, m1, gap, body), marked(lead, m2, gap, body)]
            !lead.contains('<') && is_marker(m1) && is_marker(m2) && all_spaces(gap)
                && is_directive(body) && a == marked(lead, m1, gap, body) && b == marked(
                lead,
                m2,
                gap,
                body,
            );
        lemma_marker_chars(m1);
        lemma_marker_chars(m2);
        let rest = gap + body;
        let pre1 = lead + m1;
        let pre2 = lead + m2;
        assert(a =~= pre1 + rest);
        assert(b =~= pre2 + rest);
        assert(!pre1.contains('<')) by {
            if pre1.contains('<') {
                let k = choose|k: int| 0 <= k < pre1.len() && pre1[k] == '<';
                if k < lead.len() {
                    assert(lead[k] == '<');
                } else {
                    assert(m1[k - lead.len()] == '<');
                }
            }
        }
        assert(!pre2.contains('<')) by {
            if pre2.contains('<') {
                let k = choose|k: int| 0 <= k < pre2.len() && pre2[k] == '<';
                if k < lead.len() {
                    assert(lead[k] == '<');
                } else {
                    assert(m2[k - lead.len()] == '<');
                }
            }
        }
        lemma_open_behind(pre1, rest);
        lemma_open_behind(pre2, rest);
        reveal_strlit("<% endif %>");
        lemma_contains_behind(pre1, rest, "<% endif %>"@);
        lemma_contains_behind(pre2, rest, "<% endif %>"@);
        lemma_keeps_behind(pre1, rest, params, 0);
        lemma_keeps_behind(pre2, rest, params, 0);
        lemma_marked_is_mark(lead, m1, gap, body);
        lemma_marked_is_mark(lead, m2, gap, body);
    }
}

// ---------------------------------------------------------------------------
// Templates that differ in the comment markers
// ---------------------------------------------------------------------------

/// Whether two lists of lines are alike, line by line.
pub open spec fn lines_alike(a: Seq<Seq<char>>, b: Seq<Seq<char>>) -> bool {
    a.len() == b.len() && forall|i: int| 0 <= i < a.len() ==> alike(#[trigger] a[i], b[i])
}

/// The first pass reads lines that are alike alike: after any number of
/// lines it skips on both sides or on neither, with the same opening line, and
/// the lines that it kept are alike.
proof fn lemma_scan_alike(
    a: Seq<Seq<char>>,
    b: Seq<Seq<char>>,
    params: Seq<ParamView>,
    n: int,
)
    requires
        lines_alike(a, b),
        0 <= n <= a.len(),
    ensures
        scan(a, params, n).skipping == scan(b, params, n).skipping,
        scan(a, params, n).opened_at == scan(b, params, n).opened_at,
        lines_alike(scan(a, params, n).kept, scan(b, params, n).kept),
    decreases n,
{
    if n > 0 {
        lemma_scan_alike(a, b, params, n - 1);
        lemma_alike_lines(a[n - 1], b[n - 1], params);
        let sa = scan(a, params, n - 1);
        let sb = scan(b, params, n - 1);
        let ta = scan_step(sa, a[n - 1], n - 1, params);
        let tb = scan_step(sb, b[n - 1], n - 1, params);
        assert(lines_alike(ta.kept, tb.kept)) by {
            if ta.kept != sa.kept {
                assert(ta.kept == sa.kept.push(a[n - 1]));
                assert(tb.kept == sb.kept.push(b[n - 1]));
                assert forall|i: int| 0 <= i < ta.kept.len() implies alike(
                    #[trigger] ta.kept[i],
                    tb.kept[i],
                ) by {
                    if i < sa.kept.len() {
                        assert(ta.kept[i] == sa.kept[i]);
                        assert(tb.kept[i] == sb.kept[i]);
                    }
                }
            } else {
                assert(tb.kept == sb.kept);
            }
        }
    }
}

/// The second pass makes the same of lines that are alike.
proof fn lemma_emit_alike(
    a: Seq<Seq<char>>,
    b: Seq<Seq<char>>,
    project: ProjectView,
    params: Seq<ParamView>,
    builtins: Seq<BuiltinView>,
    ctx: Context,
)
    requires
        lines_alike(a, b),
    ensures
        emit(a, project, params, builtins, ctx) == emit(b, project, params, builtins, ctx),
    decreases a.len(),
{
    if a.len() > 0 {
        assert(lines_alike(a.drop_last(), b.drop_last())) by {
            assert forall|i: int| 0 <= i < a.drop_last().len() implies alike(
                #[trigger] a.drop_last()[i],
                b.drop_last()[i],
            ) by {
                assert(a.drop_last()[i] == a[i]);
                assert(b.drop_last()[i] == b[i]);
            }
        }
        lemma_emit_alike(a.drop_last(), b.drop_last(), project, params, builtins, ctx);
        assert(alike(a[a.len() - 1], b[a.len() - 1]));
        lemma_alike_lines(a.last(), b.last(), params);
    }
}

/// The comment marker before a directive does not matter. Let two templates
/// have the same number of lines, each line of the one equal to the line of
/// the other, or the same directive line but for the comment marker (`#`,
/// `//`, `/*` or `--`) that stands before the directive. Then the resolver
/// makes the same text of both, or finds in both a block that is never closed,
/// opened in the same line.
pub proof fn lemma_marker_independence(
    text_a: Seq<char>,
    text_b: Seq<char>,
    project: ProjectView,
    params: Seq<ParamView>,
    builtins: Seq<BuiltinView>,
    ctx: Context,
)
    requires
        lines_alike(split(text_a, '\n'), split(text_b, '\n')),
    ensures
        match (
            resolved_template(text_a, project, params, builtins, ctx),
            resolved_template(text_b, project, params, builtins, ctx),
        ) {
            (Ok(out_a), Ok(out_b)) => out_a == out_b,
            (Err(e_a), Err(e_b)) => e_a.line == e_b.line,
            _ => false,
        },
{
    let a = split(text_a, '\n');
    let b = split(text_b, '\n');
    lemma_scan_alike(a, b, params, a.len() as int);
    let end_a = scan(a, params, a.len() as int);
    let end_b = scan(b, params, b.len() as int);
    if !end_a.skipping {
        lemma_emit_alike(end_a.kept, end_b.kept, project, params, builtins, ctx);
    }
}

// ---------------------------------------------------------------------------
// A flag that is off
// ---------------------------------------------------------------------------

/// A rule whose condition is the key of a flag with the value `false` keeps
/// its path out of the output: the path is not present, the copy pass skips
/// the entry there, and it never reads a directory there.
pub proof fn lemma_false_flag_excludes(
    run: Reframe,
    rule: int,
    flag: int,
    path: Seq<char>,
    is_dir: bool,
)
    requires
        0 <= rule < run.config.presents@.len(),
        0 <= flag < run.param@.len(),
        same_path(run.config.presents@[rule]@.path, path),
        run.param@[flag]@.key == run.config.presents@[rule]@.ifcond,
        run.param@[flag]@.kind == ParamKind::Bool,
        run.param@[flag]@.value == Some("false"@),
    ensures
        !is_present(path, present_views(run.config.presents@), param_views(run.param@)),
        copies(run, path, is_dir) == CopyAction::Skip,
        path.len() > 0 ==> !may_read(run, path),
{
    let rules = present_views(run.config.presents@);
    let params = param_views(run.param@);
    assert(rules[rule] == run.config.presents@[rule]@);
    assert(params[flag] == run.param@[flag]@);
    assert(relevance(rules[rule].ifcond, params[flag]) == Relevance::Excludes);
    assert(!rule_admits(rules[rule].ifcond, params));
}

// ---------------------------------------------------------------------------
// Answers and unique keys
// ---------------------------------------------------------------------------

/// Whether no key occurs twice among the parameters.
pub open spec fn keys_unique(params: Seq<ParamView>) -> bool {
    forall|i: int, j: int|
        0 <= i < j < params.len() ==> (#[trigger] params[i]).key != (#[trigger] params[j]).key
}

/// Where the keys of the parameters are unique, an answer reaches the
/// parameter that was asked for and no other: that parameter has the value,
/// every other parameter is as it was, and the case variants of a text
/// parameter, and nothing else, are new.
pub proof fn lemma_answer_reaches_the_asked(
    params: Seq<ParamView>,
    cursor: int,
    value: Seq<char>,
)
    requires
        0 <= cursor < params.len(),
        keys_unique(params),
    ensures
        after_answer(params, cursor, value)[cursor] == with_value(params[cursor], value),
        forall|k: int|
            0 <= k < params.len() && k != cursor ==> #[trigger] after_answer(
                params,
                cursor,
                value,
            )[k] == params[k],
        after_answer(params, cursor, value).len() == params.len() + if params[cursor].kind
            == ParamKind::String {
            7int
        } else {
            0int
        },
        params[cursor].kind == ParamKind::String ==> after_answer(params, cursor, value).skip(
            params.len() as int,
        ) == case_variants(with_value(params[cursor], value)),
{
    let p = with_value(params[cursor], value);
    let grown = if p.kind == ParamKind::String {
        params + case_variants(p)
    } else {
        params
    };
    lemma_first_with_key_bound(grown, p.key, 0, cursor);
    let i = first_with_key(grown, p.key, 0);
    lemma_first_with_key_found(grown, p.key, 0);
    assert(grown[i] == params[i]);
    assert(i == cursor);
    let after = after_answer(params, cursor, value);
    assert(after == grown.update(cursor, with_value(grown[cursor], value)));
    if p.kind == ParamKind::String {
        assert(after.skip(params.len() as int) =~= case_variants(p));
    }
}

/// Where `first_with_key` finds an index, the key stands there.
proof fn lemma_first_with_key_found(params: Seq<ParamView>, key: Seq<char>, from: int)
    requires
        0 <= from,
    ensures
        first_with_key(params, key, from) < params.len() ==> params[first_with_key(
            params,
            key,
            from,
        )].key == key,
    decreases params.len() - from,
{
    if from < params.len() && params[from].key != key {
        lemma_first_with_key_found(params, key, from + 1);
    }
}

// ---------------------------------------------------------------------------
// Case variants
// ---------------------------------------------------------------------------

/// A parameter has exactly seven case variants. The variant at each position
/// has the key of the parameter, an underscore and the name of the casing form
/// of that position: `lower_case`, `upper_case`, `snake_case`, `kebab_case`,
/// `camel_case`, `pascal_case`, `shout_snake_case`. Its value and its default
/// are those of the parameter in that form, each where the parameter has one;
/// it depends on what the parameter depends on; it is a derived text
/// parameter.
pub proof fn lemma_seven_variants(p: ParamView)
    ensures
        case_variants(p).len() == 7,
        forall|i: int|
            0 <= i < 7 ==> {
                let v = #[trigger] case_variants(p)[i];
                &&& v.key == p.key + "_"@ + style_name(all_styles()[i])
                &&& v.value == styled_opt(all_styles()[i], p.value)
                &&& v.default == styled_opt(all_styles()[i], p.default)
                &&& v.ifwith == p.ifwith
                &&& v.kind == ParamKind::String
                &&& v.derived
            },
        case_variants(p)[0].key == p.key + "_"@ + "lower_case"@,
        case_variants(p)[1].key == p.key + "_"@ + "upper_case"@,
        case_variants(p)[2].key == p.key + "_"@ + "snake_case"@,
        case_variants(p)[3].key == p.key + "_"@ + "kebab_case"@,
        case_variants(p)[4].key == p.key + "_"@ + "camel_case"@,
        case_variants(p)[5].key == p.key + "_"@ + "pascal_case"@,
        case_variants(p)[6].key == p.key + "_"@ + "shout_snake_case"@,
{
}

/// A declaration with a question, without options, and with a default that
/// is neither `true` nor `false`, makes a text parameter.
pub proof fn lemma_declared_text(d: DeclView)
    requires
        raw_text(d.ask) is Some,
        declared_options(d).len() == 0,
        d.options is Some ==> d.options->0.len() == 0,
        raw_text(d.default) != Some("true"@),
        raw_text(d.default) != Some("false"@),
    ensures
        declared(d) matches Ok(p) && p.kind == ParamKind::String && p.key == d.key && p.value
            is None && !p.derived,
{
}

/// An answer to a text parameter derives exactly its seven case variants,
/// which stand at the end, and nothing else; an answer to any other parameter
/// derives nothing. The parameters that were there keep their keys and are
/// derived or not as before.
pub proof fn lemma_answer_derives_seven(params: Seq<ParamView>, cursor: int, value: Seq<char>)
    requires
        0 <= cursor < params.len(),
    ensures
        params[cursor].kind == ParamKind::String ==> after_answer(params, cursor, value).len()
            == params.len() + 7 && after_answer(params, cursor, value).skip(params.len() as int)
            == case_variants(with_value(params[cursor], value)),
        params[cursor].kind != ParamKind::String ==> after_answer(params, cursor, value).len()
            == params.len(),
        forall|k: int|
            0 <= k < params.len() ==> (#[trigger] after_answer(params, cursor, value)[k]).key
                == params[k].key && after_answer(params, cursor, value)[k].derived
                == params[k].derived,
{
    let p = with_value(params[cursor], value);
    let grown = if p.kind == ParamKind::String {
        params + case_variants(p)
    } else {
        params
    };
    lemma_first_with_key_bound(grown, p.key, 0, cursor);
    let i = first_with_key(grown, p.key, 0);
    let after = after_answer(params, cursor, value);
    assert(after == grown.update(i, with_value(grown[i], value)));
    if p.kind == ParamKind::String {
        assert(after.skip(params.len() as int) =~= case_variants(p));
    }
}

// ---------------------------------------------------------------------------
// The template suffix
// ---------------------------------------------------------------------------

/// What `last_split` finds is the greatest index not above `hi` at which
/// the name splits.
proof fn lemma_last_split(name: Seq<char>, words: Seq<bool>, hi: int)
    requires
        hi >= -1,
    ensures
        -1 <= last_split(name, words, hi) <= hi,
        last_split(name, words, hi) >= 0 ==> splits_at(name, words, last_split(name, words, hi)),
        forall|j: int|
            last_split(name, words, hi) < j <= hi ==> !#[trigger] splits_at(name, words, j),
    decreases hi + 1,
{
    if hi >= 0 && !splits_at(name, words, hi) {
        lemma_last_split(name, words, hi - 1);
    }
}

/// A name `BASE.template` becomes `BASE`, and a name `BASE.template.EXT`
/// becomes `BASE.EXT`, where `EXT` holds word characters only and no `.`.
pub proof fn lemma_template_suffix(base: Seq<char>, ext: Seq<char>)
    requires
        ext.len() == 0 || (ext[0] == '.' && forall|k: int|
            1 <= k < ext.len() ==> word_char(#[trigger] ext[k]) && ext[k] != '.'),
    ensures
        stripped(base + ".template"@ + ext) == Some(base + ext),
{
    reveal_strlit(".template");
    let mark = ".template"@;
    let name = base + mark + ext;
    let words = word_flags(name);
    let at = base.len() as int;
    let end = name.len() as int;
    assert(name.subrange(at, at + mark.len()) =~= mark);
    assert(has_at(name, mark, at));
    assert(is_secondary(name, words, at + mark.len())) by {
        if ext.len() > 0 {
            assert(name[at + mark.len()] == ext[0]);
            assert forall|k: int| at + mark.len() < k < name.len() implies words[k] by {
                assert(name[k] == ext[k - at - mark.len()]);
            }
        }
    }
    assert(splits_at(name, words, at));
    lemma_last_split(name, words, end);
    let r = last_split(name, words, end);
    assert(r >= at);
    if r > at {
        assert(name.subrange(r, r + mark.len())[0] == mark[0]);
        assert(name[r] == '.');
        if r < at + mark.len() {
            assert(name[r] == mark[r - at]);
        } else {
            assert(name[r] == ext[r - at - mark.len()]);
            assert(r == at + mark.len());
            assert(ext.len() >= mark.len());
            if r + mark.len() < end {
                assert(name[r + mark.len()] == ext[mark.len() as int]);
            }
            assert(ext.len() == mark.len());
            assert(ext =~= name.subrange(r, r + mark.len()));
            assert(name.take(r) + name.skip(r + mark.len()) =~= base + ext);
        }
    } else {
        assert(name.take(at) + name.skip(at + mark.len()) =~= base + ext);
    }
}

} // verus!
