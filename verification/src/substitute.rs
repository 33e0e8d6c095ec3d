//! The variable substitutor: literal replacement of `$key$` tokens from the
//! project, the builtin variables and the parameters, in a fixed order.

use vstd::prelude::*;
use crate::builtin::{builtin_views, resolved, BuiltinVar, BuiltinView, Context};
use crate::config::{variant_views, ProjectConfig, ProjectView, Variant, VariantView};
use crate::param::{param_views, Param, ParamView};
use crate::text::{
    append, chars_of, contains_char, lemma_replace_absent, replace, replace_all, string_of,
};

verus! {

/// One replacement: every occurrence of `token` becomes `value`.
pub struct RuleView {
    pub token: Seq<char>,
    pub value: Seq<char>,
}

/// The token of a key: the key between two `$`.
pub open spec fn token(key: Seq<char>) -> Seq<char> {
    seq!['$'] + key + seq!['$']
}

/// The text after the replacements `rules`, made one after the other, each
/// on the result of the one before.
pub open spec fn apply_rules(text: Seq<char>, rules: Seq<RuleView>) -> Seq<char>
    decreases rules.len(),
{
    if rules.len() == 0 {
        text
    } else {
        let last = rules.last();
        replace_all(apply_rules(text, rules.drop_last()), last.token, last.value)
    }
}

/// The index of the first project variable with a key of the greatest length.
pub open spec fn first_longest(vars: Seq<VariantView>) -> int
    decreases vars.len(),
{
    if vars.len() <= 1 {
        0
    } else {
        let i = first_longest(vars.drop_last());
        if vars.last().key.len() > vars[i].key.len() {
            vars.len() - 1
        } else {
            i
        }
    }
}

/// The project variables with the longest key first; among keys of one
/// length, the one that stands first comes first.
pub open spec fn longest_first(vars: Seq<VariantView>) -> Seq<VariantView>
    decreases vars.len(),
{
    if vars.len() == 0 {
        Seq::empty()
    } else {
        let i = first_longest(vars);
        if 0 <= i < vars.len() {
            seq![vars[i]] + longest_first(vars.remove(i))
        } else {
            Seq::empty()
        }
    }
}

/// The replacement that a project variable stands for.
pub open spec fn variant_rule(v: VariantView) -> RuleView {
    RuleView { token: token(v.key), value: v.value }
}

/// The replacements of the project variables `vars`, in the given order.
pub open spec fn rules_of(vars: Seq<VariantView>) -> Seq<RuleView> {
    vars.map_values(|v: VariantView| variant_rule(v))
}

/// The replacements of the project variables: longest key first.
pub open spec fn variant_rules(vars: Seq<VariantView>) -> Seq<RuleView> {
    rules_of(longest_first(vars))
}

/// The replacements of the builtin variables, in order; a variable whose
/// value cannot be computed has none.
pub open spec fn builtin_rules(vars: Seq<BuiltinView>, ctx: Context) -> Seq<RuleView>
    decreases vars.len(),
{
    if vars.len() == 0 {
        Seq::empty()
    } else {
        let before = builtin_rules(vars.drop_last(), ctx);
        match resolved(vars.last().resolver, ctx) {
            Some(value) => before.push(RuleView { token: token(vars.last().key), value }),
            None => before,
        }
    }
}

/// The key of the token of a parameter: `param.` and the key of the parameter.
pub open spec fn param_token_key(key: Seq<char>) -> Seq<char> {
    "param."@ + key
}

/// The replacements of the parameters, in order; a parameter without a
/// value has none.
pub open spec fn param_rules(params: Seq<ParamView>) -> Seq<RuleView>
    decreases params.len(),
{
    if params.len() == 0 {
        Seq::empty()
    } else {
        let before = param_rules(params.drop_last());
        match params.last().value {
            Some(value) => before.push(
                RuleView { token: token(param_token_key(params.last().key)), value },
            ),
            None => before,
        }
    }
}

/// All replacements of a substitution, in the order in which they are made:
/// `$name$`, the project variables, the builtin variables, `$version$`, the
/// parameters.
pub open spec fn plan(
    project: ProjectView,
    params: Seq<ParamView>,
    builtins: Seq<BuiltinView>,
    ctx: Context,
) -> Seq<RuleView> {
    seq![RuleView { token: token("name"@), value: project.name }] + variant_rules(
        project.variants,
    ) + builtin_rules(builtins, ctx) + seq![
        RuleView { token: token("version"@), value: project.version },
    ] + param_rules(params)
}

/// The text after substitution: the text itself where it holds no `$`, else
/// the text after all replacements of the plan.
pub open spec fn substituted(
    text: Seq<char>,
    project: ProjectView,
    params: Seq<ParamView>,
    builtins: Seq<BuiltinView>,
    ctx: Context,
) -> Seq<char> {
    if !text.contains('$') {
        text
    } else {
        apply_rules(text, plan(project, params, builtins, ctx))
    }
}

/// Replacements made one after the other are the replacements of the two
/// lists made in turn.
proof fn lemma_apply_concat(text: Seq<char>, a: Seq<RuleView>, b: Seq<RuleView>)
    ensures
        apply_rules(text, a + b) == apply_rules(apply_rules(text, a), b),
    decreases b.len(),
{
    if b.len() == 0 {
        assert(a + b =~= a);
    } else {
        lemma_apply_concat(text, a, b.drop_last());
        assert((a + b).drop_last() =~= a + b.drop_last());
        assert((a + b).last() == b.last());
    }
}

/// One replacement is a list of one.
proof fn lemma_apply_one(text: Seq<char>, rule: RuleView)
    ensures
        apply_rules(text, seq![rule]) == replace_all(text, rule.token, rule.value),
{
    assert(seq![rule].drop_last() =~= Seq::<RuleView>::empty());
    assert(apply_rules(text, seq![rule].drop_last()) == text);
}

/// Replacements whose tokens all begin with `$` leave alone a text that
/// holds no `$`.
pub proof fn lemma_apply_without_dollar(text: Seq<char>, rules: Seq<RuleView>)
    requires
        !text.contains('$'),
        forall|i: int|
            0 <= i < rules.len() ==> (#[trigger] rules[i]).token.len() > 0 && rules[i].token[0]
                == '$',
    ensures
        apply_rules(text, rules) == text,
    decreases rules.len(),
{
    if rules.len() > 0 {
        lemma_apply_without_dollar(text, rules.drop_last());
        let last = rules.last();
        assert(last == rules[rules.len() - 1]);
        lemma_replace_absent(text, last.token, last.value, 0);
        assert(text.skip(0) =~= text);
    }
}

/// The token of a key.
pub fn make_token(key: &[char]) -> (r: Vec<char>)
    ensures
        r@ == token(key@),
{
    let mut out: Vec<char> = Vec::new();
    out.push('$');
    append(&mut out, key);
    out.push('$');
    assert(out@ =~= token(key@));
    out
}

/// The text with every occurrence of the token of `key` replaced by `value`.
pub fn replace_token(text: &[char], key: &[char], value: &[char]) -> (r: Vec<char>)
    ensures
        r@ == replace_all(text@, token(key@), value@),
{
    let tok = make_token(key);
    replace(text, tok.as_slice(), value)
}

/// The index of the first project variable in `vars` with a key of the
/// greatest length.
fn pick_longest(vars: &Vec<Variant>) -> (r: usize)
    requires
        vars.len() > 0,
    ensures
        r == first_longest(variant_views(vars@)),
        r < vars.len(),
{
    let mut best: usize = 0;
    let mut best_len: usize = chars_of(vars[0].key.as_str()).len();
    let mut i: usize = 1;
    let ghost all = variant_views(vars@);
    assert(all.take(1).len() == 1);
    while i < vars.len()
        invariant
            1 <= i <= vars.len(),
            all == variant_views(vars@),
            best == first_longest(all.take(i as int)),
            best < i,
            best_len == all[best as int].key.len(),
        decreases vars.len() - i,
    {
        let len = chars_of(vars[i].key.as_str()).len();
        let ghost next = all.take(i + 1);
        assert(next.drop_last() =~= all.take(i as int));
        assert(next.last() == all[i as int]);
        assert(next[best as int] == all[best as int]);
        if len > best_len {
            best = i;
            best_len = len;
        }
        i += 1;
    }
    assert(all.take(vars.len() as int) =~= all);
    best
}

/// A copy of the project variables.
fn copy_variants(vars: &Vec<Variant>) -> (r: Vec<Variant>)
    ensures
        variant_views(r@) == variant_views(vars@),
{
    let mut out: Vec<Variant> = Vec::new();
    let mut i: usize = 0;
    while i < vars.len()
        invariant
            i <= vars.len(),
            out@.len() == i,
            forall|j: int| 0 <= j < i ==> (#[trigger] out@[j])@ == vars@[j]@,
        decreases vars.len() - i,
    {
        out.push(Variant { key: vars[i].key.clone(), value: vars[i].value.clone() });
        i += 1;
    }
    assert(variant_views(out@) =~= variant_views(vars@));
    out
}

/// The text after the replacements of the project variables.
fn substitute_variants(text: Vec<char>, vars: &Vec<Variant>) -> (r: Vec<char>)
    ensures
        r@ == apply_rules(text@, variant_rules(variant_views(vars@))),
{
    let mut rest = copy_variants(vars);
    let mut rep = text;
    while rest.len() > 0
        invariant
            apply_rules(rep@, variant_rules(variant_views(rest@))) == apply_rules(
                text@,
                variant_rules(variant_views(vars@)),
            ),
        decreases rest.len(),
    {
        let ghost before = variant_views(rest@);
        let ghost start = rep@;
        let i = pick_longest(&rest);
        let picked = rest.remove(i);
        let key = chars_of(picked.key.as_str());
        let value = chars_of(picked.value.as_str());
        rep = replace_token(rep.as_slice(), key.as_slice(), value.as_slice());
        proof {
            let rule = variant_rule(before[i as int]);
            assert(picked@ == before[i as int]);
            assert(variant_views(rest@) =~= before.remove(i as int));
            assert(longest_first(before) == seq![before[i as int]] + longest_first(
                before.remove(i as int),
            ));
            assert(variant_rules(before) =~= seq![rule] + variant_rules(before.remove(i as int)));
            lemma_apply_concat(start, seq![rule], variant_rules(before.remove(i as int)));
            lemma_apply_one(start, rule);
        }
    }
    assert(variant_views(rest@) =~= Seq::<VariantView>::empty());
    assert(longest_first(variant_views(rest@)) =~= Seq::<VariantView>::empty());
    assert(variant_rules(variant_views(rest@)) =~= Seq::<RuleView>::empty());
    rep
}

/// The text after the replacements of the builtin variables.
fn substitute_builtins(text: Vec<char>, vars: &[BuiltinVar], ctx: &Context) -> (r: Vec<char>)
    ensures
        r@ == apply_rules(text@, builtin_rules(builtin_views(vars@), *ctx)),
{
    let mut rep = text;
    let mut i: usize = 0;
    let ghost all = builtin_views(vars@);
    assert(all.take(0) =~= Seq::<BuiltinView>::empty());
    while i < vars.len()
        invariant
            i <= vars.len(),
            all == builtin_views(vars@),
            rep@ == apply_rules(text@, builtin_rules(all.take(i as int), *ctx)),
        decreases vars.len() - i,
    {
        let ghost next = all.take(i + 1);
        assert(next.drop_last() =~= all.take(i as int));
        assert(next.last() == vars@[i as int]@);
        let so_far = string_of(rep.as_slice());
        match vars[i].resolve(ctx, so_far.as_str()) {
            Some(value) => {
                let key = chars_of(vars[i].key.as_str());
                let val = chars_of(value.as_str());
                rep = replace_token(rep.as_slice(), key.as_slice(), val.as_slice());
                assert(builtin_rules(next, *ctx).drop_last() =~= builtin_rules(
                    all.take(i as int),
                    *ctx,
                ));
            },
            None => {},
        }
        i += 1;
    }
    assert(all.take(vars.len() as int) =~= all);
    rep
}

/// The text after the replacements of the parameters.
fn substitute_params(text: Vec<char>, params: &[Param]) -> (r: Vec<char>)
    ensures
        r@ == apply_rules(text@, param_rules(param_views(params@))),
{
    let mut rep = text;
    let mut i: usize = 0;
    let ghost all = param_views(params@);
    assert(all.take(0) =~= Seq::<ParamView>::empty());
    while i < params.len()
        invariant
            i <= params.len(),
            all == param_views(params@),
            rep@ == apply_rules(text@, param_rules(all.take(i as int))),
        decreases params.len() - i,
    {
        let ghost next = all.take(i + 1);
        assert(next.drop_last() =~= all.take(i as int));
        assert(next.last() == params@[i as int]@);
        match &params[i].value {
            Some(value) => {
                let mut key = chars_of("param.");
                let name = chars_of(params[i].key.as_str());
                append(&mut key, name.as_slice());
                let val = chars_of(value.as_str());
                rep = replace_token(rep.as_slice(), key.as_slice(), val.as_slice());
                assert(param_rules(next).drop_last() =~= param_rules(all.take(i as int)));
            },
            None => {},
        }
        i += 1;
    }
    assert(all.take(params.len() as int) =~= all);
    rep
}

/// The text after one replacement: the token of `key` becomes `value`.
fn substitute_one(text: Vec<char>, key: &str, value: &str) -> (r: Vec<char>)
    ensures
        r@ == apply_rules(text@, seq![RuleView { token: token(key@), value: value@ }]),
{
    let k = chars_of(key);
    let val = chars_of(value);
    proof {
        lemma_apply_one(text@, RuleView { token: token(key@), value: value@ });
    }
    replace_token(text.as_slice(), k.as_slice(), val.as_slice())
}

/// Substitution on a text: where the text holds no `$` it is returned as it
/// is; else `$name$` becomes the name of the project, the token of each
/// project variable its value (longest key first), the token of each builtin
/// variable its value in `ctx`, `$version$` the version of the project, and
/// `$param.KEY$` the value of the parameter `KEY`, for each parameter that has
/// a value. Each replacement is literal and is made on the result of the one
/// before.
pub fn substitute(
    text: &[char],
    project: &ProjectConfig,
    params: &[Param],
    builtins: &[BuiltinVar],
    ctx: &Context,
) -> (r: Vec<char>)
    ensures
        r@ == substituted(text@, project@, param_views(params@), builtin_views(builtins@), *ctx),
        !text@.contains('$') ==> r@ == text@,
{
    let mut rep: Vec<char> = Vec::new();
    append(&mut rep, text);
    assert(rep@ =~= text@);
    if !contains_char(text, '$') {
        return rep;
    }
    let ghost r0 = seq![RuleView { token: token("name"@), value: project@.name }];
    let ghost r1 = variant_rules(project@.variants);
    let ghost r2 = builtin_rules(builtin_views(builtins@), *ctx);
    let ghost r3 = seq![RuleView { token: token("version"@), value: project@.version }];
    let ghost r4 = param_rules(param_views(params@));
    let rep = substitute_one(rep, "name", project.name.as_str());
    let rep = substitute_variants(rep, &project.variants);
    let rep = substitute_builtins(rep, builtins, ctx);
    let rep = substitute_one(rep, "version", project.version.as_str());
    let rep = substitute_params(rep, params);
    proof {
        lemma_apply_concat(text@, r0, r1);
        lemma_apply_concat(text@, r0 + r1, r2);
        lemma_apply_concat(text@, r0 + r1 + r2, r3);
        lemma_apply_concat(text@, r0 + r1 + r2 + r3, r4);
    }
    rep
}

} // verus!
