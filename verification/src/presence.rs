//! The presence evaluator: whether a path enters the output tree at all.

use vstd::prelude::*;
use crate::config::{present_views, Present, PresentView};
use crate::param::{param_views, Param, ParamKind, ParamView};
use crate::path::{paths_equal, same_path};
use crate::text::{append, chars_of, copy_range, has_at, match_at, same};

verus! {

/// What a parameter means to the condition of a rule.
#[derive(Clone, Copy, Debug, PartialEq, Eq, Structural)]
pub enum Relevance {
    /// The parameter excludes the path.
    Excludes,
    /// The parameter admits the path.
    Admits,
    /// The condition does not speak of the parameter.
    Unrelated,
}

/// What the parameter `p` means to the condition `cond`.
///
/// Where the condition is the key of `p` and `p` is a flag, `p` excludes the
/// path if its value is `false` and admits it otherwise. Where the condition
/// is the key of `p`, then ` == `, then a text, `p` admits the path if its
/// value is that text and excludes it otherwise. Any other condition does not
/// speak of `p`.
pub open spec fn relevance(cond: Seq<char>, p: ParamView) -> Relevance {
    if p.key == cond && p.kind == ParamKind::Bool {
        if p.value == Some("false"@) {
            Relevance::Excludes
        } else {
            Relevance::Admits
        }
    } else if has_at(cond, p.key + " == "@, 0) {
        if p.value == Some(cond.skip((p.key + " == "@).len() as int)) {
            Relevance::Admits
        } else {
            Relevance::Excludes
        }
    } else {
        Relevance::Unrelated
    }
}

/// Whether a rule with the condition `cond` admits its path: no parameter
/// excludes it, and at least one admits it.
pub open spec fn rule_admits(cond: Seq<char>, params: Seq<ParamView>) -> bool {
    &&& forall|i: int|
        0 <= i < params.len() ==> relevance(cond, #[trigger] params[i]) != Relevance::Excludes
    &&& exists|i: int|
        0 <= i < params.len() && relevance(cond, #[trigger] params[i]) == Relevance::Admits
}

/// Whether the path `candidate` is present: every rule on that path admits
/// it. A path without a rule is present.
pub open spec fn is_present(
    candidate: Seq<char>,
    rules: Seq<PresentView>,
    params: Seq<ParamView>,
) -> bool {
    forall|i: int|
        0 <= i < rules.len() && same_path((#[trigger] rules[i]).path, candidate) ==> rule_admits(
            rules[i].ifcond,
            params,
        )
}

/// What the parameter `p` means to the condition `cond`.
pub fn relevance_of(cond: &[char], p: &Param) -> (r: Relevance)
    ensures
        r == relevance(cond@, p@),
{
    let key = chars_of(p.key.as_str());
    let no = chars_of("false");
    if same(key.as_slice(), cond) && p.kind == ParamKind::Bool {
        let off = match &p.value {
            Some(v) => {
                let value = chars_of(v.as_str());
                same(value.as_slice(), no.as_slice())
            },
            None => false,
        };
        if off {
            Relevance::Excludes
        } else {
            Relevance::Admits
        }
    } else {
        let mut head: Vec<char> = Vec::new();
        append(&mut head, key.as_slice());
        let eq = chars_of(" == ");
        append(&mut head, eq.as_slice());
        assert(head@ =~= p@.key + " == "@);
        if match_at(cond, head.as_slice(), 0) {
            let wanted = copy_range(cond, head.len(), cond.len());
            let met = match &p.value {
                Some(v) => {
                    let value = chars_of(v.as_str());
                    same(value.as_slice(), wanted.as_slice())
                },
                None => false,
            };
            if met {
                Relevance::Admits
            } else {
                Relevance::Excludes
            }
        } else {
            Relevance::Unrelated
        }
    }
}

/// Whether a rule with the condition `cond` admits its path.
pub fn admits(cond: &[char], params: &[Param]) -> (r: bool)
    ensures
        r == rule_admits(cond@, param_views(params@)),
{
    let mut admitted = false;
    let mut i: usize = 0;
    let ghost all = param_views(params@);
    while i < params.len()
        invariant
            i <= params.len(),
            all == param_views(params@),
            forall|j: int|
                0 <= j < i ==> relevance(cond@, #[trigger] all[j]) != Relevance::Excludes,
            admitted == exists|j: int|
                0 <= j < i && relevance(cond@, #[trigger] all[j]) == Relevance::Admits,
        decreases params.len() - i,
    {
        assert(all[i as int] == params@[i as int]@);
        match relevance_of(cond, &params[i]) {
            Relevance::Excludes => {
                return false;
            },
            Relevance::Admits => {
                admitted = true;
            },
            Relevance::Unrelated => {},
        }
        i += 1;
    }
    admitted
}

/// Whether the path `candidate`, relative to the root of the template, is
/// present under the rules `rules` and the parameters `params`.
pub fn present(candidate: &str, rules: &[Present], params: &[Param]) -> (r: bool)
    ensures
        r == is_present(candidate@, present_views(rules@), param_views(params@)),
{
    let path = chars_of(candidate);
    let mut i: usize = 0;
    let ghost all = present_views(rules@);
    while i < rules.len()
        invariant
            i <= rules.len(),
            path@ == candidate@,
            all == present_views(rules@),
            forall|j: int|
                0 <= j < i && same_path((#[trigger] all[j]).path, candidate@) ==> rule_admits(
                    all[j].ifcond,
                    param_views(params@),
                ),
        decreases rules.len() - i,
    {
        assert(all[i as int] == rules@[i as int]@);
        let rule_path = chars_of(rules[i].path.as_str());
        if paths_equal(rule_path.as_slice(), path.as_slice()) {
            let cond = chars_of(rules[i].ifcond.as_str());
            if !admits(cond.as_slice(), params) {
                return false;
            }
        }
        i += 1;
    }
    true
}

} // verus!
