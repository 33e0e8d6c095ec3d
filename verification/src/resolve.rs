//! The resolution of parameters: which parameter is asked for next, and what
//! an answer does to the parameters.

use vstd::prelude::*;
use crate::declare::{ConfigDataError, ConfigDataErrorView};
use crate::param::{
    case_variants, copy_opt, copy_texts, param_views, Param, ParamKind, ParamView,
};
use crate::text::{chars_of, opt_text, same, string_of, texts, trim, trimmed};

verus! {

/// The index of the first parameter from `from` on with the key `key`, or
/// the number of parameters where there is none.
pub open spec fn first_with_key(params: Seq<ParamView>, key: Seq<char>, from: int) -> int
    decreases params.len() - from,
{
    if from < 0 || from >= params.len() {
        params.len() as int
    } else if params[from].key == key {
        from
    } else {
        first_with_key(params, key, from + 1)
    }
}

/// How a parameter stands to the parameter that it depends on.
#[derive(Clone, Copy, Debug, PartialEq, Eq, Structural)]
pub enum Dependency {
    /// It is asked for: it depends on nothing, or on a key that no parameter
    /// has, or on a parameter whose value is not `false`.
    Free,
    /// It is passed over: it depends on a parameter whose value is `false`.
    Off,
    /// It depends on a parameter that has no value yet.
    Unresolved,
}

/// How the parameter `p` stands to the parameter that it depends on, the
/// first of `params` with that key.
pub open spec fn dependency(params: Seq<ParamView>, p: ParamView) -> Dependency {
    match p.ifwith {
        None => Dependency::Free,
        Some(depends) => {
            let i = first_with_key(params, depends, 0);
            if i >= params.len() {
                Dependency::Free
            } else {
                match params[i].value {
                    None => Dependency::Unresolved,
                    Some(v) => if v == "false"@ {
                        Dependency::Off
                    } else {
                        Dependency::Free
                    },
                }
            }
        },
    }
}

/// The index of the parameter that is asked for next, from `cursor` on and
/// below `declared`; `declared` where none is left; an error where the next
/// one depends on a parameter without a value.
pub open spec fn next_index(params: Seq<ParamView>, declared: int, cursor: int) -> Result<
    int,
    ConfigDataErrorView,
>
    decreases declared - cursor,
{
    if cursor < 0 || cursor >= declared || cursor >= params.len() {
        Ok(declared)
    } else {
        match dependency(params, params[cursor]) {
            Dependency::Off => next_index(params, declared, cursor + 1),
            Dependency::Unresolved => Err(
                ConfigDataErrorView::UnresolvedDependency {
                    key: params[cursor].key,
                    depends: params[cursor].ifwith->0,
                },
            ),
            Dependency::Free => Ok(cursor),
        }
    }
}

/// What is asked of the user for one parameter.
#[derive(Clone, Debug, PartialEq, Eq)]
pub struct Question {
    /// The key of the parameter.
    pub key: String,
    /// The text of the question.
    pub ask: String,
    /// The answers that are accepted; any, where the list is empty.
    pub options: Vec<String>,
    /// The answer that an empty reply stands for.
    pub default: Option<String>,
}

/// The mathematical content of a [`Question`].
pub struct QuestionView {
    pub key: Seq<char>,
    pub ask: Seq<char>,
    pub options: Seq<Seq<char>>,
    pub default: Option<Seq<char>>,
}

impl View for Question {
    type V = QuestionView;

    open spec fn view(&self) -> QuestionView {
        QuestionView {
            key: self.key@,
            ask: self.ask@,
            options: texts(self.options@),
            default: opt_text(self.default),
        }
    }
}

/// The question for the parameter `p`.
pub open spec fn question_for(p: ParamView) -> QuestionView {
    QuestionView { key: p.key, ask: p.ask, options: p.options, default: p.default }
}

/// What became of a reply.
#[derive(Clone, Copy, Debug, PartialEq, Eq, Structural)]
pub enum Outcome {
    /// The parameter has its value; the next one is due.
    Accepted,
    /// The reply is none of the options; the question is asked again.
    Unsupported,
    /// The reply is empty and there is no default; the question is asked again.
    Required,
}

/// The value that the reply `reply` gives the parameter `p`: the reply
/// without the white space around it, if that is not empty and, where `p` has
/// options, is one of them; the default, if the reply is empty and there is a
/// default.
pub open spec fn accepted_value(p: ParamView, reply: Seq<char>) -> Result<Seq<char>, Outcome> {
    let answer = trim(reply);
    if answer.len() > 0 {
        if p.options.len() > 0 && !p.options.contains(answer) {
            Err(Outcome::Unsupported)
        } else {
            Ok(answer)
        }
    } else {
        match p.default {
            Some(d) => Ok(d),
            None => Err(Outcome::Required),
        }
    }
}

/// The parameter `p` with the value `value`.
pub open spec fn with_value(p: ParamView, value: Seq<char>) -> ParamView {
    ParamView {
        ask: p.ask,
        key: p.key,
        default: p.default,
        value: Some(value),
        ifwith: p.ifwith,
        options: p.options,
        kind: p.kind,
        derived: p.derived,
    }
}

/// The parameters after the parameter at `cursor` got the value `value`:
/// where it is a text parameter, its seven case variants stand at the end;
/// the first parameter with its key has the value.
pub open spec fn after_answer(params: Seq<ParamView>, cursor: int, value: Seq<char>) -> Seq<
    ParamView,
> {
    let p = with_value(params[cursor], value);
    let grown = if p.kind == ParamKind::String {
        params + case_variants(p)
    } else {
        params
    };
    let i = first_with_key(grown, p.key, 0);
    grown.update(i, with_value(grown[i], value))
}

/// The index of the first parameter with the key `key`.
pub fn find_key(params: &Vec<Param>, key: &[char]) -> (r: usize)
    ensures
        r == first_with_key(param_views(params@), key@, 0),
        r <= params.len(),
{
    let mut i: usize = 0;
    while i < params.len()
        invariant
            i <= params.len(),
            first_with_key(param_views(params@), key@, 0) == first_with_key(
                param_views(params@),
                key@,
                i as int,
            ),
        decreases params.len() - i,
    {
        assert(param_views(params@)[i as int] == params@[i as int]@);
        let k = chars_of(params[i].key.as_str());
        if same(k.as_slice(), key) {
            return i;
        }
        i += 1;
    }
    i
}

/// How the parameter at `index` stands to the parameter that it depends on.
pub fn dependency_of(params: &Vec<Param>, index: usize) -> (r: Dependency)
    requires
        index < params.len(),
    ensures
        r == dependency(param_views(params@), params@[index as int]@),
{
    match &params[index].ifwith {
        None => Dependency::Free,
        Some(depends) => {
            let key = chars_of(depends.as_str());
            let i = find_key(params, key.as_slice());
            if i >= params.len() {
                Dependency::Free
            } else {
                assert(param_views(params@)[i as int] == params@[i as int]@);
                match &params[i].value {
                    None => Dependency::Unresolved,
                    Some(v) => {
                        let value = chars_of(v.as_str());
                        let no = chars_of("false");
                        if same(value.as_slice(), no.as_slice()) {
                            Dependency::Off
                        } else {
                            Dependency::Free
                        }
                    },
                }
            }
        },
    }
}

/// The index of the parameter that is asked for next.
pub fn advance(params: &Vec<Param>, declared: usize, cursor: usize) -> (r: Result<
    usize,
    ConfigDataError,
>)
    requires
        cursor <= declared <= params.len(),
    ensures
        match r {
            Ok(i) => next_index(param_views(params@), declared as int, cursor as int) == Ok::<
                int,
                ConfigDataErrorView,
            >(i as int) && cursor <= i <= declared,
            Err(e) => next_index(param_views(params@), declared as int, cursor as int) == Err::<
                int,
                ConfigDataErrorView,
            >(e@),
        },
{
    let mut i: usize = cursor;
    while i < declared
        invariant
            cursor <= i <= declared <= params.len(),
            next_index(param_views(params@), declared as int, cursor as int) == next_index(
                param_views(params@),
                declared as int,
                i as int,
            ),
        decreases declared - i,
    {
        assert(param_views(params@)[i as int] == params@[i as int]@);
        match dependency_of(params, i) {
            Dependency::Off => {},
            Dependency::Free => {
                return Ok(i);
            },
            Dependency::Unresolved => {
                let depends = match &params[i].ifwith {
                    Some(d) => d.clone(),
                    None => String::new(),
                };
                return Err(
                    ConfigDataError::UnresolvedDependency { key: params[i].key.clone(), depends },
                );
            },
        }
        i += 1;
    }
    Ok(i)
}

/// The question for the parameter `p`.
pub fn ask_for(p: &Param) -> (r: Question)
    ensures
        r@ == question_for(p@),
{
    Question {
        key: p.key.clone(),
        ask: p.ask.clone(),
        options: copy_texts(&p.options),
        default: copy_opt(&p.default),
    }
}

/// Whether `answer` is one of `options`.
fn among(options: &Vec<String>, answer: &[char]) -> (r: bool)
    ensures
        r == texts(options@).contains(answer@),
{
    crate::tree::listed(options, answer)
}

/// The value that the reply `reply` gives the parameter `p`.
pub fn accept(p: &Param, reply: &str) -> (r: Result<String, Outcome>)
    ensures
        match r {
            Ok(v) => accepted_value(p@, reply@) == Ok::<Seq<char>, Outcome>(v@),
            Err(o) => accepted_value(p@, reply@) == Err::<Seq<char>, Outcome>(o),
        },
{
    let chars = chars_of(reply);
    let answer = trimmed(chars.as_slice());
    if answer.len() > 0 {
        if p.options.len() > 0 && !among(&p.options, answer.as_slice()) {
            Err(Outcome::Unsupported)
        } else {
            Ok(string_of(answer.as_slice()))
        }
    } else {
        match &p.default {
            Some(d) => Ok(d.clone()),
            None => Err(Outcome::Required),
        }
    }
}

/// A copy of the parameter `p` with the value `value`.
fn valued(p: &Param, value: &String) -> (r: Param)
    ensures
        r@ == with_value(p@, value@),
{
    let mut q = p.duplicate();
    q.value = Some(value.clone());
    q
}

/// Gives the parameter at `cursor` the value `value`.
pub fn settle(params: &mut Vec<Param>, cursor: usize, value: &String)
    requires
        cursor < old(params).len(),
    ensures
        param_views(final(params)@) == after_answer(
            param_views(old(params)@),
            cursor as int,
            value@,
        ),
        final(params).len() >= old(params).len(),
{
    let ghost before = param_views(params@);
    assert(before[cursor as int] == params@[cursor as int]@);
    let p = valued(&params[cursor], value);
    if p.kind == ParamKind::String {
        let mut variants = p.expand_case_variants();
        let ghost tail = param_views(variants@);
        params.append(&mut variants);
        assert(param_views(params@) =~= before + tail);
    }
    let ghost grown = param_views(params@);
    let key = chars_of(p.key.as_str());
    let i = find_key(params, key.as_slice());
    assert(i <= cursor) by {
        lemma_first_with_key_bound(grown, key@, 0, cursor as int);
    }
    assert(grown[i as int] == params@[i as int]@);
    let q = valued(&params[i], value);
    params.set(i, q);
    assert(param_views(params@) =~= grown.update(i as int, with_value(grown[i as int], value@)));
}

/// The first parameter with a key stands not after any parameter with it.
pub proof fn lemma_first_with_key_bound(
    params: Seq<ParamView>,
    key: Seq<char>,
    from: int,
    at: int,
)
    requires
        0 <= from <= at < params.len(),
        params[at].key == key,
    ensures
        from <= first_with_key(params, key, from) <= at,
    decreases at - from,
{
    if params[from].key != key {
        lemma_first_with_key_bound(params, key, from + 1, at);
    }
}

} // verus!
