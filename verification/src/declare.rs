//! From the declarations of a configuration to parameters.

use vstd::prelude::*;
use crate::config::{ParamDecl, RawValue};
use crate::param::{Param, ParamKind, ParamView};
use crate::text::{chars_of, opt_text, same, texts};

verus! {

/// The mathematical content of a [`RawValue`].
pub enum RawView {
    Text(Seq<char>),
    Flag(bool),
    Other,
}

impl View for RawValue {
    type V = RawView;

    open spec fn view(&self) -> RawView {
        match self {
            RawValue::Text(s) => RawView::Text(s@),
            RawValue::Flag(b) => RawView::Flag(*b),
            RawValue::Other => RawView::Other,
        }
    }
}

/// The view of an optional raw value.
pub open spec fn opt_raw(v: Option<RawValue>) -> Option<RawView> {
    match v {
        Some(raw) => Some(raw@),
        None => None,
    }
}

/// The views of the raw values in `items`.
pub open spec fn raw_views(items: Seq<RawValue>) -> Seq<RawView> {
    items.map_values(|v: RawValue| v@)
}

/// The mathematical content of a [`ParamDecl`].
pub struct DeclView {
    pub key: Seq<char>,
    pub ask: Option<RawView>,
    pub default: Option<RawView>,
    pub ifwith: Option<RawView>,
    pub options: Option<Seq<RawView>>,
}

impl View for ParamDecl {
    type V = DeclView;

    open spec fn view(&self) -> DeclView {
        DeclView {
            key: self.key@,
            ask: opt_raw(self.ask),
            default: opt_raw(self.default),
            ifwith: opt_raw(self.ifwith),
            options: match self.options {
                Some(items) => Some(raw_views(items@)),
                None => None,
            },
        }
    }
}

/// The views of the declarations in `decls`.
pub open spec fn decl_views(decls: Seq<ParamDecl>) -> Seq<DeclView> {
    decls.map_values(|d: ParamDecl| d@)
}

/// A declaration that cannot be made a parameter.
#[derive(Clone, Debug, PartialEq, Eq)]
pub enum ConfigDataError {
    /// The declaration of `key` has no field `ask` that is a text or a flag.
    MissingAsk { key: String },
    /// The options of `key` hold an item that is no text.
    NonStringOption { key: String },
    /// The parameter `key` depends on `depends`, which has no value yet.
    UnresolvedDependency { key: String, depends: String },
}

/// The mathematical content of a [`ConfigDataError`].
pub enum ConfigDataErrorView {
    MissingAsk { key: Seq<char> },
    NonStringOption { key: Seq<char> },
    UnresolvedDependency { key: Seq<char>, depends: Seq<char> },
}

impl View for ConfigDataError {
    type V = ConfigDataErrorView;

    open spec fn view(&self) -> ConfigDataErrorView {
        match self {
            ConfigDataError::MissingAsk { key } => ConfigDataErrorView::MissingAsk { key: key@ },
            ConfigDataError::NonStringOption { key } => ConfigDataErrorView::NonStringOption {
                key: key@,
            },
            ConfigDataError::UnresolvedDependency {
                key,
                depends,
            } => ConfigDataErrorView::UnresolvedDependency { key: key@, depends: depends@ },
        }
    }
}

/// The text that a raw value stands for: a text stands for itself, a flag
/// for `true` or `false`, anything else for nothing.
pub open spec fn raw_text(v: Option<RawView>) -> Option<Seq<char>> {
    match v {
        Some(RawView::Text(s)) => Some(s),
        Some(RawView::Flag(b)) => Some(
            if b {
                "true"@
            } else {
                "false"@
            },
        ),
        _ => None,
    }
}

/// Whether all of `items` are texts.
pub open spec fn all_texts(items: Seq<RawView>) -> bool {
    forall|i: int| 0 <= i < items.len() ==> (#[trigger] items[i]) is Text
}

/// The texts of `items`, which are all texts.
pub open spec fn item_texts(items: Seq<RawView>) -> Seq<Seq<char>> {
    items.map_values(|v: RawView| v->Text_0)
}

/// The options of a declaration: the texts of its list, where it has one.
pub open spec fn declared_options(d: DeclView) -> Seq<Seq<char>> {
    match d.options {
        Some(items) => item_texts(items),
        None => Seq::empty(),
    }
}

/// The kind of a parameter: a flag where its default is `true` or `false`;
/// else one of options, where it has any; else a text.
pub open spec fn kind_of(default: Option<Seq<char>>, options: Seq<Seq<char>>) -> ParamKind {
    if default == Some("true"@) || default == Some("false"@) {
        ParamKind::Bool
    } else if options.len() > 0 {
        ParamKind::Options
    } else {
        ParamKind::String
    }
}

/// The parameter that a declaration makes, not yet resolved; an error where
/// the declaration has no question, or an option that is no text.
pub open spec fn declared(d: DeclView) -> Result<ParamView, ConfigDataErrorView> {
    match raw_text(d.ask) {
        None => Err(ConfigDataErrorView::MissingAsk { key: d.key }),
        Some(ask) => if d.options is Some && !all_texts(d.options->0) {
            Err(ConfigDataErrorView::NonStringOption { key: d.key })
        } else {
            Ok(
                ParamView {
                    ask,
                    key: d.key,
                    default: raw_text(d.default),
                    value: None,
                    ifwith: raw_text(d.ifwith),
                    options: declared_options(d),
                    kind: kind_of(raw_text(d.default), declared_options(d)),
                    derived: false,
                },
            )
        },
    }
}

/// The parameters that the declarations make, in order; the error of the
/// first declaration that makes none.
pub open spec fn declared_all(decls: Seq<DeclView>) -> Result<Seq<ParamView>, ConfigDataErrorView>
    decreases decls.len(),
{
    if decls.len() == 0 {
        Ok(Seq::empty())
    } else {
        match declared_all(decls.drop_last()) {
            Err(e) => Err(e),
            Ok(before) => match declared(decls.last()) {
                Err(e) => Err(e),
                Ok(p) => Ok(before.push(p)),
            },
        }
    }
}

/// The text that a raw value stands for.
pub fn get_string_option(v: &Option<RawValue>) -> (r: Option<String>)
    ensures
        opt_text(r) == raw_text(opt_raw(*v)),
{
    match v {
        Some(RawValue::Text(s)) => Some(s.clone()),
        Some(RawValue::Flag(b)) => {
            if *b {
                Some("true".to_owned())
            } else {
                Some("false".to_owned())
            }
        },
        _ => None,
    }
}

/// The text of the field `ask` of the declaration of `key`.
pub fn get_string(v: &Option<RawValue>, key: &str) -> (r: Result<String, ConfigDataError>)
    ensures
        match r {
            Ok(s) => raw_text(opt_raw(*v)) == Some(s@),
            Err(e) => raw_text(opt_raw(*v)) is None && e@ == (ConfigDataErrorView::MissingAsk {
                key: key@,
            }),
        },
{
    match get_string_option(v) {
        Some(s) => Ok(s),
        None => Err(ConfigDataError::MissingAsk { key: key.to_owned() }),
    }
}

/// The texts of the options of a declaration; `None` where one is no text.
fn option_list(items: &Vec<RawValue>) -> (r: Option<Vec<String>>)
    ensures
        match r {
            Some(list) => all_texts(raw_views(items@)) && texts(list@) == item_texts(
                raw_views(items@),
            ),
            None => !all_texts(raw_views(items@)),
        },
{
    let mut out: Vec<String> = Vec::new();
    let mut i: usize = 0;
    let ghost all = raw_views(items@);
    while i < items.len()
        invariant
            i <= items.len(),
            all == raw_views(items@),
            out@.len() == i,
            forall|j: int| 0 <= j < i ==> (#[trigger] all[j]) is Text,
            forall|j: int| 0 <= j < i ==> (#[trigger] out@[j])@ == all[j]->Text_0,
        decreases items.len() - i,
    {
        assert(all[i as int] == items@[i as int]@);
        match &items[i] {
            RawValue::Text(s) => {
                out.push(s.clone());
            },
            _ => {
                assert(!(all[i as int] is Text));
                return None;
            },
        }
        i += 1;
    }
    assert(texts(out@) =~= item_texts(all));
    Some(out)
}

/// The kind of a parameter with the default `default` and the options `options`.
fn infer_kind(default: &Option<String>, options: &Vec<String>) -> (r: ParamKind)
    ensures
        r == kind_of(opt_text(*default), texts(options@)),
{
    let flag = match default {
        Some(d) => {
            let chars = chars_of(d.as_str());
            let yes = chars_of("true");
            let no = chars_of("false");
            same(chars.as_slice(), yes.as_slice()) || same(chars.as_slice(), no.as_slice())
        },
        None => false,
    };
    if flag {
        ParamKind::Bool
    } else if options.len() > 0 {
        ParamKind::Options
    } else {
        ParamKind::String
    }
}

/// The parameter that a declaration makes.
pub fn declare(d: &ParamDecl) -> (r: Result<Param, ConfigDataError>)
    ensures
        match r {
            Ok(p) => declared(d@) == Ok::<ParamView, ConfigDataErrorView>(p@),
            Err(e) => declared(d@) == Err::<ParamView, ConfigDataErrorView>(e@),
        },
{
    let ask = match get_string(&d.ask, d.key.as_str()) {
        Ok(s) => s,
        Err(e) => {
            return Err(e);
        },
    };
    let default = get_string_option(&d.default);
    let options = match &d.options {
        Some(items) => match option_list(items) {
            Some(list) => list,
            None => {
                return Err(ConfigDataError::NonStringOption { key: d.key.clone() });
            },
        },
        None => {
            let none: Vec<String> = Vec::new();
            assert(texts(none@) =~= Seq::empty());
            none
        },
    };
    let kind = infer_kind(&default, &options);
    Ok(
        Param {
            ask,
            key: d.key.clone(),
            default,
            value: None,
            ifwith: get_string_option(&d.ifwith),
            options,
            kind,
            derived: false,
        },
    )
}

/// The parameters that the declarations make, in order.
pub fn declare_all(decls: &Vec<ParamDecl>) -> (r: Result<Vec<Param>, ConfigDataError>)
    ensures
        match r {
            Ok(params) => declared_all(decl_views(decls@)) == Ok::<
                Seq<ParamView>,
                ConfigDataErrorView,
            >(crate::param::param_views(params@)),
            Err(e) => declared_all(decl_views(decls@)) == Err::<
                Seq<ParamView>,
                ConfigDataErrorView,
            >(e@),
        },
{
    let mut out: Vec<Param> = Vec::new();
    let mut i: usize = 0;
    let ghost all = decl_views(decls@);
    assert(all.take(0) =~= Seq::<DeclView>::empty());
    assert(crate::param::param_views(out@) =~= Seq::<ParamView>::empty());
    while i < decls.len()
        invariant
            i <= decls.len(),
            all == decl_views(decls@),
            declared_all(all.take(i as int)) == Ok::<Seq<ParamView>, ConfigDataErrorView>(
                crate::param::param_views(out@),
            ),
        decreases decls.len() - i,
    {
        let ghost next = all.take(i + 1);
        assert(next.drop_last() =~= all.take(i as int));
        assert(next.last() == decls@[i as int]@);
        let ghost before = crate::param::param_views(out@);
        match declare(&decls[i]) {
            Ok(p) => {
                out.push(p);
                assert(crate::param::param_views(out@) =~= before.push(p@));
            },
            Err(e) => {
                proof {
                    lemma_error_stays(all, i + 1);
                }
                return Err(e);
            },
        }
        i += 1;
    }
    assert(all.take(decls.len() as int) =~= all);
    Ok(out)
}

/// An error among the first `n` declarations is the error of all.
proof fn lemma_error_stays(decls: Seq<DeclView>, n: int)
    requires
        0 <= n <= decls.len(),
        declared_all(decls.take(n)) is Err,
    ensures
        declared_all(decls) == declared_all(decls.take(n)),
    decreases decls.len() - n,
{
    if n < decls.len() {
        assert(decls.take(n + 1).drop_last() =~= decls.take(n));
        lemma_error_stays(decls, n + 1);
    } else {
        assert(decls.take(n) =~= decls);
    }
}

} // verus!
