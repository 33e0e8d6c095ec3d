//! Parameters: the named values that drive the customisation of a template.

use vstd::prelude::*;
use crate::case::{
    all_styles, apply_style_opt, make_variant_key, style_at, styled_opt, variant_key, CaseStyle,
};
use crate::text::{opt_text, texts};

verus! {

/// The kind of a parameter.
#[derive(Clone, Copy, Debug, PartialEq, Eq, Structural)]
pub enum ParamKind {
    /// A flag: its value is `true` or `false`.
    Bool,
    /// A free text.
    String,
    /// One text out of a list of options.
    Options,
}

/// A parameter of a template.
#[derive(Clone, Debug, PartialEq, Eq)]
pub struct Param {
    /// The question that asks for the value.
    pub ask: String,
    /// The key, unique among the parameters of a run.
    pub key: String,
    /// The value taken when the answer is empty.
    pub default: Option<String>,
    /// The value, once the parameter is resolved.
    pub value: Option<String>,
    /// The key of the parameter that this one depends on.
    pub ifwith: Option<String>,
    /// The values that are accepted, for the kind `Options`.
    pub options: Vec<String>,
    pub kind: ParamKind,
    /// Whether this parameter is a case variant derived from another.
    pub derived: bool,
}

/// The mathematical content of a [`Param`].
pub struct ParamView {
    pub ask: Seq<char>,
    pub key: Seq<char>,
    pub default: Option<Seq<char>>,
    pub value: Option<Seq<char>>,
    pub ifwith: Option<Seq<char>>,
    pub options: Seq<Seq<char>>,
    pub kind: ParamKind,
    pub derived: bool,
}

impl View for Param {
    type V = ParamView;

    open spec fn view(&self) -> ParamView {
        ParamView {
            ask: self.ask@,
            key: self.key@,
            default: opt_text(self.default),
            value: opt_text(self.value),
            ifwith: opt_text(self.ifwith),
            options: texts(self.options@),
            kind: self.kind,
            derived: self.derived,
        }
    }
}

/// The views of the parameters in `params`.
pub open spec fn param_views(params: Seq<Param>) -> Seq<ParamView> {
    params.map_values(|p: Param| p@)
}

/// A copy of an optional text.
pub fn copy_opt(o: &Option<String>) -> (r: Option<String>)
    ensures
        opt_text(r) == opt_text(*o),
{
    match o {
        Some(s) => Some(s.clone()),
        None => None,
    }
}

/// A copy of a list of texts.
pub fn copy_texts(v: &Vec<String>) -> (r: Vec<String>)
    ensures
        texts(r@) == texts(v@),
{
    let mut out: Vec<String> = Vec::new();
    let mut i: usize = 0;
    while i < v.len()
        invariant
            i <= v.len(),
            out@.len() == i,
            forall|j: int| 0 <= j < i ==> (#[trigger] out@[j])@ == v@[j]@,
        decreases v.len() - i,
    {
        out.push(v[i].clone());
        i += 1;
    }
    assert(texts(out@) =~= texts(v@));
    out
}

/// The variant of the parameter `p` in the casing form `style`: its key is
/// the key of `p`, an underscore and the name of the form; its default and
/// its value are those of `p` in that form, each where `p` has one; it
/// depends on what `p` depends on.
pub open spec fn variant_of(p: ParamView, style: CaseStyle) -> ParamView {
    ParamView {
        ask: Seq::empty(),
        key: variant_key(p.key, style),
        default: styled_opt(style, p.default),
        value: styled_opt(style, p.value),
        ifwith: p.ifwith,
        options: Seq::empty(),
        kind: ParamKind::String,
        derived: true,
    }
}

/// The seven case variants of the parameter `p`, in the order of derivation.
pub open spec fn case_variants(p: ParamView) -> Seq<ParamView> {
    Seq::new(7, |i: int| variant_of(p, all_styles()[i]))
}

impl Param {
    /// A resolved text parameter with the key `key` and the value `value`.
    pub fn new(key: String, value: String) -> (r: Param)
        ensures
            r@ == (ParamView {
                ask: Seq::empty(),
                key: key@,
                default: None,
                value: Some(value@),
                ifwith: None,
                options: Seq::empty(),
                kind: ParamKind::String,
                derived: false,
            }),
    {
        let p = Param {
            ask: String::new(),
            key,
            default: None,
            value: Some(value),
            ifwith: None,
            options: Vec::new(),
            kind: ParamKind::String,
            derived: false,
        };
        assert(texts(p.options@) =~= Seq::empty());
        p
    }

    /// A copy of this parameter.
    pub fn duplicate(&self) -> (r: Param)
        ensures
            r@ == self@,
    {
        Param {
            ask: self.ask.clone(),
            key: self.key.clone(),
            default: copy_opt(&self.default),
            value: copy_opt(&self.value),
            ifwith: copy_opt(&self.ifwith),
            options: copy_texts(&self.options),
            kind: self.kind,
            derived: self.derived,
        }
    }

    /// The variant of this parameter in the casing form `style`, with the
    /// default `default` and the value `value`: a derived text parameter
    /// without question and options, whose key is the key of this parameter,
    /// an underscore and the name of the form, and which depends on what this
    /// parameter depends on.
    pub fn variant_with(&self, style: CaseStyle, default: Option<String>, value: Option<String>)
        -> (r: Param)
        ensures
            r@ == (ParamView {
                ask: Seq::empty(),
                key: variant_key(self@.key, style),
                default: opt_text(default),
                value: opt_text(value),
                ifwith: self@.ifwith,
                options: Seq::empty(),
                kind: ParamKind::String,
                derived: true,
            }),
    {
        let p = Param {
            ask: String::new(),
            key: make_variant_key(self.key.as_str(), style),
            default,
            value,
            ifwith: copy_opt(&self.ifwith),
            options: Vec::new(),
            kind: ParamKind::String,
            derived: true,
        };
        assert(texts(p.options@) =~= Seq::empty());
        p
    }

    /// The variant of this parameter in the casing form `style`.
    pub fn derive_variant(&self, style: CaseStyle) -> (r: Param)
        ensures
            r@ == variant_of(self@, style),
    {
        self.variant_with(
            style,
            apply_style_opt(style, &self.default),
            apply_style_opt(style, &self.value),
        )
    }

    /// The seven case variants of this parameter: `lower_case`, `upper_case`,
    /// `snake_case`, `kebab_case`, `camel_case`, `pascal_case` and
    /// `shout_snake_case`, in this order.
    pub fn expand_case_variants(&self) -> (r: Vec<Param>)
        ensures
            r@.len() == 7,
            param_views(r@) == case_variants(self@),
    {
        let mut out: Vec<Param> = Vec::new();
        let mut i: usize = 0;
        while i < 7
            invariant
                i <= 7,
                out@.len() == i,
                forall|j: int|
                    0 <= j < i ==> (#[trigger] out@[j])@ == variant_of(self@, all_styles()[j]),
            decreases 7 - i,
        {
            out.push(self.derive_variant(style_at(i)));
            i += 1;
        }
        assert(param_views(out@) =~= case_variants(self@));
        out
    }
}

} // verus!
