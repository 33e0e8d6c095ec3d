//! The seven casing forms that are derived from a text value.

use vstd::prelude::*;
use vstd::string::StringExecFns;

verus! {

/// What `str::to_lowercase` returns for a text.
pub uninterp spec fn lower_case(s: Seq<char>) -> Seq<char>;

/// What `str::to_uppercase` returns for a text.
pub uninterp spec fn upper_case(s: Seq<char>) -> Seq<char>;

/// What `heck::SnakeCase::to_snake_case` returns for a text.
pub uninterp spec fn snake_case(s: Seq<char>) -> Seq<char>;

/// What `heck::KebabCase::to_kebab_case` returns for a text.
pub uninterp spec fn kebab_case(s: Seq<char>) -> Seq<char>;

/// What `heck::MixedCase::to_mixed_case` returns for a text.
pub uninterp spec fn mixed_case(s: Seq<char>) -> Seq<char>;

/// What `heck::CamelCase::to_camel_case` returns for a text.
pub uninterp spec fn camel_case(s: Seq<char>) -> Seq<char>;

/// What `heck::ShoutySnakeCase::to_shouty_snake_case` returns for a text.
pub uninterp spec fn shouty_snake_case(s: Seq<char>) -> Seq<char>;

/// Taken on trust of `str::to_lowercase`, which returns the lowercase
/// equivalent of the text as a new string: what it returns depends on the
/// text alone. `lower_case` is the name of that result.
pub assume_specification[ str::to_lowercase ](s: &str) -> (r: std::string::String)
    ensures
        r@ == lower_case(s@),
;

/// Taken on trust of `str::to_uppercase`, which returns the uppercase
/// equivalent of the text as a new string: what it returns depends on the
/// text alone. `upper_case` is the name of that result.
pub assume_specification[ str::to_uppercase ](s: &str) -> (r: std::string::String)
    ensures
        r@ == upper_case(s@),
;

/// Calls `heck::SnakeCase::to_snake_case` on the text, which gives the words
/// of the text in lowercase, joined by underscores. Taken on trust: the call
/// returns, and what it returns depends on the text alone. `snake_case` is the
/// name of that result.
#[verifier::external_body]
fn heck_snake(s: &str) -> (r: String)
    ensures
        r@ == snake_case(s@),
{
    heck::SnakeCase::to_snake_case(s)
}

/// Calls `heck::KebabCase::to_kebab_case` on the text, which gives the words
/// of the text in lowercase, joined by hyphens. Taken on trust: the call
/// returns, and what it returns depends on the text alone. `kebab_case` is the
/// name of that result.
#[verifier::external_body]
fn heck_kebab(s: &str) -> (r: String)
    ensures
        r@ == kebab_case(s@),
{
    heck::KebabCase::to_kebab_case(s)
}

/// Calls `heck::MixedCase::to_mixed_case` on the text, which gives the words
/// of the text run together, each capitalised but the first. Taken on trust:
/// the call returns, and what it returns depends on the text alone.
/// `mixed_case` is the name of that result.
#[verifier::external_body]
fn heck_mixed(s: &str) -> (r: String)
    ensures
        r@ == mixed_case(s@),
{
    heck::MixedCase::to_mixed_case(s)
}

/// Calls `heck::CamelCase::to_camel_case` on the text, which gives the words
/// of the text run together, each capitalised. Taken on trust: the call
/// returns, and what it returns depends on the text alone. `camel_case` is the
/// name of that result.
#[verifier::external_body]
fn heck_camel(s: &str) -> (r: String)
    ensures
        r@ == camel_case(s@),
{
    heck::CamelCase::to_camel_case(s)
}

/// Calls `heck::ShoutySnakeCase::to_shouty_snake_case` on the text, which
/// gives the words of the text in uppercase, joined by underscores. Taken on
/// trust: the call returns, and what it returns depends on the text alone.
/// `shouty_snake_case` is the name of that result.
#[verifier::external_body]
fn heck_shouty_snake(s: &str) -> (r: String)
    ensures
        r@ == shouty_snake_case(s@),
{
    heck::ShoutySnakeCase::to_shouty_snake_case(s)
}

/// A casing form.
#[derive(Clone, Copy, Debug, PartialEq, Eq, Structural)]
pub enum CaseStyle {
    /// `lower case`
    Lower,
    /// `UPPER CASE`
    Upper,
    /// `snake_case`
    Snake,
    /// `kebab-case`
    Kebab,
    /// `camelCase`: the first word in lowercase
    Camel,
    /// `PascalCase`
    Pascal,
    /// `SHOUT_SNAKE_CASE`
    ShoutSnake,
}

/// The seven casing forms, in the order in which variants are derived.
pub open spec fn all_styles() -> Seq<CaseStyle> {
    seq![
        CaseStyle::Lower,
        CaseStyle::Upper,
        CaseStyle::Snake,
        CaseStyle::Kebab,
        CaseStyle::Camel,
        CaseStyle::Pascal,
        CaseStyle::ShoutSnake,
    ]
}

/// The text `s` in the casing form `style`.
pub open spec fn styled(style: CaseStyle, s: Seq<char>) -> Seq<char> {
    match style {
        CaseStyle::Lower => lower_case(s),
        CaseStyle::Upper => upper_case(s),
        CaseStyle::Snake => snake_case(s),
        CaseStyle::Kebab => kebab_case(s),
        CaseStyle::Camel => mixed_case(s),
        CaseStyle::Pascal => camel_case(s),
        CaseStyle::ShoutSnake => shouty_snake_case(s),
    }
}

/// The name of a casing form, as it ends the key of a derived variant.
pub open spec fn style_name(style: CaseStyle) -> Seq<char> {
    match style {
        CaseStyle::Lower => "lower_case"@,
        CaseStyle::Upper => "upper_case"@,
        CaseStyle::Snake => "snake_case"@,
        CaseStyle::Kebab => "kebab_case"@,
        CaseStyle::Camel => "camel_case"@,
        CaseStyle::Pascal => "pascal_case"@,
        CaseStyle::ShoutSnake => "shout_snake_case"@,
    }
}

/// The key of the variant of `base` in the casing form `style`.
pub open spec fn variant_key(base: Seq<char>, style: CaseStyle) -> Seq<char> {
    base + "_"@ + style_name(style)
}

/// The text `s` in the casing form `style`, where there is a text.
pub open spec fn styled_opt(style: CaseStyle, s: Option<Seq<char>>) -> Option<Seq<char>> {
    match s {
        Some(t) => Some(styled(style, t)),
        None => None,
    }
}

/// The casing form at position `i` of the order of derivation.
pub fn style_at(i: usize) -> (r: CaseStyle)
    requires
        i < 7,
    ensures
        r == all_styles()[i as int],
{
    if i == 0 {
        CaseStyle::Lower
    } else if i == 1 {
        CaseStyle::Upper
    } else if i == 2 {
        CaseStyle::Snake
    } else if i == 3 {
        CaseStyle::Kebab
    } else if i == 4 {
        CaseStyle::Camel
    } else if i == 5 {
        CaseStyle::Pascal
    } else {
        CaseStyle::ShoutSnake
    }
}

/// The text `s` in the casing form `style`.
pub fn apply_style(style: CaseStyle, s: &str) -> (r: String)
    ensures
        r@ == styled(style, s@),
{
    match style {
        CaseStyle::Lower => s.to_lowercase(),
        CaseStyle::Upper => s.to_uppercase(),
        CaseStyle::Snake => heck_snake(s),
        CaseStyle::Kebab => heck_kebab(s),
        CaseStyle::Camel => heck_mixed(s),
        CaseStyle::Pascal => heck_camel(s),
        CaseStyle::ShoutSnake => heck_shouty_snake(s),
    }
}

/// The text held by `s` in the casing form `style`, where there is a text.
pub fn apply_style_opt(style: CaseStyle, s: &Option<String>) -> (r: Option<String>)
    ensures
        crate::text::opt_text(r) == styled_opt(style, crate::text::opt_text(*s)),
{
    match s {
        Some(t) => Some(apply_style(style, t.as_str())),
        None => None,
    }
}

/// The key of the variant of `base` in the casing form `style`.
pub fn make_variant_key(base: &str, style: CaseStyle) -> (r: String)
    ensures
        r@ == variant_key(base@, style),
{
    let name: &str = match style {
        CaseStyle::Lower => "lower_case",
        CaseStyle::Upper => "upper_case",
        CaseStyle::Snake => "snake_case",
        CaseStyle::Kebab => "kebab_case",
        CaseStyle::Camel => "camel_case",
        CaseStyle::Pascal => "pascal_case",
        CaseStyle::ShoutSnake => "shout_snake_case",
    };
    let mut key = String::from_str(base);
    key.append("_");
    key.append(name);
    key
}

} // verus!
