//! The configuration of a template, as it is handed in already parsed.

use vstd::prelude::*;
use crate::text::{chars_of, opt_text, same, texts};

verus! {

/// A rule that gates whether a path enters the output tree.
#[derive(Clone, Debug, PartialEq, Eq)]
pub struct Present {
    /// The path, relative to the root of the template.
    pub path: String,
    /// The condition under which the path is present.
    pub ifcond: String,
}

/// The mathematical content of a [`Present`].
pub struct PresentView {
    pub path: Seq<char>,
    pub ifcond: Seq<char>,
}

impl View for Present {
    type V = PresentView;

    open spec fn view(&self) -> PresentView {
        PresentView { path: self.path@, ifcond: self.ifcond@ }
    }
}

/// The views of the rules in `rules`.
pub open spec fn present_views(rules: Seq<Present>) -> Seq<PresentView> {
    rules.map_values(|r: Present| r@)
}

/// Something to do once the tree is materialised.
#[derive(Clone, Debug, PartialEq, Eq)]
pub struct PostGenerateOp {
    /// A path, relative to the output, of a file to make executable.
    pub make_executable: Option<String>,
}

/// What a template says of itself.
#[derive(Clone, Debug, PartialEq, Eq)]
pub struct ReframeConfig {
    pub name: String,
    pub author: String,
    /// The least version of the tool that the template works with.
    pub min_version: String,
}

/// A project variable: a key and the text that stands for it.
#[derive(Clone, Debug, PartialEq, Eq)]
pub struct Variant {
    pub key: String,
    pub value: String,
}

/// The mathematical content of a [`Variant`].
pub struct VariantView {
    pub key: Seq<char>,
    pub value: Seq<char>,
}

impl View for Variant {
    type V = VariantView;

    open spec fn view(&self) -> VariantView {
        VariantView { key: self.key@, value: self.value@ }
    }
}

/// The views of the project variables in `vars`.
pub open spec fn variant_views(vars: Seq<Variant>) -> Seq<VariantView> {
    vars.map_values(|v: Variant| v@)
}

/// The texts held by `v`, where there is a list.
pub open spec fn opt_texts(v: Option<Vec<String>>) -> Option<Seq<Seq<char>>> {
    match v {
        Some(list) => Some(texts(list@)),
        None => None,
    }
}

/// What a template says of the project it makes.
#[derive(Clone, Debug, PartialEq, Eq)]
pub struct ProjectConfig {
    pub name: String,
    /// The project variables. No key occurs twice.
    pub variants: Vec<Variant>,
    pub version: String,
    /// The names of the directories that are not copied.
    pub ignore_dirs: Option<Vec<String>>,
    /// The patterns of the files that are not copied.
    pub ignore_files: Option<Vec<String>>,
    /// A text to show when the project is made.
    pub finish_text: Option<String>,
}

/// The mathematical content of a [`ProjectConfig`].
pub struct ProjectView {
    pub name: Seq<char>,
    pub variants: Seq<VariantView>,
    pub version: Seq<char>,
    pub ignore_dirs: Option<Seq<Seq<char>>>,
    pub ignore_files: Option<Seq<Seq<char>>>,
    pub finish_text: Option<Seq<char>>,
}

impl View for ProjectConfig {
    type V = ProjectView;

    open spec fn view(&self) -> ProjectView {
        ProjectView {
            name: self.name@,
            variants: variant_views(self.variants@),
            version: self.version@,
            ignore_dirs: opt_texts(self.ignore_dirs),
            ignore_files: opt_texts(self.ignore_files),
            finish_text: opt_text(self.finish_text),
        }
    }
}

/// The index of the first project variable from `from` on with the key
/// `key`, or the number of variables where there is none.
pub open spec fn variant_index(vars: Seq<VariantView>, key: Seq<char>, from: int) -> int
    decreases vars.len() - from,
{
    if from < 0 || from >= vars.len() {
        vars.len() as int
    } else if vars[from].key == key {
        from
    } else {
        variant_index(vars, key, from + 1)
    }
}

/// The value of the project variable with the key `key`.
pub open spec fn variant_value(vars: Seq<VariantView>, key: Seq<char>) -> Option<Seq<char>> {
    let i = variant_index(vars, key, 0);
    if i < vars.len() {
        Some(vars[i].value)
    } else {
        None
    }
}

/// The project variables after `key` is set to `value`: the variable with
/// that key gets the value; where there is none, a new one stands at the end.
pub open spec fn upsert(vars: Seq<VariantView>, key: Seq<char>, value: Seq<char>) -> Seq<
    VariantView,
> {
    let i = variant_index(vars, key, 0);
    if i < vars.len() {
        vars.update(i, VariantView { key, value })
    } else {
        vars.push(VariantView { key, value })
    }
}

/// Whether no key occurs twice among the project variables.
pub open spec fn keys_distinct(vars: Seq<VariantView>) -> bool {
    forall|i: int, j: int|
        0 <= i < j < vars.len() ==> (#[trigger] vars[i]).key != (#[trigger] vars[j]).key
}

/// Where `variant_index` finds an index, the key stands there and nowhere
/// before; where it finds none, the key stands nowhere.
proof fn lemma_variant_index(vars: Seq<VariantView>, key: Seq<char>, from: int)
    requires
        0 <= from <= vars.len(),
    ensures
        from <= variant_index(vars, key, from) <= vars.len(),
        variant_index(vars, key, from) < vars.len() ==> vars[variant_index(vars, key, from)].key
            == key,
        forall|k: int|
            from <= k < variant_index(vars, key, from) ==> (#[trigger] vars[k]).key != key,
    decreases vars.len() - from,
{
    if from < vars.len() && vars[from].key != key {
        lemma_variant_index(vars, key, from + 1);
    }
}

/// Setting a variable keeps the keys distinct.
pub proof fn lemma_upsert_distinct(vars: Seq<VariantView>, key: Seq<char>, value: Seq<char>)
    requires
        keys_distinct(vars),
    ensures
        keys_distinct(upsert(vars, key, value)),
{
    lemma_variant_index(vars, key, 0);
    let i = variant_index(vars, key, 0);
    let after = upsert(vars, key, value);
    assert forall|a: int, b: int| 0 <= a < b < after.len() implies (#[trigger] after[a]).key != (
    #[trigger] after[b]).key by {
        if i < vars.len() {
            assert(after[a].key == vars[a].key);
            assert(after[b].key == vars[b].key);
        } else {
            if b < vars.len() {
                assert(after[a] == vars[a] && after[b] == vars[b]);
            } else {
                assert(after[a] == vars[a]);
                assert(after[b].key == key);
            }
        }
    }
}

impl ProjectConfig {
    /// Sets the project variable `key` to `value`.
    pub fn set_variant(&mut self, key: String, value: String)
        ensures
            final(self)@ == (ProjectView {
                variants: upsert(old(self)@.variants, key@, value@),
                ..old(self)@
            }),
            keys_distinct(old(self)@.variants) ==> keys_distinct(final(self)@.variants),
    {
        let ghost before = variant_views(self.variants@);
        proof {
            if keys_distinct(before) {
                lemma_upsert_distinct(before, key@, value@);
            }
        }
        let wanted = chars_of(key.as_str());
        let mut i: usize = 0;
        while i < self.variants.len()
            invariant
                i <= self.variants.len(),
                *self == *old(self),
                before == variant_views(self.variants@),
                wanted@ == key@,
                variant_index(before, key@, 0) == variant_index(before, key@, i as int),
            decreases self.variants.len() - i,
        {
            assert(before[i as int] == self.variants@[i as int]@);
            let k = chars_of(self.variants[i].key.as_str());
            if same(k.as_slice(), wanted.as_slice()) {
                self.variants.set(i, Variant { key, value });
                assert(variant_views(self.variants@) =~= upsert(before, key@, value@));
                return ;
            }
            i += 1;
        }
        self.variants.push(Variant { key, value });
        assert(variant_views(self.variants@) =~= upsert(before, key@, value@));
    }

    /// Whether no key occurs twice among the project variables.
    pub fn has_distinct_keys(&self) -> (r: bool)
        ensures
            r == keys_distinct(self@.variants),
    {
        let ghost all = variant_views(self.variants@);
        let mut j: usize = 0;
        while j < self.variants.len()
            invariant
                j <= self.variants.len(),
                all == variant_views(self.variants@),
                forall|a: int, b: int|
                    0 <= a < b < j ==> (#[trigger] all[a]).key != (#[trigger] all[b]).key,
            decreases self.variants.len() - j,
        {
            let later = chars_of(self.variants[j].key.as_str());
            assert(all[j as int] == self.variants@[j as int]@);
            let mut i: usize = 0;
            while i < j
                invariant
                    i <= j < self.variants.len(),
                    all == variant_views(self.variants@),
                    later@ == all[j as int].key,
                    forall|a: int| 0 <= a < i ==> (#[trigger] all[a]).key != all[j as int].key,
                decreases j - i,
            {
                let earlier = chars_of(self.variants[i].key.as_str());
                assert(all[i as int] == self.variants@[i as int]@);
                if same(earlier.as_slice(), later.as_slice()) {
                    assert(all[i as int].key == all[j as int].key);
                    return false;
                }
                i += 1;
            }
            j += 1;
        }
        true
    }

    /// The value of the project variable `key`.
    pub fn variant(&self, key: &str) -> (r: Option<String>)
        ensures
            opt_text(r) == variant_value(self@.variants, key@),
    {
        let wanted = chars_of(key);
        let ghost all = variant_views(self.variants@);
        let mut i: usize = 0;
        while i < self.variants.len()
            invariant
                i <= self.variants.len(),
                all == variant_views(self.variants@),
                wanted@ == key@,
                variant_index(all, key@, 0) == variant_index(all, key@, i as int),
            decreases self.variants.len() - i,
        {
            assert(all[i as int] == self.variants@[i as int]@);
            let k = chars_of(self.variants[i].key.as_str());
            if same(k.as_slice(), wanted.as_slice()) {
                return Some(self.variants[i].value.clone());
            }
            i += 1;
        }
        None
    }
}

/// A value of a parameter declaration, as the configuration holds it.
#[derive(Clone, Debug, PartialEq, Eq)]
pub enum RawValue {
    /// A text.
    Text(String),
    /// A flag.
    Flag(bool),
    /// Anything else.
    Other,
}

/// The declaration of a parameter, as the configuration holds it.
#[derive(Clone, Debug, PartialEq, Eq)]
pub struct ParamDecl {
    pub key: String,
    /// The field `ask`.
    pub ask: Option<RawValue>,
    /// The field `default`.
    pub default: Option<RawValue>,
    /// The field `if`.
    pub ifwith: Option<RawValue>,
    /// The items of the field `options`, where it is a list.
    pub options: Option<Vec<RawValue>>,
}

/// The configuration of a template.
#[derive(Clone, Debug, PartialEq, Eq)]
pub struct Config {
    pub reframe: ReframeConfig,
    pub project: ProjectConfig,
    /// The declarations of the parameters, in order.
    pub param: Vec<ParamDecl>,
    pub presents: Vec<Present>,
    pub post_generate: Vec<PostGenerateOp>,
}

} // verus!
