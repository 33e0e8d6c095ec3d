//! The decisions of the tree materialiser, entry by entry: what is copied,
//! how paths are rewritten, which files are processed, and how names are
//! cleaned up.

use vstd::prelude::*;
use crate::builtin::{builtin_views, BuiltinVar, BuiltinView, Context};
use crate::config::{present_views, Present, PresentView, ProjectConfig, ProjectView};
use crate::param::{param_views, Param, ParamView};
use crate::path::{components, components_of, paths_equal, render, render_parts, same_path};
use crate::presence::{is_present, present};
use crate::substitute::{substitute, substituted};
use crate::text::{
    append, chars_of, contains, contains_seq, copy_of, copy_range, has_at, match_at, same,
    string_of, texts, views,
};
use crate::util::{extension, extension_of, matches_any, matches_pattern, pattern_matches};

verus! {

// ---------------------------------------------------------------------------
// The copy pass
// ---------------------------------------------------------------------------

/// What the copy pass does with an entry of the template.
#[derive(Clone, Copy, Debug, PartialEq, Eq, Structural)]
pub enum CopyAction {
    /// The entry, and all below it, stays out of the output.
    Skip,
    /// The file is copied.
    CopyFile,
    /// The directory is created, and its entries are visited.
    Descend,
}

/// The name of an entry: the last component of its path.
pub open spec fn tail_name(path: Seq<char>) -> Seq<char> {
    let parts = components(path);
    if parts.len() > 0 {
        parts.last()
    } else {
        Seq::empty()
    }
}

/// Whether a directory with the name `name` is ignored.
pub open spec fn dir_ignored(project: ProjectView, name: Seq<char>) -> bool {
    match project.ignore_dirs {
        Some(dirs) => dirs.contains(name),
        None => false,
    }
}

/// Whether a file with the name `name` is ignored.
pub open spec fn file_ignored(project: ProjectView, name: Seq<char>) -> bool {
    match project.ignore_files {
        Some(patterns) => matches_any(name, patterns),
        None => false,
    }
}

/// What the copy pass does with the entry at `path`, relative to the root of
/// the template: a directory whose name is on the list of ignored
/// directories, a file whose name meets a pattern of the ignored files, and an
/// entry that is not present, are skipped; any other directory is descended
/// into, any other file is copied.
pub open spec fn copy_decision(
    project: ProjectView,
    rules: Seq<PresentView>,
    params: Seq<ParamView>,
    path: Seq<char>,
    is_dir: bool,
) -> CopyAction {
    if is_dir && dir_ignored(project, tail_name(path)) {
        CopyAction::Skip
    } else if !is_dir && file_ignored(project, tail_name(path)) {
        CopyAction::Skip
    } else if !is_present(path, rules, params) {
        CopyAction::Skip
    } else if is_dir {
        CopyAction::Descend
    } else {
        CopyAction::CopyFile
    }
}

/// The name of an entry.
pub fn name_of(path: &[char]) -> (r: Vec<char>)
    ensures
        r@ == tail_name(path@),
{
    let parts = components_of(path);
    if parts.len() > 0 {
        assert(views(parts@).last() == parts@[parts.len() - 1]@);
        copy_of(parts[parts.len() - 1].as_slice())
    } else {
        Vec::new()
    }
}

/// Whether `name` is one of `names`.
pub fn listed(names: &Vec<String>, name: &[char]) -> (r: bool)
    ensures
        r == texts(names@).contains(name@),
{
    let mut i: usize = 0;
    while i < names.len()
        invariant
            i <= names.len(),
            forall|j: int| 0 <= j < i ==> texts(names@)[j] != name@,
        decreases names.len() - i,
    {
        let entry = chars_of(names[i].as_str());
        assert(texts(names@)[i as int] == entry@);
        if same(entry.as_slice(), name) {
            return true;
        }
        i += 1;
    }
    false
}

/// Whether `name` meets one of `patterns`.
pub fn meets_any(patterns: &Vec<String>, name: &[char]) -> (r: bool)
    ensures
        r == matches_any(name@, texts(patterns@)),
{
    let mut i: usize = 0;
    while i < patterns.len()
        invariant
            i <= patterns.len(),
            forall|j: int| 0 <= j < i ==> !pattern_matches(name@, #[trigger] texts(patterns@)[j]),
        decreases patterns.len() - i,
    {
        let pattern = chars_of(patterns[i].as_str());
        assert(texts(patterns@)[i as int] == pattern@);
        if matches_pattern(name, pattern.as_slice()) {
            return true;
        }
        i += 1;
    }
    false
}

/// What the copy pass does with the entry at `path`.
pub fn copy_action(
    project: &ProjectConfig,
    rules: &[Present],
    params: &[Param],
    path: &str,
    is_dir: bool,
) -> (r: CopyAction)
    ensures
        r == copy_decision(project@, present_views(rules@), param_views(params@), path@, is_dir),
{
    let chars = chars_of(path);
    let name = name_of(chars.as_slice());
    let ignored = if is_dir {
        match &project.ignore_dirs {
            Some(dirs) => listed(dirs, name.as_slice()),
            None => false,
        }
    } else {
        match &project.ignore_files {
            Some(patterns) => meets_any(patterns, name.as_slice()),
            None => false,
        }
    };
    if ignored {
        CopyAction::Skip
    } else if !present(path, rules, params) {
        CopyAction::Skip
    } else if is_dir {
        CopyAction::Descend
    } else {
        CopyAction::CopyFile
    }
}

// ---------------------------------------------------------------------------
// The process pass
// ---------------------------------------------------------------------------

/// The components `parts`, each after substitution.
pub open spec fn substituted_parts(
    parts: Seq<Seq<char>>,
    project: ProjectView,
    params: Seq<ParamView>,
    builtins: Seq<BuiltinView>,
    ctx: Context,
) -> Seq<Seq<char>> {
    parts.map_values(|part: Seq<char>| substituted(part, project, params, builtins, ctx))
}

/// The path `path` with each of its components substituted.
pub open spec fn rewritten(
    path: Seq<char>,
    project: ProjectView,
    params: Seq<ParamView>,
    builtins: Seq<BuiltinView>,
    ctx: Context,
) -> Seq<char> {
    render(substituted_parts(components(path), project, params, builtins, ctx))
}

/// The path `path` with each of its components substituted; `None` where
/// that is a path with the same components, so that nothing is to be renamed.
pub fn rewrite_path(
    path: &str,
    project: &ProjectConfig,
    params: &[Param],
    builtins: &[BuiltinVar],
    ctx: &Context,
) -> (r: Option<String>)
    ensures
        match r {
            Some(to) => to@ == rewritten(
                path@,
                project@,
                param_views(params@),
                builtin_views(builtins@),
                *ctx,
            ) && !same_path(to@, path@),
            None => same_path(
                rewritten(path@, project@, param_views(params@), builtin_views(builtins@), *ctx),
                path@,
            ),
        },
{
    let chars = chars_of(path);
    let parts = components_of(chars.as_slice());
    let mut out: Vec<Vec<char>> = Vec::new();
    let mut i: usize = 0;
    let ghost wanted = substituted_parts(
        components(path@),
        project@,
        param_views(params@),
        builtin_views(builtins@),
        *ctx,
    );
    while i < parts.len()
        invariant
            i <= parts.len(),
            views(parts@) == components(path@),
            wanted == substituted_parts(
                components(path@),
                project@,
                param_views(params@),
                builtin_views(builtins@),
                *ctx,
            ),
            out@.len() == i,
            forall|j: int| 0 <= j < i ==> (#[trigger] out@[j])@ == wanted[j],
        decreases parts.len() - i,
    {
        assert(views(parts@)[i as int] == parts@[i as int]@);
        out.push(substitute(parts[i].as_slice(), project, params, builtins, ctx));
        i += 1;
    }
    assert(views(out@) =~= wanted);
    let to = render_parts(&out);
    if paths_equal(to.as_slice(), chars.as_slice()) {
        None
    } else {
        Some(string_of(to.as_slice()))
    }
}

/// The extensions of the files that are copied as they are: images, sound,
/// video, archives, fonts and documents.
pub open spec fn binary_extensions() -> Seq<Seq<char>> {
    seq![
        "png"@, "ico"@, "jpg"@, "jpeg"@, "avi"@, "gif"@, "mp4"@, "iso"@, "zip"@, "gz"@, "tar"@,
        "rar"@, "svg"@, "ttf"@, "woff"@, "woff2"@, "eot"@, "jar"@, "war"@, "mpg"@, "mpeg"@,
        "mp3"@, "m4v"@, "mkv"@, "docx"@, "pptx"@, "pdf"@, "dmg"@, "wav"@, "webm"@, "m4a"@,
        "mov"@,
    ]
}

/// Whether the file at `path` is copied as it is: its name has one of the
/// binary extensions.
pub open spec fn is_binary(path: Seq<char>) -> bool {
    match extension_of(tail_name(path)) {
        Some(ext) => binary_extensions().contains(ext),
        None => false,
    }
}

/// The binary extensions.
fn binary_list() -> (r: Vec<Vec<char>>)
    ensures
        views(r@) == binary_extensions(),
{
    let mut list: Vec<Vec<char>> = Vec::new();
    list.push(chars_of("png"));
    list.push(chars_of("ico"));
    list.push(chars_of("jpg"));
    list.push(chars_of("jpeg"));
    list.push(chars_of("avi"));
    list.push(chars_of("gif"));
    list.push(chars_of("mp4"));
    list.push(chars_of("iso"));
    list.push(chars_of("zip"));
    list.push(chars_of("gz"));
    list.push(chars_of("tar"));
    list.push(chars_of("rar"));
    list.push(chars_of("svg"));
    list.push(chars_of("ttf"));
    list.push(chars_of("woff"));
    list.push(chars_of("woff2"));
    list.push(chars_of("eot"));
    list.push(chars_of("jar"));
    list.push(chars_of("war"));
    list.push(chars_of("mpg"));
    list.push(chars_of("mpeg"));
    list.push(chars_of("mp3"));
    list.push(chars_of("m4v"));
    list.push(chars_of("mkv"));
    list.push(chars_of("docx"));
    list.push(chars_of("pptx"));
    list.push(chars_of("pdf"));
    list.push(chars_of("dmg"));
    list.push(chars_of("wav"));
    list.push(chars_of("webm"));
    list.push(chars_of("m4a"));
    list.push(chars_of("mov"));
    assert(views(list@) =~= binary_extensions());
    list
}

/// Whether the file at `path` is copied as it is.
pub fn binary(path: &str) -> (r: bool)
    ensures
        r == is_binary(path@),
{
    let chars = chars_of(path);
    let name = name_of(chars.as_slice());
    match extension(name.as_slice()) {
        Some(ext) => {
            let list = binary_list();
            let mut i: usize = 0;
            while i < list.len()
                invariant
                    i <= list.len(),
                    views(list@) == binary_extensions(),
                    extension_of(tail_name(path@)) == Some(ext@),
                    forall|j: int| 0 <= j < i ==> binary_extensions()[j] != ext@,
                decreases list.len() - i,
            {
                assert(views(list@)[i as int] == list@[i as int]@);
                if same(list[i].as_slice(), ext.as_slice()) {
                    assert(binary_extensions()[i as int] == ext@);
                    return true;
                }
                i += 1;
            }
            false
        },
        None => false,
    }
}

// ---------------------------------------------------------------------------
// Names of templates
// ---------------------------------------------------------------------------

/// What the word class `\w` of the `regex` crate decides for a character:
/// whether a pattern that is that class alone matches the text that is that
/// character alone.
pub uninterp spec fn word_char(c: char) -> bool;

/// Calls `regex::Regex::new` on the pattern `\w` and `Regex::is_match` on
/// the text that holds the character `c` alone. Taken on trust: the pattern
/// is well formed, so that a regex is made; the match does not fail; and
/// whether there is a match depends on the character alone. `word_char` is the
/// name of that result.
#[verifier::external_body]
fn regex_word(c: char) -> (r: bool)
    ensures
        r == word_char(c),
{
    regex::Regex::new("\\w").unwrap().is_match(c.to_string().as_str())
}

/// For each character of `text`, whether it is a word character.
pub open spec fn word_flags(text: Seq<char>) -> Seq<bool> {
    text.map_values(|c: char| word_char(c))
}

/// Whether `words` says of the character at index `k` that it is a word
/// character.
pub open spec fn word_at(words: Seq<bool>, k: int) -> bool {
    0 <= k < words.len() && words[k]
}

/// Whether what stands in `name` from index `from` on is a secondary
/// extension or nothing: the name ends there, or a `.` stands there and only
/// word characters follow it. `words` says of each character of the name
/// whether it is a word character.
pub open spec fn is_secondary(name: Seq<char>, words: Seq<bool>, from: int) -> bool {
    from == name.len() || (0 <= from < name.len() && name[from] == '.' && forall|k: int|
        from < k < name.len() ==> word_at(words, k))
}

/// Whether the name splits at index `i`: `.template` stands there, and what
/// follows it is a secondary extension or nothing.
pub open spec fn splits_at(name: Seq<char>, words: Seq<bool>, i: int) -> bool {
    has_at(name, ".template"@, i) && is_secondary(name, words, i + ".template"@.len())
}

/// The greatest index not above `hi` at which the name splits, or `-1`.
pub open spec fn last_split(name: Seq<char>, words: Seq<bool>, hi: int) -> int
    decreases hi + 1,
{
    if hi < 0 {
        -1
    } else if splits_at(name, words, hi) {
        hi
    } else {
        last_split(name, words, hi - 1)
    }
}

/// The name without its template suffix, where `words` says which of its
/// characters are word characters: a name of the shape `BASE.template` or
/// `BASE.template.EXT` becomes `BASE` or `BASE.EXT`; any other name has no
/// template suffix. Where the name has that shape in more than one way, the
/// longest `BASE` counts.
pub open spec fn stripped_by(name: Seq<char>, words: Seq<bool>) -> Option<Seq<char>> {
    let i = last_split(name, words, name.len() as int);
    if i < 0 {
        None
    } else {
        Some(name.take(i) + name.skip(i + ".template"@.len()))
    }
}

/// The name without its template suffix.
pub open spec fn stripped(name: Seq<char>) -> Option<Seq<char>> {
    stripped_by(name, word_flags(name))
}

/// A name in which `.template` does not occur splits nowhere.
proof fn lemma_no_mark_no_split(name: Seq<char>, words: Seq<bool>, hi: int)
    requires
        !contains(name, ".template"@),
    ensures
        last_split(name, words, hi) == -1,
    decreases hi + 1,
{
    if hi >= 0 {
        assert(!has_at(name, ".template"@, hi));
        lemma_no_mark_no_split(name, words, hi - 1);
    }
}

/// For each character of `text`, whether it is a word character.
pub fn word_flags_of(text: &[char]) -> (r: Vec<bool>)
    ensures
        r@ == word_flags(text@),
{
    let mut flags: Vec<bool> = Vec::new();
    let mut i: usize = 0;
    while i < text.len()
        invariant
            i <= text.len(),
            flags@.len() == i,
            forall|k: int| 0 <= k < i ==> flags@[k] == word_char(text@[k]),
        decreases text.len() - i,
    {
        flags.push(regex_word(text[i]));
        i += 1;
    }
    assert(flags@ =~= word_flags(text@));
    flags
}

/// Whether what stands in `name` from index `from` on is a secondary
/// extension or nothing.
fn secondary_from(name: &[char], words: &[bool], from: usize) -> (r: bool)
    requires
        from <= name.len(),
    ensures
        r == is_secondary(name@, words@, from as int),
{
    if from == name.len() {
        return true;
    }
    if name[from] != '.' {
        return false;
    }
    let mut k: usize = from + 1;
    while k < name.len()
        invariant
            from < k <= name.len(),
            forall|j: int| from < j < k ==> word_at(words@, j),
        decreases name.len() - k,
    {
        if !(k < words.len() && words[k]) {
            assert(!word_at(words@, k as int));
            return false;
        }
        k += 1;
    }
    true
}

/// The name without its template suffix, where it has one; `words` says of
/// each character of the name whether it is a word character, and of a
/// character that it does not reach that it is none.
pub fn strip_suffix_by(name: &[char], words: &[bool]) -> (r: Option<Vec<char>>)
    ensures
        match r {
            Some(to) => stripped_by(name@, words@) == Some(to@),
            None => stripped_by(name@, words@) is None,
        },
{
    let mark = chars_of(".template");
    let mut hi: usize = name.len();
    loop
        invariant
            hi <= name.len(),
            mark@ == ".template"@,
            last_split(name@, words@, name@.len() as int) == last_split(name@, words@, hi as int),
        decreases hi,
    {
        if match_at(name, mark.as_slice(), hi) {
            if secondary_from(name, words, hi + mark.len()) {
                let mut out = copy_range(name, 0, hi);
                let rest = copy_range(name, hi + mark.len(), name.len());
                append(&mut out, rest.as_slice());
                assert(out@ =~= name@.take(hi as int) + name@.skip(hi + ".template"@.len()));
                return Some(out);
            }
        }
        if hi == 0 {
            assert(last_split(name@, words@, -1) == -1);
            return None;
        }
        hi -= 1;
    }
}

/// The name without its template suffix, where it has one.
pub fn strip_template_suffix(name: &str) -> (r: Option<String>)
    ensures
        match r {
            Some(to) => stripped(name@) == Some(to@),
            None => stripped(name@) is None,
        },
{
    let chars = chars_of(name);
    let mark = chars_of(".template");
    if !contains_seq(chars.as_slice(), mark.as_slice()) {
        proof {
            lemma_no_mark_no_split(name@, word_flags(name@), name@.len() as int);
        }
        return None;
    }
    let words = word_flags_of(chars.as_slice());
    match strip_suffix_by(chars.as_slice(), words.as_slice()) {
        Some(to) => Some(string_of(to.as_slice())),
        None => None,
    }
}

// ---------------------------------------------------------------------------
// The plan for one entry of the process pass
// ---------------------------------------------------------------------------

/// What the process pass does with an entry once its path is rewritten.
#[derive(Clone, Copy, Debug, PartialEq, Eq, Structural)]
pub enum ProcessAction {
    /// The entries of the directory are processed.
    Descend,
    /// The file stays as it is, under the name it has.
    Leave,
    /// The file is read as a template and written anew.
    Rewrite,
}

/// What the process pass does with one entry, step by step.
#[derive(Clone, Debug, PartialEq, Eq)]
pub struct ProcessPlan {
    /// The path under which the entry goes on.
    pub path: String,
    /// Whether the entry is first renamed to `path`.
    pub renamed: bool,
    pub action: ProcessAction,
    /// The name that the entry gets at the end, where that is another one.
    pub final_name: Option<String>,
}

/// The mathematical content of a [`ProcessPlan`].
pub struct ProcessPlanView {
    pub path: Seq<char>,
    pub renamed: bool,
    pub action: ProcessAction,
    pub final_name: Option<Seq<char>>,
}

impl View for ProcessPlan {
    type V = ProcessPlanView;

    open spec fn view(&self) -> ProcessPlanView {
        ProcessPlanView {
            path: self.path@,
            renamed: self.renamed,
            action: self.action,
            final_name: crate::text::opt_text(self.final_name),
        }
    }
}

/// What the process pass does with the entry at `path`. The entry is renamed
/// where the substitution of the components of its path makes another path.
/// Then a directory is descended into, a file with a binary extension is left
/// alone, and any other file is rewritten. At the end a directory, and a file
/// that was rewritten, loses the template suffix of its name.
pub open spec fn process_decision(
    path: Seq<char>,
    is_dir: bool,
    project: ProjectView,
    params: Seq<ParamView>,
    builtins: Seq<BuiltinView>,
    ctx: Context,
) -> ProcessPlanView {
    let to = rewritten(path, project, params, builtins, ctx);
    let renamed = !same_path(to, path);
    let now = if renamed {
        to
    } else {
        path
    };
    let action = if is_dir {
        ProcessAction::Descend
    } else if is_binary(now) {
        ProcessAction::Leave
    } else {
        ProcessAction::Rewrite
    };
    ProcessPlanView {
        path: now,
        renamed,
        action,
        final_name: if action == ProcessAction::Leave {
            None
        } else {
            stripped(tail_name(now))
        },
    }
}

/// What the process pass does with the entry at `path`.
pub fn process_plan(
    path: &str,
    is_dir: bool,
    project: &ProjectConfig,
    params: &[Param],
    builtins: &[BuiltinVar],
    ctx: &Context,
) -> (r: ProcessPlan)
    ensures
        r@ == process_decision(
            path@,
            is_dir,
            project@,
            param_views(params@),
            builtin_views(builtins@),
            *ctx,
        ),
{
    let (now, renamed) = match rewrite_path(path, project, params, builtins, ctx) {
        Some(to) => (to, true),
        None => (path.to_owned(), false),
    };
    let action = if is_dir {
        ProcessAction::Descend
    } else if binary(now.as_str()) {
        ProcessAction::Leave
    } else {
        ProcessAction::Rewrite
    };
    let final_name = match action {
        ProcessAction::Leave => None,
        _ => {
            let chars = chars_of(now.as_str());
            let name = name_of(chars.as_slice());
            let name = string_of(name.as_slice());
            strip_template_suffix(name.as_str())
        },
    };
    ProcessPlan { path: now, renamed, action, final_name }
}

// ---------------------------------------------------------------------------
// What is removed at the end
// ---------------------------------------------------------------------------

/// The name of the manifest of a template, which is removed from the output.
pub fn manifest_name() -> (r: &'static str)
    ensures
        r@ == "Reframe.toml"@,
{
    "Reframe.toml"
}

/// The name of the scratch directory of a template's author, which is
/// removed from the output.
pub fn scratch_name() -> (r: &'static str)
    ensures
        r@ == "load.reframe"@,
{
    "load.reframe"
}

} // verus!
