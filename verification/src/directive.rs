//! The conditional directive resolver: a line-oriented state machine that
//! keeps or strips the blocks guarded by `<% if ... %>` and `<% endif %>`,
//! then drops what is left of the directives and substitutes variables.

use vstd::prelude::*;
use crate::builtin::{builtin_views, BuiltinVar, BuiltinView, Context};
use crate::config::{ProjectConfig, ProjectView};
use crate::param::{param_views, Param, ParamView};
use crate::substitute::{substitute, substituted};
use crate::text::{
    append, chars_of, contains, contains_seq, copy_of, copy_range, find_from, find_last_from,
    has_at, join, join_with, last_from, match_at, occurs_from, same, skip_spaces,
    skip_spaces_at, split, split_on, string_of, trim, trimmed, views,
};

verus! {

// ---------------------------------------------------------------------------
// The grammar of a directive line
// ---------------------------------------------------------------------------

/// Whether a line opens a block: it holds `<% if `, and ` %>` after it.
pub open spec fn is_open(line: Seq<char>) -> bool {
    exists|i: int| #[trigger]
        has_at(line, "<% if "@, i) && occurs_from(line, " %>"@, i + "<% if "@.len())
}

/// Whether a line holds the closing token `<% endif %>`.
pub open spec fn is_close(line: Seq<char>) -> bool {
    contains(line, "<% endif %>"@)
}

/// Whether a line holds the flag form for `key`: `<% if param.KEY %>`.
pub open spec fn flag_form(line: Seq<char>, key: Seq<char>) -> bool {
    contains(line, "<% if param."@ + key + " %>"@)
}

/// The literal of the equality form that starts at index `i` with `head`
/// (`<% if param.KEY`): after `head` come `==` and a `"`, each after any white
/// space; the literal runs from there to the last `" %>` of the line.
pub open spec fn equality_at(line: Seq<char>, head: Seq<char>, i: int) -> Option<Seq<char>> {
    let a = skip_spaces(line, i + head.len());
    let b = skip_spaces(line, a + 2);
    let close = last_from(line, "\" %>"@, b + 1);
    if has_at(line, head, i) && has_at(line, "=="@, a) && has_at(line, "\""@, b) && close >= 0 {
        Some(line.subrange(b + 1, close))
    } else {
        None
    }
}

/// The literal of the first equality form with `head` that starts at an
/// index not below `i`.
pub open spec fn equality_from(line: Seq<char>, head: Seq<char>, i: int) -> Option<Seq<char>>
    decreases line.len() - i,
{
    if i < 0 || i >= line.len() {
        None
    } else {
        match equality_at(line, head, i) {
            Some(literal) => Some(literal),
            None => equality_from(line, head, i + 1),
        }
    }
}

/// The literal of the equality form for `key` that a line holds:
/// `<% if param.KEY == "literal" %>`.
pub open spec fn equality_form(line: Seq<char>, key: Seq<char>) -> Option<Seq<char>> {
    equality_from(line, "<% if param."@ + key, 0)
}

/// What a parameter decides for an opening line: nothing where it has no
/// value or the line holds neither form for its key; to keep the block where
/// the line holds the flag form and the value is not `false`, or holds the
/// equality form and the value is the literal; else to skip it.
pub open spec fn decides(line: Seq<char>, p: ParamView) -> Option<bool> {
    match p.value {
        None => None,
        Some(v) => if flag_form(line, p.key) {
            Some(v != "false"@)
        } else {
            match equality_form(line, p.key) {
                Some(literal) => Some(v == literal),
                None => None,
            }
        },
    }
}

/// Whether the block that `line` opens is kept: the first parameter from
/// index `i` on that decides, decides; where none does, the block is skipped.
pub open spec fn keeps_from(line: Seq<char>, params: Seq<ParamView>, i: int) -> bool
    decreases params.len() - i,
{
    if i < 0 || i >= params.len() {
        false
    } else {
        match decides(line, params[i]) {
            Some(keep) => keep,
            None => keeps_from(line, params, i + 1),
        }
    }
}

/// Whether the block that `line` opens is kept.
pub open spec fn keeps_block(line: Seq<char>, params: Seq<ParamView>) -> bool {
    keeps_from(line, params, 0)
}

/// The length of the comment marker at index `a`: `#`, `//`, `/*` or `--`;
/// 0 where there is none.
pub open spec fn marker_at(line: Seq<char>, a: int) -> int {
    if has_at(line, "#"@, a) {
        1
    } else if has_at(line, "//"@, a) || has_at(line, "/*"@, a) || has_at(line, "--"@, a) {
        2
    } else {
        0
    }
}

/// Whether a syntax mark starts at index `a`: a comment marker, then `<%`
/// after any white space, then `%>` somewhere after it.
pub open spec fn mark_at(line: Seq<char>, a: int) -> bool {
    let m = marker_at(line, a);
    let b = skip_spaces(line, a + m);
    m > 0 && has_at(line, "<%"@, b) && occurs_from(line, "%>"@, b + 2)
}

/// Whether a line holds a syntax mark.
pub open spec fn is_syntax_mark(line: Seq<char>) -> bool {
    exists|a: int| 0 <= a < line.len() && #[trigger] mark_at(line, a)
}

// ---------------------------------------------------------------------------
// The state machine
// ---------------------------------------------------------------------------

/// The state of the first pass after some lines.
pub struct Scan {
    /// Whether the lines are being skipped.
    pub skipping: bool,
    /// The index of the last opening line.
    pub opened_at: int,
    /// The lines kept so far.
    pub kept: Seq<Seq<char>>,
}

/// The state after one more line, `line`, which has the index `index`.
///
/// While skipping, a line with the closing token ends the skipping, and every
/// line is dropped. Else an opening line is kept, or starts the skipping, as
/// the parameters decide; a line with the closing token is dropped; any
/// other line is kept.
pub open spec fn scan_step(st: Scan, line: Seq<char>, index: int, params: Seq<ParamView>) -> Scan {
    if st.skipping {
        Scan { skipping: !is_close(line), opened_at: st.opened_at, kept: st.kept }
    } else if is_open(line) {
        if keeps_block(line, params) {
            Scan { skipping: false, opened_at: index, kept: st.kept.push(line) }
        } else {
            Scan { skipping: true, opened_at: index, kept: st.kept }
        }
    } else if is_close(line) {
        st
    } else {
        Scan { skipping: false, opened_at: st.opened_at, kept: st.kept.push(line) }
    }
}

/// The state of the first pass after the first `n` lines.
pub open spec fn scan(lines: Seq<Seq<char>>, params: Seq<ParamView>, n: int) -> Scan
    decreases n,
{
    if n <= 0 {
        Scan { skipping: false, opened_at: 0, kept: Seq::empty() }
    } else {
        scan_step(scan(lines, params, n - 1), lines[n - 1], n - 1, params)
    }
}

/// The second pass: the lines without those that hold a syntax mark, each
/// after substitution.
pub open spec fn emit(
    kept: Seq<Seq<char>>,
    project: ProjectView,
    params: Seq<ParamView>,
    builtins: Seq<BuiltinView>,
    ctx: Context,
) -> Seq<Seq<char>>
    decreases kept.len(),
{
    if kept.len() == 0 {
        Seq::empty()
    } else {
        let before = emit(kept.drop_last(), project, params, builtins, ctx);
        if is_syntax_mark(kept.last()) {
            before
        } else {
            before.push(substituted(kept.last(), project, params, builtins, ctx))
        }
    }
}

/// A block that is opened and never closed.
#[derive(Clone, Debug, PartialEq, Eq)]
pub struct AuthoringError {
    /// The opening line, without the white space around it.
    pub directive: String,
    /// The index of the opening line, counted from 0.
    pub line: usize,
}

/// The mathematical content of an [`AuthoringError`].
pub struct AuthoringErrorView {
    pub directive: Seq<char>,
    pub line: int,
}

impl View for AuthoringError {
    type V = AuthoringErrorView;

    open spec fn view(&self) -> AuthoringErrorView {
        AuthoringErrorView { directive: self.directive@, line: self.line as int }
    }
}

/// What the resolver makes of a template: the lines are those of the text
/// between line feeds; where the first pass ends while skipping, the error
/// names the opening line; else the result is the lines of the second pass,
/// joined by line feeds.
pub open spec fn resolved_template(
    text: Seq<char>,
    project: ProjectView,
    params: Seq<ParamView>,
    builtins: Seq<BuiltinView>,
    ctx: Context,
) -> Result<Seq<char>, AuthoringErrorView> {
    let lines = split(text, '\n');
    let end = scan(lines, params, lines.len() as int);
    if end.skipping {
        Err(AuthoringErrorView { directive: trim(lines[end.opened_at]), line: end.opened_at })
    } else {
        Ok(join(emit(end.kept, project, params, builtins, ctx), '\n'))
    }
}

/// The state of the resolver between two lines: whether lines are being
/// skipped, and the token that ends the skipping.
#[derive(Clone, Copy, Debug)]
pub struct SkipLine<'a> {
    pub matching: &'a str,
    pub start: bool,
}

impl<'a> SkipLine<'a> {
    /// The state in which no line is skipped.
    pub fn new() -> (r: Self)
        ensures
            !r.start,
            r.matching@ == Seq::<char>::empty(),
    {
        proof {
            reveal_strlit("");
        }
        let r = SkipLine { matching: "", start: false };
        assert(r.matching@ =~= Seq::<char>::empty());
        r
    }

    /// Ends the skipping.
    pub fn stop(&mut self)
        ensures
            !final(self).start,
            final(self).matching == old(self).matching,
    {
        self.start = false;
    }
}

// ---------------------------------------------------------------------------
// Executable recognisers
// ---------------------------------------------------------------------------

/// Whether a line opens a block.
pub fn opens(line: &[char]) -> (r: bool)
    ensures
        r == is_open(line@),
{
    let head = chars_of("<% if ");
    let tail = chars_of(" %>");
    match find_from(line, head.as_slice(), 0) {
        Some(i) => {
            assert(has_at(line@, head@, i as int));
            assert(i + head.len() <= line.len());
            let r = find_from(line, tail.as_slice(), i + head.len()).is_some();
            proof {
                if is_open(line@) {
                    let k = choose|k: int| #[trigger]
                        has_at(line@, "<% if "@, k) && occurs_from(
                            line@,
                            " %>"@,
                            k + "<% if "@.len(),
                        );
                    let j = choose|j: int|
                        k + "<% if "@.len() <= j && #[trigger] has_at(line@, " %>"@, j);
                    assert(i <= k);
                    assert(i + head@.len() <= j && has_at(line@, tail@, j));
                }
            }
            r
        },
        None => false,
    }
}

/// Whether a line holds the closing token.
pub fn closes(line: &[char]) -> (r: bool)
    ensures
        r == is_close(line@),
{
    let mark = chars_of("<% endif %>");
    contains_seq(line, mark.as_slice())
}

/// Whether a line holds the flag form for `key`.
pub fn has_flag_form(line: &[char], key: &[char]) -> (r: bool)
    ensures
        r == flag_form(line@, key@),
{
    let mut pat = chars_of("<% if param.");
    append(&mut pat, key);
    let tail = chars_of(" %>");
    append(&mut pat, tail.as_slice());
    contains_seq(line, pat.as_slice())
}

/// The literal of the equality form that starts at index `i` with `head`.
fn literal_at(line: &[char], head: &[char], i: usize) -> (r: Option<Vec<char>>)
    ensures
        match r {
            Some(literal) => equality_at(line@, head@, i as int) == Some(literal@),
            None => equality_at(line@, head@, i as int) is None,
        },
{
    if !match_at(line, head, i) {
        return None;
    }
    let equals = chars_of("==");
    let quote = chars_of("\"");
    let closing = chars_of("\" %>");
    proof {
        reveal_strlit("==");
        reveal_strlit("\"");
    }
    assert(has_at(line@, head@, i as int));
    assert(i + head.len() <= line.len());
    let a = skip_spaces_at(line, i + head.len());
    if !match_at(line, equals.as_slice(), a) {
        return None;
    }
    let b = skip_spaces_at(line, a + 2);
    if !match_at(line, quote.as_slice(), b) {
        return None;
    }
    match find_last_from(line, closing.as_slice(), b + 1) {
        Some(close) => Some(copy_range(line, b + 1, close)),
        None => None,
    }
}

/// The literal of the equality form for `key` that a line holds.
pub fn literal_of(line: &[char], key: &[char]) -> (r: Option<Vec<char>>)
    ensures
        match r {
            Some(literal) => equality_form(line@, key@) == Some(literal@),
            None => equality_form(line@, key@) is None,
        },
{
    let mut head = chars_of("<% if param.");
    append(&mut head, key);
    let mut i: usize = 0;
    while i < line.len()
        invariant
            i <= line.len(),
            head@ == "<% if param."@ + key@,
            equality_form(line@, key@) == equality_from(line@, head@, i as int),
        decreases line.len() - i,
    {
        match literal_at(line, head.as_slice(), i) {
            Some(literal) => {
                return Some(literal);
            },
            None => {},
        }
        i += 1;
    }
    None
}

/// What a parameter decides for an opening line.
pub fn decision(line: &[char], p: &Param) -> (r: Option<bool>)
    ensures
        r == decides(line@, p@),
{
    match &p.value {
        None => None,
        Some(value) => {
            let key = chars_of(p.key.as_str());
            let v = chars_of(value.as_str());
            if has_flag_form(line, key.as_slice()) {
                let no = chars_of("false");
                Some(!same(v.as_slice(), no.as_slice()))
            } else {
                match literal_of(line, key.as_slice()) {
                    Some(literal) => Some(same(v.as_slice(), literal.as_slice())),
                    None => None,
                }
            }
        },
    }
}

/// Whether the block that `line` opens is kept.
pub fn keeps(line: &[char], params: &[Param]) -> (r: bool)
    ensures
        r == keeps_block(line@, param_views(params@)),
{
    let mut i: usize = 0;
    while i < params.len()
        invariant
            i <= params.len(),
            keeps_block(line@, param_views(params@)) == keeps_from(
                line@,
                param_views(params@),
                i as int,
            ),
        decreases params.len() - i,
    {
        assert(param_views(params@)[i as int] == params@[i as int]@);
        match decision(line, &params[i]) {
            Some(keep) => {
                return keep;
            },
            None => {},
        }
        i += 1;
    }
    false
}

/// The length of the comment marker at index `a`.
fn marker_len(line: &[char], a: usize) -> (r: usize)
    ensures
        r == marker_at(line@, a as int),
        r <= 2,
        r > 0 ==> a + r <= line.len(),
{
    let hash = chars_of("#");
    let slashes = chars_of("//");
    let star = chars_of("/*");
    let dashes = chars_of("--");
    proof {
        reveal_strlit("#");
        reveal_strlit("//");
        reveal_strlit("/*");
        reveal_strlit("--");
    }
    if match_at(line, hash.as_slice(), a) {
        1
    } else if match_at(line, slashes.as_slice(), a) || match_at(line, star.as_slice(), a)
        || match_at(line, dashes.as_slice(), a) {
        2
    } else {
        0
    }
}

/// Whether a syntax mark starts at index `a`.
fn has_mark_at(line: &[char], a: usize) -> (r: bool)
    ensures
        r == mark_at(line@, a as int),
{
    let m = marker_len(line, a);
    if m == 0 {
        return false;
    }
    let open = chars_of("<%");
    let close = chars_of("%>");
    proof {
        reveal_strlit("<%");
    }
    let b = skip_spaces_at(line, a + m);
    if !match_at(line, open.as_slice(), b) {
        return false;
    }
    find_from(line, close.as_slice(), b + 2).is_some()
}

/// Whether a line holds a syntax mark.
pub fn syntax_mark(line: &[char]) -> (r: bool)
    ensures
        r == is_syntax_mark(line@),
{
    let mut a: usize = 0;
    while a < line.len()
        invariant
            a <= line.len(),
            forall|k: int| 0 <= k < a ==> !mark_at(line@, k),
        decreases line.len() - a,
    {
        if has_mark_at(line, a) {
            return true;
        }
        a += 1;
    }
    false
}

// ---------------------------------------------------------------------------
// The two passes
// ---------------------------------------------------------------------------

/// The first pass over the lines: the lines that are kept, or the index of
/// the opening line of the block that is never closed.
fn first_pass(lines: &Vec<Vec<char>>, params: &[Param]) -> (r: Result<Vec<Vec<char>>, usize>)
    ensures
        match r {
            Ok(kept) => {
                let end = scan(views(lines@), param_views(params@), lines.len() as int);
                !end.skipping && views(kept@) == end.kept
            },
            Err(at) => {
                let end = scan(views(lines@), param_views(params@), lines.len() as int);
                end.skipping && end.opened_at == at && at < lines.len()
            },
        },
{
    let mut kept: Vec<Vec<char>> = Vec::new();
    let mut sl = SkipLine::new();
    let mut opened_at: usize = 0;
    let mut i: usize = 0;
    assert(views(kept@) =~= Seq::<Seq<char>>::empty());
    while i < lines.len()
        invariant
            i <= lines.len(),
            scan(views(lines@), param_views(params@), i as int) == (Scan {
                skipping: sl.start,
                opened_at: opened_at as int,
                kept: views(kept@),
            }),
            sl.start ==> opened_at < i,
        decreases lines.len() - i,
    {
        let line = lines[i].as_slice();
        assert(views(lines@)[i as int] == line@);
        let ghost before = views(kept@);
        if sl.start {
            if closes(line) {
                sl.stop();
            }
        } else if opens(line) {
            opened_at = i;
            if keeps(line, params) {
                kept.push(copy_of(line));
                assert(views(kept@) =~= before.push(line@));
            } else {
                sl.start = true;
                sl.matching = "<% endif %>";
            }
        } else if !closes(line) {
            kept.push(copy_of(line));
            assert(views(kept@) =~= before.push(line@));
        }
        i += 1;
    }
    if sl.start {
        Err(opened_at)
    } else {
        Ok(kept)
    }
}

/// The second pass over the kept lines.
fn second_pass(
    kept: &Vec<Vec<char>>,
    project: &ProjectConfig,
    params: &[Param],
    builtins: &[BuiltinVar],
    ctx: &Context,
) -> (r: Vec<Vec<char>>)
    ensures
        views(r@) == emit(
            views(kept@),
            project@,
            param_views(params@),
            builtin_views(builtins@),
            *ctx,
        ),
{
    let mut out: Vec<Vec<char>> = Vec::new();
    let mut i: usize = 0;
    assert(views(kept@).take(0) =~= Seq::<Seq<char>>::empty());
    assert(views(out@) =~= Seq::<Seq<char>>::empty());
    while i < kept.len()
        invariant
            i <= kept.len(),
            views(out@) == emit(
                views(kept@).take(i as int),
                project@,
                param_views(params@),
                builtin_views(builtins@),
                *ctx,
            ),
        decreases kept.len() - i,
    {
        let line = kept[i].as_slice();
        let ghost next = views(kept@).take(i + 1);
        assert(next.drop_last() =~= views(kept@).take(i as int));
        assert(next.last() == line@);
        let ghost before = views(out@);
        if !syntax_mark(line) {
            let done = substitute(line, project, params, builtins, ctx);
            out.push(done);
            assert(views(out@) =~= before.push(
                substituted(line@, project@, param_views(params@), builtin_views(builtins@), *ctx),
            ));
        }
        i += 1;
    }
    assert(views(kept@).take(kept.len() as int) =~= views(kept@));
    out
}

/// Resolves the conditional blocks of a template and substitutes its
/// variables.
///
/// The template is read line by line. A line that opens a block (`<% if
/// param.KEY %>` or `<% if param.KEY == "literal" %>`) either stays, with its
/// block, or starts the skipping of all lines up to and including the next
/// line that holds `<% endif %>`; the first parameter in order that has a
/// value and whose key the line names decides, and where none does the block
/// is skipped. Lines with a stray `<% endif %>` are dropped. Of what is left,
/// the lines that hold a comment marker followed by `<% ... %>` are dropped,
/// and the others are substituted. A block that is still open at the end of
/// the template is an error.
pub fn resolve_template(
    text: &[char],
    project: &ProjectConfig,
    params: &[Param],
    builtins: &[BuiltinVar],
    ctx: &Context,
) -> (r: Result<Vec<char>, AuthoringError>)
    ensures
        match r {
            Ok(out) => resolved_template(
                text@,
                project@,
                param_views(params@),
                builtin_views(builtins@),
                *ctx,
            ) == Ok::<Seq<char>, AuthoringErrorView>(out@),
            Err(e) => resolved_template(
                text@,
                project@,
                param_views(params@),
                builtin_views(builtins@),
                *ctx,
            ) == Err::<Seq<char>, AuthoringErrorView>(e@),
        },
{
    let lines = split_on(text, '\n');
    match first_pass(&lines, params) {
        Ok(kept) => {
            let out = second_pass(&kept, project, params, builtins, ctx);
            Ok(join_with(&out, '\n'))
        },
        Err(at) => {
            assert(views(lines@)[at as int] == lines@[at as int]@);
            let directive = trimmed(lines[at].as_slice());
            Err(AuthoringError { directive: string_of(directive.as_slice()), line: at })
        },
    }
}

} // verus!
