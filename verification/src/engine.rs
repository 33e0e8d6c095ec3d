//! The engine of a run: the configuration, the parameters and the builtin
//! variables, and what is computed from them.

use vstd::prelude::*;
use crate::builtin::{
    builtin_views, default_builtins, standard_builtins, BuiltinVar, BuiltinView, Context,
};
use crate::case::{all_styles, apply_style, make_variant_key, style_at, styled, variant_key};
use crate::config::{
    keys_distinct, present_views, upsert, variant_value, Config, PostGenerateOp, ProjectConfig,
    ProjectView, VariantView,
};
use crate::declare::{
    decl_views, declare_all, declared_all, ConfigDataError, ConfigDataErrorView,
};
use crate::directive::{resolve_template, resolved_template, AuthoringError, AuthoringErrorView};
use crate::param::{param_views, Param, ParamView};
use crate::path::{join_path, joined, same_path};
use crate::resolve::{
    accept, accepted_value, advance, after_answer, ask_for, next_index, question_for, settle,
    Outcome, Question,
};
use crate::substitute::{substitute, substituted};
use crate::text::{chars_of, opt_text, string_of, texts, trim, trimmed};
use crate::tree::{
    copy_action, copy_decision, process_decision, process_plan, rewrite_path, rewritten,
    CopyAction, ProcessPlan,
};
use crate::util::{compare_version, version_order};

verus! {

/// A run of the generator on one template.
#[derive(Clone, Debug, PartialEq, Eq)]
pub struct Reframe {
    pub config: Config,
    /// The parameters: those that are declared, then the derived ones.
    pub param: Vec<Param>,
    pub builtin_vars: Vec<BuiltinVar>,
    /// Whether the output goes below `/tmp`.
    pub dry_run: bool,
    /// How many of the parameters are asked for.
    pub declared: usize,
    /// The index of the parameter that is asked for next.
    pub cursor: usize,
}

/// The template asks for a later version of the tool.
#[derive(Clone, Debug, PartialEq, Eq)]
pub struct VersionError {
    /// The least version that the template works with.
    pub required: String,
}

/// What a run hands to its caller once the parameters are resolved.
#[derive(Clone, Debug, PartialEq, Eq)]
pub struct Generation {
    /// The directory that the project is made in.
    pub out_dir: String,
    /// The text to show at the end, substituted.
    pub finish_text: Option<String>,
    /// The files to make executable, as paths below `out_dir`.
    pub executables: Vec<String>,
}

/// The answer that a reply stands for: the reply, or `default` where there
/// is none, without the white space around it; `default` where that is empty.
pub open spec fn read_answer(reply: Option<Seq<char>>, default: Seq<char>) -> Seq<char> {
    let given = match reply {
        Some(r) => r,
        None => default,
    };
    if trim(given).len() == 0 {
        default
    } else {
        trim(given)
    }
}

/// The version that a reply stands for: the reply, or `current` where there
/// is none or it is empty.
pub open spec fn chosen_version(reply: Option<Seq<char>>, current: Seq<char>) -> Seq<char> {
    match reply {
        Some(r) => if r.len() > 0 {
            r
        } else {
            current
        },
        None => current,
    }
}

/// The project variables after the first `n` case variants of the name of
/// the project are set: `name_lower_case`, `name_upper_case` and so on.
pub open spec fn named_variants(vars: Seq<VariantView>, name: Seq<char>, n: int) -> Seq<
    VariantView,
>
    decreases n,
{
    if n <= 0 {
        vars
    } else {
        let style = all_styles()[n - 1];
        upsert(named_variants(vars, name, n - 1), variant_key("name"@, style), styled(style, name))
    }
}

/// The directory below which the project is made: `out_dir`, seen from
/// `/tmp` in a dry run.
pub open spec fn output_root(dry_run: bool, out_dir: Seq<char>) -> Seq<char> {
    if dry_run {
        joined("/tmp"@, out_dir)
    } else {
        out_dir
    }
}

/// The paths of the files to make executable: for each step that names a
/// file, its path after substitution, seen from `out_dir`.
pub open spec fn executable_paths(
    ops: Seq<PostGenerateOp>,
    out_dir: Seq<char>,
    project: ProjectView,
    params: Seq<ParamView>,
    builtins: Seq<BuiltinView>,
    ctx: Context,
) -> Seq<Seq<char>>
    decreases ops.len(),
{
    if ops.len() == 0 {
        Seq::empty()
    } else {
        let before = executable_paths(ops.drop_last(), out_dir, project, params, builtins, ctx);
        match opt_text(ops.last().make_executable) {
            Some(path) => before.push(
                joined(out_dir, substituted(path, project, params, builtins, ctx)),
            ),
            None => before,
        }
    }
}

/// The text `text` after substitution, where there is a text.
pub open spec fn substituted_opt(
    text: Option<Seq<char>>,
    project: ProjectView,
    params: Seq<ParamView>,
    builtins: Seq<BuiltinView>,
    ctx: Context,
) -> Option<Seq<char>> {
    match text {
        Some(t) => Some(substituted(t, project, params, builtins, ctx)),
        None => None,
    }
}

/// The answer that a reply stands for.
pub fn input_read_string(reply: Option<&str>, dflt: String) -> (r: String)
    ensures
        r@ == read_answer(
            match reply {
                Some(s) => Some(s@),
                None => None,
            },
            dflt@,
        ),
{
    let given = match reply {
        Some(s) => chars_of(s),
        None => chars_of(dflt.as_str()),
    };
    let answer = trimmed(given.as_slice());
    if answer.len() == 0 {
        dflt
    } else {
        string_of(answer.as_slice())
    }
}

impl Reframe {
    /// Whether the parameters that are asked for are parameters of the run.
    pub open spec fn wf(&self) -> bool {
        self.cursor <= self.declared <= self.param.len()
    }

    /// Opens a run on a configuration, for the tool of the version
    /// `tool_version`. A template that asks for a later version is refused.
    /// Where the configuration lists directories to ignore, `.git` joins them.
    /// The run has the builtin variables `year` and `month_name` and no
    /// parameters yet.
    pub fn open(config: Config, tool_version: &str, dry_run: bool) -> (r: Result<
        Reframe,
        VersionError,
    >)
        ensures
            match r {
                Ok(run) => {
                    &&& version_order(config.reframe.min_version@, tool_version@) >= 0
                    &&& run.config.reframe == config.reframe
                    &&& run.config.param == config.param
                    &&& run.config.presents == config.presents
                    &&& run.config.post_generate == config.post_generate
                    &&& run.config.project@ == (ProjectView {
                        ignore_dirs: match config.project@.ignore_dirs {
                            Some(dirs) => Some(dirs.push(".git"@)),
                            None => None,
                        },
                        ..config.project@
                    })
                    &&& run.param@.len() == 0
                    &&& builtin_views(run.builtin_vars@) == standard_builtins()
                    &&& run.dry_run == dry_run
                    &&& run.declared == 0
                    &&& run.cursor == 0
                },
                Err(e) => version_order(config.reframe.min_version@, tool_version@) < 0
                    && e.required@ == config.reframe.min_version@,
            },
    {
        if compare_version(config.reframe.min_version.as_str(), tool_version) < 0 {
            return Err(VersionError { required: config.reframe.min_version.clone() });
        }
        let mut config = config;
        let ghost before = config.project@;
        let ignore_dirs = match config.project.ignore_dirs {
            Some(dirs) => {
                let mut dirs = dirs;
                let ghost old_dirs = texts(dirs@);
                dirs.push(".git".to_owned());
                assert(texts(dirs@) =~= old_dirs.push(".git"@));
                Some(dirs)
            },
            None => None,
        };
        let project = ProjectConfig {
            name: config.project.name,
            variants: config.project.variants,
            version: config.project.version,
            ignore_dirs,
            ignore_files: config.project.ignore_files,
            finish_text: config.project.finish_text,
        };
        Ok(
            Reframe {
                config: Config {
                    reframe: config.reframe,
                    project,
                    param: config.param,
                    presents: config.presents,
                    post_generate: config.post_generate,
                },
                param: Vec::new(),
                builtin_vars: default_builtins(),
                dry_run,
                declared: 0,
                cursor: 0,
            },
        )
    }

    /// Names the project. The name is the reply `name_reply` without the
    /// white space around it, or the name of the configuration where that is
    /// empty; the version is the reply `version_reply`, or the version of the
    /// configuration where that is empty. The seven case variants of the name
    /// become project variables.
    pub fn name_project(&mut self, name_reply: Option<&str>, version_reply: Option<&str>)
        ensures
            final(self).config.project@ == (ProjectView {
                name: read_answer(
                    match name_reply {
                        Some(s) => Some(s@),
                        None => None,
                    },
                    old(self).config.project@.name,
                ),
                version: chosen_version(
                    match version_reply {
                        Some(s) => Some(s@),
                        None => None,
                    },
                    old(self).config.project@.version,
                ),
                variants: named_variants(
                    old(self).config.project@.variants,
                    read_answer(
                        match name_reply {
                            Some(s) => Some(s@),
                            None => None,
                        },
                        old(self).config.project@.name,
                    ),
                    7,
                ),
                ..old(self).config.project@
            }),
            keys_distinct(old(self).config.project@.variants) ==> keys_distinct(
                final(self).config.project@.variants,
            ),
            final(self).config.reframe == old(self).config.reframe,
            final(self).config.param == old(self).config.param,
            final(self).config.presents == old(self).config.presents,
            final(self).config.post_generate == old(self).config.post_generate,
            final(self).param == old(self).param,
            final(self).builtin_vars == old(self).builtin_vars,
            final(self).dry_run == old(self).dry_run,
            final(self).declared == old(self).declared,
            final(self).cursor == old(self).cursor,
    {
        let ghost start = self.config.project@;
        let name = input_read_string(name_reply, self.config.project.name.clone());
        self.config.project.name = name.clone();
        let mut i: usize = 0;
        while i < 7
            invariant
                i <= 7,
                self.config.project@ == (ProjectView {
                    name: name@,
                    variants: named_variants(start.variants, name@, i as int),
                    ..start
                }),
                keys_distinct(start.variants) ==> keys_distinct(self.config.project@.variants),
                self.config.reframe == old(self).config.reframe,
                self.config.param == old(self).config.param,
                self.config.presents == old(self).config.presents,
                self.config.post_generate == old(self).config.post_generate,
                self.param == old(self).param,
                self.builtin_vars == old(self).builtin_vars,
                self.dry_run == old(self).dry_run,
                self.declared == old(self).declared,
                self.cursor == old(self).cursor,
            decreases 7 - i,
        {
            let style = style_at(i);
            let key = make_variant_key("name", style);
            let value = apply_style(style, name.as_str());
            self.config.project.set_variant(key, value);
            i += 1;
        }
        match version_reply {
            Some(v) => {
                if v.unicode_len() > 0 {
                    self.config.project.version = v.to_owned();
                }
            },
            None => {},
        }
    }

    /// Makes the parameters of the declarations of the configuration, none of
    /// them resolved, and puts them after the parameters that the run has. All
    /// parameters of the run are then to be asked for, from the first on. On
    /// an error the run is as it was.
    pub fn declare_params(&mut self) -> (r: Result<(), ConfigDataError>)
        ensures
            match r {
                Ok(()) => {
                    &&& declared_all(decl_views(old(self).config.param@)) matches Ok(made)
                    &&& param_views(final(self).param@) == param_views(old(self).param@) + made
                    &&& final(self).declared == final(self).param.len()
                    &&& final(self).cursor == 0
                    &&& final(self).config == old(self).config
                    &&& final(self).builtin_vars == old(self).builtin_vars
                    &&& final(self).dry_run == old(self).dry_run
                    &&& final(self).wf()
                },
                Err(e) => declared_all(decl_views(old(self).config.param@)) == Err::<
                    Seq<ParamView>,
                    ConfigDataErrorView,
                >(e@) && *final(self) == *old(self),
            },
    {
        match declare_all(&self.config.param) {
            Ok(made) => {
                let mut made = made;
                let ghost before = param_views(self.param@);
                let ghost tail = param_views(made@);
                self.param.append(&mut made);
                assert(param_views(self.param@) =~= before + tail);
                self.declared = self.param.len();
                self.cursor = 0;
                Ok(())
            },
            Err(e) => Err(e),
        }
    }

    /// The question for the next parameter. Parameters that depend on a
    /// parameter with the value `false` are passed over; they keep no value.
    /// `None` where no parameter is left. A parameter that depends on one
    /// without a value is an error.
    pub fn next_question(&mut self) -> (r: Result<Option<Question>, ConfigDataError>)
        requires
            old(self).wf(),
        ensures
            final(self).wf(),
            final(self).config == old(self).config,
            final(self).param == old(self).param,
            final(self).builtin_vars == old(self).builtin_vars,
            final(self).dry_run == old(self).dry_run,
            final(self).declared == old(self).declared,
            match r {
                Ok(Some(q)) => {
                    &&& next_index(
                        param_views(old(self).param@),
                        old(self).declared as int,
                        old(self).cursor as int,
                    ) == Ok::<int, ConfigDataErrorView>(final(self).cursor as int)
                    &&& final(self).cursor < final(self).declared
                    &&& q@ == question_for(final(self).param@[final(self).cursor as int]@)
                },
                Ok(None) => {
                    &&& next_index(
                        param_views(old(self).param@),
                        old(self).declared as int,
                        old(self).cursor as int,
                    ) == Ok::<int, ConfigDataErrorView>(old(self).declared as int)
                    &&& final(self).cursor == final(self).declared
                },
                Err(e) => {
                    &&& next_index(
                        param_views(old(self).param@),
                        old(self).declared as int,
                        old(self).cursor as int,
                    ) == Err::<int, ConfigDataErrorView>(e@)
                    &&& final(self).cursor == old(self).cursor
                },
            },
    {
        match advance(&self.param, self.declared, self.cursor) {
            Ok(i) => {
                self.cursor = i;
                if i < self.declared {
                    Ok(Some(ask_for(&self.param[i])))
                } else {
                    Ok(None)
                }
            },
            Err(e) => Err(e),
        }
    }

    /// Takes the reply to the question for the parameter at the cursor. A
    /// reply that is accepted gives the parameter its value, adds its case
    /// variants where it is a text parameter, and moves the cursor on. Any
    /// other reply leaves the run as it was.
    pub fn answer(&mut self, reply: &str) -> (r: Outcome)
        requires
            old(self).wf(),
            old(self).cursor < old(self).declared,
        ensures
            final(self).wf(),
            final(self).config == old(self).config,
            final(self).builtin_vars == old(self).builtin_vars,
            final(self).dry_run == old(self).dry_run,
            final(self).declared == old(self).declared,
            match accepted_value(old(self).param@[old(self).cursor as int]@, reply@) {
                Ok(value) => {
                    &&& r == Outcome::Accepted
                    &&& param_views(final(self).param@) == after_answer(
                        param_views(old(self).param@),
                        old(self).cursor as int,
                        value,
                    )
                    &&& final(self).cursor == old(self).cursor + 1
                },
                Err(o) => r == o && *final(self) == *old(self),
            },
    {
        match accept(&self.param[self.cursor], reply) {
            Ok(value) => {
                settle(&mut self.param, self.cursor, &value);
                self.cursor = self.cursor + 1;
                Outcome::Accepted
            },
            Err(o) => o,
        }
    }

    /// Substitutes the variables of the finish text of the project.
    pub fn process_internal_param(&mut self, ctx: &Context)
        ensures
            final(self).config.project@ == (ProjectView {
                finish_text: substituted_opt(
                    old(self).config.project@.finish_text,
                    old(self).config.project@,
                    param_views(old(self).param@),
                    builtin_views(old(self).builtin_vars@),
                    *ctx,
                ),
                ..old(self).config.project@
            }),
            final(self).config.reframe == old(self).config.reframe,
            final(self).config.param == old(self).config.param,
            final(self).config.presents == old(self).config.presents,
            final(self).config.post_generate == old(self).config.post_generate,
            final(self).param == old(self).param,
            final(self).builtin_vars == old(self).builtin_vars,
            final(self).dry_run == old(self).dry_run,
            final(self).declared == old(self).declared,
            final(self).cursor == old(self).cursor,
    {
        let done = match &self.config.project.finish_text {
            Some(text) => Some(
                Self::string_sub(
                    text.as_str(),
                    &self.config,
                    self.param.as_slice(),
                    self.builtin_vars.as_slice(),
                    ctx,
                ),
            ),
            None => None,
        };
        self.config.project.finish_text = done;
    }

    /// What the run hands to its caller once the parameters are resolved:
    /// the directory of the project, which is the kebab-case name of the
    /// project seen from `out_dir` (from `/tmp` and `out_dir` in a dry run); the
    /// finish text, substituted, which the configuration then holds; and the
    /// files to make executable. `None`, and nothing changed, where the
    /// project has no variable `name_kebab_case`, that is, was not named.
    pub fn generate(&mut self, out_dir: &str, ctx: &Context) -> (r: Option<Generation>)
        ensures
            final(self).config.reframe == old(self).config.reframe,
            final(self).config.param == old(self).config.param,
            final(self).config.presents == old(self).config.presents,
            final(self).config.post_generate == old(self).config.post_generate,
            final(self).param == old(self).param,
            final(self).builtin_vars == old(self).builtin_vars,
            final(self).dry_run == old(self).dry_run,
            final(self).declared == old(self).declared,
            final(self).cursor == old(self).cursor,
            match r {
                Some(g) => {
                    &&& variant_value(old(self).config.project@.variants, "name_kebab_case"@)
                        matches Some(kebab)
                    &&& g.out_dir@ == joined(output_root(old(self).dry_run, out_dir@), kebab)
                    &&& opt_text(g.finish_text) == substituted_opt(
                        old(self).config.project@.finish_text,
                        old(self).config.project@,
                        param_views(old(self).param@),
                        builtin_views(old(self).builtin_vars@),
                        *ctx,
                    )
                    &&& final(self).config.project@ == (ProjectView {
                        finish_text: opt_text(g.finish_text),
                        ..old(self).config.project@
                    })
                    &&& texts(g.executables@) == executable_paths(
                        old(self).config.post_generate@,
                        g.out_dir@,
                        final(self).config.project@,
                        param_views(old(self).param@),
                        builtin_views(old(self).builtin_vars@),
                        *ctx,
                    )
                },
                None => variant_value(old(self).config.project@.variants, "name_kebab_case"@)
                    is None && final(self).config.project == old(self).config.project,
            },
    {
        let kebab = match self.config.project.variant("name_kebab_case") {
            Some(k) => k,
            None => {
                return None;
            },
        };
        let root = if self.dry_run {
            join_path("/tmp", out_dir)
        } else {
            out_dir.to_owned()
        };
        let out = join_path(root.as_str(), kebab.as_str());
        self.process_internal_param(ctx);
        let finish_text = crate::param::copy_opt(&self.config.project.finish_text);
        let mut executables: Vec<String> = Vec::new();
        let mut i: usize = 0;
        let ghost ops = self.config.post_generate@;
        assert(ops.take(0) =~= Seq::<PostGenerateOp>::empty());
        assert(texts(executables@) =~= Seq::<Seq<char>>::empty());
        while i < self.config.post_generate.len()
            invariant
                i <= self.config.post_generate.len(),
                ops == self.config.post_generate@,
                texts(executables@) == executable_paths(
                    ops.take(i as int),
                    out@,
                    self.config.project@,
                    param_views(self.param@),
                    builtin_views(self.builtin_vars@),
                    *ctx,
                ),
            decreases self.config.post_generate.len() - i,
        {
            assert(ops.take(i + 1).drop_last() =~= ops.take(i as int));
            assert(ops.take(i + 1).last() == ops[i as int]);
            let ghost before = texts(executables@);
            match &self.config.post_generate[i].make_executable {
                Some(path) => {
                    let path = Self::string_sub(
                        path.as_str(),
                        &self.config,
                        self.param.as_slice(),
                        self.builtin_vars.as_slice(),
                        ctx,
                    );
                    let full = join_path(out.as_str(), path.as_str());
                    executables.push(full);
                    assert(texts(executables@) =~= before.push(full@));
                },
                None => {},
            }
            i += 1;
        }
        assert(ops.take(ops.len() as int) =~= ops);
        Some(Generation { out_dir: out, finish_text, executables })
    }

    /// What the copy pass does with the entry at `path`, relative to the
    /// root of the template: see [`copy_action`].
    pub fn copy_action(&self, path: &str, is_dir: bool) -> (r: CopyAction)
        ensures
            r == copy_decision(
                self.config.project@,
                present_views(self.config.presents@),
                param_views(self.param@),
                path@,
                is_dir,
            ),
    {
        copy_action(
            &self.config.project,
            self.config.presents.as_slice(),
            self.param.as_slice(),
            path,
            is_dir,
        )
    }

    /// The path `path` with each of its components substituted; `None` where
    /// nothing is to be renamed: see [`rewrite_path`].
    pub fn rewrite_path(&self, path: &str, ctx: &Context) -> (r: Option<String>)
        ensures
            match r {
                Some(to) => to@ == rewritten(
                    path@,
                    self.config.project@,
                    param_views(self.param@),
                    builtin_views(self.builtin_vars@),
                    *ctx,
                ) && !same_path(to@, path@),
                None => same_path(
                    rewritten(
                        path@,
                        self.config.project@,
                        param_views(self.param@),
                        builtin_views(self.builtin_vars@),
                        *ctx,
                    ),
                    path@,
                ),
            },
    {
        rewrite_path(
            path,
            &self.config.project,
            self.param.as_slice(),
            self.builtin_vars.as_slice(),
            ctx,
        )
    }

    /// What the process pass does with the entry at `path`: see
    /// [`process_plan`].
    pub fn process_plan(&self, path: &str, is_dir: bool, ctx: &Context) -> (r: ProcessPlan)
        ensures
            r@ == process_decision(
                path@,
                is_dir,
                self.config.project@,
                param_views(self.param@),
                builtin_views(self.builtin_vars@),
                *ctx,
            ),
    {
        process_plan(
            path,
            is_dir,
            &self.config.project,
            self.param.as_slice(),
            self.builtin_vars.as_slice(),
            ctx,
        )
    }

    /// What is written in place of a template file with the content
    /// `content`: the template resolved.
    pub fn process_template(&self, content: &str, ctx: &Context) -> (r: Result<
        String,
        AuthoringError,
    >)
        ensures
            match r {
                Ok(out) => resolved_template(
                    content@,
                    self.config.project@,
                    param_views(self.param@),
                    builtin_views(self.builtin_vars@),
                    *ctx,
                ) == Ok::<Seq<char>, AuthoringErrorView>(out@),
                Err(e) => resolved_template(
                    content@,
                    self.config.project@,
                    param_views(self.param@),
                    builtin_views(self.builtin_vars@),
                    *ctx,
                ) == Err::<Seq<char>, AuthoringErrorView>(e@),
            },
    {
        let chars = chars_of(content);
        match resolve_template(
            chars.as_slice(),
            &self.config.project,
            self.param.as_slice(),
            self.builtin_vars.as_slice(),
            ctx,
        ) {
            Ok(out) => Ok(string_of(out.as_slice())),
            Err(e) => Err(e),
        }
    }

    /// Substitutes the variables of `input`: see [`substitute`].
    pub fn string_sub(
        input: &str,
        config: &Config,
        param: &[Param],
        builtin_vars: &[BuiltinVar],
        ctx: &Context,
    ) -> (r: String)
        ensures
            r@ == substituted(
                input@,
                config.project@,
                param_views(param@),
                builtin_views(builtin_vars@),
                *ctx,
            ),
            !input@.contains('$') ==> r@ == input@,
    {
        let text = chars_of(input);
        let out = substitute(text.as_slice(), &config.project, param, builtin_vars, ctx);
        string_of(out.as_slice())
    }

    /// Resolves the conditional blocks of the template `text` and substitutes
    /// its variables: see [`resolve_template`].
    pub fn process_template_str(
        text: String,
        config: &Config,
        param: &[Param],
        builtin_vars: &[BuiltinVar],
        ctx: &Context,
    ) -> (r: Result<String, AuthoringError>)
        ensures
            match r {
                Ok(out) => resolved_template(
                    text@,
                    config.project@,
                    param_views(param@),
                    builtin_views(builtin_vars@),
                    *ctx,
                ) == Ok::<Seq<char>, AuthoringErrorView>(out@),
                Err(e) => resolved_template(
                    text@,
                    config.project@,
                    param_views(param@),
                    builtin_views(builtin_vars@),
                    *ctx,
                ) == Err::<Seq<char>, AuthoringErrorView>(e@),
            },
    {
        let chars = chars_of(text.as_str());
        match resolve_template(chars.as_slice(), &config.project, param, builtin_vars, ctx) {
            Ok(out) => Ok(string_of(out.as_slice())),
            Err(e) => Err(e),
        }
    }
}

} // verus!
