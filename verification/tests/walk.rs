use reframe::builtin::Context;
use reframe::config::{Config, Present, ProjectConfig, ReframeConfig};
use reframe::engine::Reframe;
use reframe::param::{Param, ParamKind};
use reframe::tree::{ProcessAction, ProcessPlan};
use reframe::walk::{CopyOp, CopyWalk, Entry, ProcessStep, ProcessWalk, Work};

fn run() -> Reframe {
    let config = Config {
        reframe: ReframeConfig {
            name: "t".to_string(),
            author: "a".to_string(),
            min_version: "0.1.0".to_string(),
        },
        project: ProjectConfig {
            name: "Demo".to_string(),
            variants: Vec::new(),
            version: "1.0".to_string(),
            ignore_dirs: Some(vec!["target".to_string()]),
            ignore_files: Some(vec!["*.iml".to_string()]),
            finish_text: None,
        },
        param: vec![],
        presents: vec![Present { path: "db/migrations".to_string(), ifcond: "with_db".to_string() }],
        post_generate: vec![],
    };
    let mut run = Reframe::open(config, "0.1.0", false).unwrap();
    let mut flag = Param::new("with_db".to_string(), "false".to_string());
    flag.kind = ParamKind::Bool;
    run.param.push(flag);
    run.param.push(Param::new("mod".to_string(), "core".to_string()));
    run
}

fn dir(name: &str) -> Entry {
    Entry { name: name.to_string(), is_dir: true }
}

fn file(name: &str) -> Entry {
    Entry { name: name.to_string(), is_dir: false }
}

#[test]
fn copy_walk_never_reads_an_excluded_directory() {
    let run = run();
    let mut walk = CopyWalk::new();
    assert_eq!(walk.next(), Some("".to_string()));
    let ops = walk.visit(
        &run,
        "",
        &[file("Reframe.toml"), dir("db"), dir("target"), dir(".git"), file("x.iml"), dir("src")],
    );
    assert_eq!(
        ops,
        vec![
            CopyOp::CopyFile { path: "Reframe.toml".to_string() },
            CopyOp::MakeDir { path: "db".to_string() },
            CopyOp::MakeDir { path: "src".to_string() },
        ]
    );
    assert_eq!(walk.pending, vec!["db".to_string(), "src".to_string()]);

    assert_eq!(walk.next(), Some("src".to_string()));
    let ops = walk.visit(&run, "src", &[file("main.rs")]);
    assert_eq!(ops, vec![CopyOp::CopyFile { path: "src/main.rs".to_string() }]);

    assert_eq!(walk.next(), Some("db".to_string()));
    let ops = walk.visit(&run, "db", &[dir("migrations"), file("schema.sql")]);
    // the rule on db/migrations and the false flag keep the directory out
    assert_eq!(ops, vec![CopyOp::CopyFile { path: "db/schema.sql".to_string() }]);
    assert_eq!(walk.pending, Vec::<String>::new());
    assert_eq!(walk.next(), None);
    assert_eq!(walk.next(), None);
}

#[test]
fn copy_walk_descends_when_the_flag_is_on() {
    let mut run = run();
    run.param[0].value = Some("true".to_string());
    let mut walk = CopyWalk::new();
    walk.next();
    let ops = walk.visit(&run, "db", &[dir("migrations")]);
    assert_eq!(ops, vec![CopyOp::MakeDir { path: "db/migrations".to_string() }]);
    assert_eq!(walk.next(), Some("db/migrations".to_string()));
}

#[test]
fn process_walk_renames_a_directory_after_its_entries() {
    let run = run();
    let ctx = Context::at(0);
    let mut walk = ProcessWalk::new("out");
    assert_eq!(walk.next(), Some(Work::Read { dir: "out".to_string() }));
    let steps = walk.visit(
        &run,
        "out",
        &[dir("$param.mod$.template"), file("logo.png"), file("README.template.md"), dir("src")],
        &ctx,
    );
    assert_eq!(
        steps,
        vec![
            ProcessStep {
                from: "out/$param.mod$.template".to_string(),
                plan: ProcessPlan {
                    path: "out/core.template".to_string(),
                    renamed: true,
                    action: ProcessAction::Descend,
                    final_name: None,
                },
            },
            ProcessStep {
                from: "out/logo.png".to_string(),
                plan: ProcessPlan {
                    path: "out/logo.png".to_string(),
                    renamed: false,
                    action: ProcessAction::Leave,
                    final_name: None,
                },
            },
            ProcessStep {
                from: "out/README.template.md".to_string(),
                plan: ProcessPlan {
                    path: "out/README.template.md".to_string(),
                    renamed: false,
                    action: ProcessAction::Rewrite,
                    final_name: Some("README.md".to_string()),
                },
            },
            ProcessStep {
                from: "out/src".to_string(),
                plan: ProcessPlan {
                    path: "out/src".to_string(),
                    renamed: false,
                    action: ProcessAction::Descend,
                    final_name: None,
                },
            },
        ]
    );
    assert_eq!(
        walk.pending,
        vec![
            Work::Rename { from: "out/core.template".to_string(), name: "core".to_string() },
            Work::Read { dir: "out/core.template".to_string() },
            Work::Read { dir: "out/src".to_string() },
        ]
    );
    assert_eq!(walk.next(), Some(Work::Read { dir: "out/src".to_string() }));
    assert_eq!(walk.visit(&run, "out/src", &[], &ctx), vec![]);
    assert_eq!(walk.next(), Some(Work::Read { dir: "out/core.template".to_string() }));
    let steps = walk.visit(&run, "out/core.template", &[dir("inner.template")], &ctx);
    assert_eq!(steps.len(), 1);
    assert_eq!(
        walk.next(),
        Some(Work::Read { dir: "out/core.template/inner.template".to_string() })
    );
    assert_eq!(walk.visit(&run, "out/core.template/inner.template", &[], &ctx), vec![]);
    // the inner directory is renamed before the outer one
    assert_eq!(
        walk.next(),
        Some(Work::Rename {
            from: "out/core.template/inner.template".to_string(),
            name: "inner".to_string()
        })
    );
    assert_eq!(
        walk.next(),
        Some(Work::Rename { from: "out/core.template".to_string(), name: "core".to_string() })
    );
    assert_eq!(walk.next(), None);
}
