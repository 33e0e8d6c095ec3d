use reframe::builtin::Context;
use reframe::config::{
    Config, ParamDecl, PostGenerateOp, ProjectConfig, RawValue, ReframeConfig, Variant,
};
use reframe::declare::{declare, declare_all, get_string, get_string_option, ConfigDataError};
use reframe::engine::{input_read_string, Generation, Reframe, VersionError};
use reframe::param::{Param, ParamKind};
use reframe::resolve::Outcome;

fn t(s: &str) -> Option<RawValue> {
    Some(RawValue::Text(s.to_string()))
}

fn decl(key: &str, ask: &str, default: Option<RawValue>, ifwith: Option<&str>) -> ParamDecl {
    ParamDecl {
        key: key.to_string(),
        ask: t(ask),
        default,
        ifwith: ifwith.map(|s| RawValue::Text(s.to_string())),
        options: None,
    }
}

fn config(param: Vec<ParamDecl>) -> Config {
    Config {
        reframe: ReframeConfig {
            name: "tpl".to_string(),
            author: "robin".to_string(),
            min_version: "0.2.0".to_string(),
        },
        project: ProjectConfig {
            name: "My App".to_string(),
            variants: Vec::new(),
            version: "0.1.0".to_string(),
            ignore_dirs: Some(vec!["target".to_string()]),
            ignore_files: None,
            finish_text: Some("cd $name_kebab_case$ # $param.db$".to_string()),
        },
        param,
        presents: vec![],
        post_generate: vec![
            PostGenerateOp { make_executable: Some("bin/$name_snake_case$.sh".to_string()) },
            PostGenerateOp { make_executable: None },
        ],
    }
}

#[test]
fn open_checks_the_version_and_ignores_git() {
    let run = Reframe::open(config(vec![]), "0.2.0", true).unwrap();
    assert_eq!(
        run.config.project.ignore_dirs,
        Some(vec!["target".to_string(), ".git".to_string()])
    );
    assert_eq!(run.param.len(), 0);
    assert_eq!(run.builtin_vars.len(), 2);
    assert_eq!(run.dry_run, true);
    assert!(Reframe::open(config(vec![]), "0.3.1", false).is_ok());
    // versions are weighed by the sum of their numbers
    assert!(Reframe::open(config(vec![]), "0.0.2", false).is_ok());
    assert!(Reframe::open(config(vec![]), "1.0.0", false).is_err());
    assert_eq!(
        Reframe::open(config(vec![]), "0.1.0", false).err(),
        Some(VersionError { required: "0.2.0".to_string() })
    );
    let mut c = config(vec![]);
    c.project.ignore_dirs = None;
    assert_eq!(Reframe::open(c, "0.2.0", false).unwrap().config.project.ignore_dirs, None);
}

#[test]
fn answers_fall_back_to_the_default() {
    assert_eq!(input_read_string(Some("  x y  "), "d".to_string()), "x y");
    assert_eq!(input_read_string(Some("   "), "d".to_string()), "d");
    assert_eq!(input_read_string(Some(""), "d".to_string()), "d");
    assert_eq!(input_read_string(None, "d".to_string()), "d");
    assert_eq!(input_read_string(None, " d ".to_string()), "d");
    assert_eq!(input_read_string(None, "  ".to_string()), "  ");
    assert_eq!(input_read_string(Some("\u{a0}\u{3000}v\t\r\n"), "d".to_string()), "v");
}

#[test]
fn naming_sets_the_case_variants() {
    let mut c = config(vec![]);
    c.project.variants.push(Variant { key: "name_upper_case".to_string(), value: "old".to_string() });
    c.project.variants.push(Variant { key: "extra".to_string(), value: "kept".to_string() });
    let mut run = Reframe::open(c, "0.9.0", false).unwrap();
    run.name_project(Some(" Hello World "), Some("2.0"));
    assert_eq!(run.config.project.name, "Hello World");
    assert_eq!(run.config.project.version, "2.0");
    let vars: Vec<(&str, &str)> = run
        .config
        .project
        .variants
        .iter()
        .map(|v| (v.key.as_str(), v.value.as_str()))
        .collect();
    assert_eq!(
        vars,
        vec![
            ("name_upper_case", "HELLO WORLD"),
            ("extra", "kept"),
            ("name_lower_case", "hello world"),
            ("name_snake_case", "hello_world"),
            ("name_kebab_case", "hello-world"),
            ("name_camel_case", "helloWorld"),
            ("name_pascal_case", "HelloWorld"),
            ("name_shout_snake_case", "HELLO_WORLD"),
        ]
    );
    assert_eq!(run.config.project.variant("name_kebab_case"), Some("hello-world".to_string()));
    assert_eq!(run.config.project.variant("nothing"), None);

    let mut run = Reframe::open(config(vec![]), "0.9.0", false).unwrap();
    run.name_project(Some("  "), Some(""));
    assert_eq!(run.config.project.name, "My App");
    assert_eq!(run.config.project.version, "0.1.0");
    run.name_project(None, None);
    assert_eq!(run.config.project.name, "My App");
    assert_eq!(run.config.project.version, "0.1.0");
    run.name_project(None, Some(" 3 "));
    assert_eq!(run.config.project.version, " 3 ");
    assert_eq!(run.config.project.variants.len(), 7);
}

#[test]
fn declarations_become_parameters() {
    let p = declare(&decl("with_db", "Use a database?", Some(RawValue::Flag(true)), None)).unwrap();
    assert_eq!(p.key, "with_db");
    assert_eq!(p.ask, "Use a database?");
    assert_eq!(p.default, Some("true".to_string()));
    assert_eq!(p.kind, ParamKind::Bool);
    assert_eq!(p.value, None);
    assert!(!p.derived);

    let p = declare(&decl("f", "?", t("false"), Some("with_db"))).unwrap();
    assert_eq!(p.kind, ParamKind::Bool);
    assert_eq!(p.ifwith, Some("with_db".to_string()));

    let mut d = decl("db", "Which?", t("sqlite"), None);
    d.options = Some(vec![RawValue::Text("sqlite".to_string()), RawValue::Text("mysql".to_string())]);
    d.ifwith = Some(RawValue::Flag(false));
    let p = declare(&d).unwrap();
    assert_eq!(p.kind, ParamKind::Options);
    assert_eq!(p.options, vec!["sqlite".to_string(), "mysql".to_string()]);
    assert_eq!(p.ifwith, Some("false".to_string()));

    // options and a flag default: a flag
    d.default = t("true");
    assert_eq!(declare(&d).unwrap().kind, ParamKind::Bool);

    let mut d = decl("name", "Name", None, None);
    d.options = Some(vec![]);
    d.default = Some(RawValue::Other);
    d.ifwith = Some(RawValue::Other);
    let p = declare(&d).unwrap();
    assert_eq!(p.kind, ParamKind::String);
    assert_eq!(p.default, None);
    assert_eq!(p.ifwith, None);

    assert_eq!(
        declare(&decl("a", "Go on", None, None)).unwrap().ask,
        get_string(&t("Go on"), "a").unwrap()
    );
    assert_eq!(get_string(&Some(RawValue::Flag(false)), "a"), Ok("false".to_string()));
    assert_eq!(get_string_option(&Some(RawValue::Flag(true))), Some("true".to_string()));
    assert_eq!(get_string_option(&Some(RawValue::Other)), None);
    assert_eq!(get_string_option(&None), None);
}

#[test]
fn malformed_declarations_are_errors() {
    let mut d = decl("k", "?", None, None);
    d.ask = None;
    assert_eq!(declare(&d), Err(ConfigDataError::MissingAsk { key: "k".to_string() }));
    d.ask = Some(RawValue::Other);
    assert_eq!(declare(&d).err(), Some(ConfigDataError::MissingAsk { key: "k".to_string() }));
    assert_eq!(get_string(&None, "k"), Err(ConfigDataError::MissingAsk { key: "k".to_string() }));

    let mut d = decl("o", "?", None, None);
    d.options = Some(vec![RawValue::Text("a".to_string()), RawValue::Flag(true)]);
    assert_eq!(declare(&d).err(), Some(ConfigDataError::NonStringOption { key: "o".to_string() }));
    // a missing question is found before a bad option
    d.ask = None;
    assert_eq!(declare(&d).err(), Some(ConfigDataError::MissingAsk { key: "o".to_string() }));

    // the first bad declaration is the error of the list
    let mut bad1 = decl("b1", "?", None, None);
    bad1.options = Some(vec![RawValue::Other]);
    let mut bad2 = decl("b2", "?", None, None);
    bad2.ask = None;
    let list = vec![decl("ok", "?", None, None), bad1, bad2];
    assert_eq!(
        declare_all(&list).err(),
        Some(ConfigDataError::NonStringOption { key: "b1".to_string() })
    );
    let mut run = Reframe::open(config(list), "0.9.0", false).unwrap();
    assert_eq!(
        run.declare_params(),
        Err(ConfigDataError::NonStringOption { key: "b1".to_string() })
    );
    assert_eq!(run.param.len(), 0);
}

fn demo_run() -> Reframe {
    let mut db = decl("db", "Database", t("sqlite"), Some("with_db"));
    db.options = Some(vec![RawValue::Text("sqlite".to_string()), RawValue::Text("mysql".to_string())]);
    let list = vec![
        decl("with_db", "Use a database?", Some(RawValue::Flag(true)), None),
        db,
        decl("owner", "Owner", None, Some("missing")),
        decl("table", "Table", t("items"), Some("with_db")),
    ];
    let mut run = Reframe::open(config(list), "0.9.0", false).unwrap();
    run.name_project(Some("My App"), None);
    assert_eq!(run.declare_params(), Ok(()));
    assert_eq!(run.param.len(), 4);
    assert_eq!(run.declared, 4);
    assert_eq!(run.cursor, 0);
    run
}

#[test]
fn questions_and_answers() {
    let mut run = demo_run();
    let q = run.next_question().unwrap().unwrap();
    assert_eq!(q.key, "with_db");
    assert_eq!(q.ask, "Use a database?");
    assert_eq!(q.default, Some("true".to_string()));
    assert!(q.options.is_empty());
    // asking again changes nothing
    assert_eq!(run.next_question().unwrap().unwrap().key, "with_db");
    assert_eq!(run.answer("  "), Outcome::Accepted);
    assert_eq!(run.param[0].value, Some("true".to_string()));
    assert_eq!(run.param.len(), 4);

    let q = run.next_question().unwrap().unwrap();
    assert_eq!(q.key, "db");
    assert_eq!(q.options, vec!["sqlite".to_string(), "mysql".to_string()]);
    assert_eq!(run.answer("postgres"), Outcome::Unsupported);
    assert_eq!(run.cursor, 1);
    assert_eq!(run.param[1].value, None);
    assert_eq!(run.answer(" mysql "), Outcome::Accepted);
    assert_eq!(run.param[1].value, Some("mysql".to_string()));
    assert_eq!(run.param.len(), 4);

    // depends on a key that no parameter has: asked
    let q = run.next_question().unwrap().unwrap();
    assert_eq!(q.key, "owner");
    assert_eq!(run.answer(""), Outcome::Required);
    assert_eq!(run.answer(" \t"), Outcome::Required);
    assert_eq!(run.param.len(), 4);
    assert_eq!(run.answer("Jumping Fox"), Outcome::Accepted);
    assert_eq!(run.param[2].value, Some("Jumping Fox".to_string()));
    assert_eq!(run.param.len(), 11);
    let keys: Vec<&str> = run.param[4..].iter().map(|p| p.key.as_str()).collect();
    assert_eq!(
        keys,
        vec![
            "owner_lower_case",
            "owner_upper_case",
            "owner_snake_case",
            "owner_kebab_case",
            "owner_camel_case",
            "owner_pascal_case",
            "owner_shout_snake_case"
        ]
    );
    assert_eq!(run.param[6].value, Some("jumping_fox".to_string()));
    assert_eq!(run.param[6].ifwith, Some("missing".to_string()));
    assert!(run.param[6].derived);

    let q = run.next_question().unwrap().unwrap();
    assert_eq!(q.key, "table");
    assert_eq!(run.answer(""), Outcome::Accepted);
    assert_eq!(run.param[3].value, Some("items".to_string()));
    assert_eq!(run.param[3].kind, ParamKind::String);
    assert_eq!(run.param.len(), 18);
    assert_eq!(run.param[11].key, "table_lower_case");
    assert_eq!(run.param[11].default, Some("items".to_string()));

    assert_eq!(run.next_question(), Ok(None));
    assert_eq!(run.cursor, 4);
    assert_eq!(run.declared, 4);
}

#[test]
fn parameters_of_a_false_flag_are_passed_over() {
    let mut run = demo_run();
    assert_eq!(run.next_question().unwrap().unwrap().key, "with_db");
    assert_eq!(run.answer("false"), Outcome::Accepted);
    assert_eq!(run.next_question().unwrap().unwrap().key, "owner");
    assert_eq!(run.cursor, 2);
    assert_eq!(run.answer("me"), Outcome::Accepted);
    assert!(run.next_question().unwrap().is_none());
    assert_eq!(run.param[1].value, None);
    assert_eq!(run.param[3].value, None);
    assert_eq!(run.param.len(), 11);
}

#[test]
fn dependency_without_a_value_is_an_error() {
    let list = vec![
        decl("a", "A", None, Some("b")),
        decl("b", "B", Some(RawValue::Flag(true)), None),
    ];
    let mut run = Reframe::open(config(list), "0.9.0", false).unwrap();
    run.declare_params().unwrap();
    assert_eq!(
        run.next_question().err(),
        Some(ConfigDataError::UnresolvedDependency { key: "a".to_string(), depends: "b".to_string() })
    );
    assert_eq!(run.cursor, 0);
}

#[test]
fn generation_names_the_output() {
    let mut run = demo_run();
    run.next_question().unwrap();
    run.answer("true");
    run.next_question().unwrap();
    run.answer("mysql");
    let ctx = Context::at(0);
    let g = run.generate(".", &ctx).unwrap();
    assert_eq!(
        g,
        Generation {
            out_dir: "./my-app".to_string(),
            finish_text: Some("cd my-app # mysql".to_string()),
            executables: vec!["./my-app/bin/my_app.sh".to_string()],
        }
    );
    assert_eq!(run.config.project.finish_text, Some("cd my-app # mysql".to_string()));

    let mut dry = Reframe::open(config(vec![]), "0.9.0", true).unwrap();
    // not named yet
    assert_eq!(dry.generate(".", &ctx), None);
    dry.name_project(Some("X Y"), None);
    let g = dry.generate("out", &ctx).unwrap();
    assert_eq!(g.out_dir, "/tmp/out/x-y");
    assert_eq!(g.finish_text, Some("cd x-y # $param.db$".to_string()));
    assert_eq!(g.executables, vec!["/tmp/out/x-y/bin/x_y.sh".to_string()]);
    let g = dry.generate("/abs", &ctx).unwrap();
    assert_eq!(g.out_dir, "/abs/x-y");

    let mut c = config(vec![]);
    c.project.finish_text = None;
    c.post_generate = vec![];
    let mut run = Reframe::open(c, "0.9.0", false).unwrap();
    run.name_project(None, None);
    let g = run.generate("", &ctx).unwrap();
    assert_eq!(g, Generation { out_dir: "my-app".to_string(), finish_text: None, executables: vec![] });
}

#[test]
fn project_variables_with_distinct_keys() {
    let mut c = config(vec![]);
    assert!(c.project.has_distinct_keys());
    c.project.variants.push(Variant { key: "a".to_string(), value: "1".to_string() });
    c.project.variants.push(Variant { key: "b".to_string(), value: "1".to_string() });
    assert!(c.project.has_distinct_keys());
    c.project.variants.push(Variant { key: "a".to_string(), value: "2".to_string() });
    assert!(!c.project.has_distinct_keys());
    c.project.variants.remove(0);
    assert!(c.project.has_distinct_keys());
    c.project.set_variant("a".to_string(), "3".to_string());
    c.project.set_variant("c".to_string(), "4".to_string());
    assert!(c.project.has_distinct_keys());
    assert_eq!(c.project.variants.len(), 3);
}
