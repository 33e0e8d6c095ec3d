use heck::{CamelCase, KebabCase, MixedCase, SnakeCase};
use reframe::builtin::Context;
use reframe::case::CaseStyle;
use reframe::config::{Config, ProjectConfig, ReframeConfig, Variant};
use reframe::engine::Reframe;
use reframe::param::Param;

fn build_config(name: &str) -> Config {
    Config {
        reframe: ReframeConfig {
            name: "My Reframe".to_string(),
            author: "robin".to_string(),
            min_version: "0.1.0".to_string(),
        },
        project: ProjectConfig {
            name: name.to_owned(),
            variants: Default::default(),
            version: "0.1.1".to_string(),
            ignore_dirs: None,
            ignore_files: None,
            finish_text: None,
        },
        param: vec![],
        presents: vec![],
        post_generate: vec![],
    }
}

fn now() -> Context {
    Context::at(0)
}

fn unclosed(input: &str, config: &Config, param: &[Param]) -> String {
    match Reframe::process_template_str(input.to_string(), config, param, &[], &now()) {
        Ok(out) => out,
        Err(e) => panic!("unclosed if conditional `{}` at line {}", e.directive, e.line),
    }
}

#[test]
fn test_string_sub() {
    let input = r#"\
        project = "$name$"\
        project_lower = "$name_lower_case$"\
        project_upper = "$name_upper_case$"\

        param.a = "$param.a$"\
        param.a_lower = "$param.a_lower_case$"\
        param.a_snake = "$param.a_snake_case$"\
        param.a_camel = "$param.a_camel_case$"\
        param.a_pascal = "$param.a_pascal_case$"\
        param.a_shout_snake = "$param.a_shout_snake_case$"\
        "#;

    let expected = r#"\
        project = "Mantap Lah"\
        project_lower = "mantap lah"\
        project_upper = "MANTAP LAH"\

        param.a = "Jumping Fox"\
        param.a_lower = "jumping fox"\
        param.a_snake = "jumping_fox"\
        param.a_camel = "jumpingFox"\
        param.a_pascal = "JumpingFox"\
        param.a_shout_snake = "JUMPING_FOX"\
        "#;

    let name = "Mantap Lah".to_string();

    let config = Config {
        reframe: ReframeConfig {
            name: "My Reframe".to_string(),
            author: "robin".to_string(),
            min_version: "0.1.0".to_string(),
        },
        project: ProjectConfig {
            name: name.to_owned(),
            variants: {
                let mut h = Vec::new();
                h.push(Variant { key: "name".to_string(), value: name.to_owned() });
                h.push(Variant { key: "name_lower_case".to_string(), value: name.to_lowercase() });
                h.push(Variant { key: "name_upper_case".to_string(), value: name.to_uppercase() });
                h.push(Variant { key: "name_kebab_case".to_string(), value: name.to_kebab_case() });
                h.push(Variant { key: "name_camel_case".to_string(), value: name.to_mixed_case() });
                h.push(Variant { key: "name_pascal_case".to_string(), value: name.to_camel_case() });
                h.push(Variant { key: "name_snake_case".to_string(), value: name.to_snake_case() });
                h
            },
            version: "0.1.1".to_string(),
            ignore_dirs: None,
            ignore_files: None,
            finish_text: None,
        },
        param: vec![],
        presents: vec![],
        post_generate: vec![],
    };

    let p = Param::new("a".to_string(), "Jumping Fox".to_string());

    let mut param = vec![];
    param.push(p.clone());
    param.push(p.derive_variant(CaseStyle::Lower));
    param.push(p.derive_variant(CaseStyle::Upper));
    param.push(p.derive_variant(CaseStyle::Snake));
    param.push(p.derive_variant(CaseStyle::Camel));
    param.push(p.derive_variant(CaseStyle::Pascal));
    param.push(p.derive_variant(CaseStyle::ShoutSnake));

    let output = Reframe::string_sub(input, &config, &param, &[], &now());
    assert_eq!(output, expected);
}

#[test]
fn core_test_if_conditional() {
    let input = r#"\
        project = "$name$";
        # <% if param.with_x %>
        import x;
        # <% endif %>
        # <% if param.db == "sqlite" %>
        import sqlite;
        # <% endif %>
        # <% if param.db == "mysql" %>
        import mysql;
        # <% endif %>
        "#;

    let expected1 = r#"\
        project = "Conditional";
        import sqlite;
        "#;
    let expected2 = r#"\
        project = "Conditional";
        import x;
        import sqlite;
        "#;
    let expected3 = r#"\
        project = "Conditional";
        import mysql;
        "#;

    let name = "Conditional";

    let config = build_config(name);

    let p = Param::new("db".to_string(), "sqlite".to_owned());

    let mut param = vec![];
    param.push(p);

    let output =
        Reframe::process_template_str(input.to_string(), &config, &param, &[], &now()).unwrap();
    assert_eq!(output, expected1);

    param.push(Param::new("with_x".to_string(), "true".to_owned()));
    let output =
        Reframe::process_template_str(input.to_string(), &config, &param, &[], &now()).unwrap();
    assert_eq!(output, expected2);

    param.clear();
    param.push(Param::new("with_x".to_string(), "false".to_owned()));
    param.push(Param::new("db".to_string(), "mysql".to_owned()));
    let output =
        Reframe::process_template_str(input.to_string(), &config, &param, &[], &now()).unwrap();
    assert_eq!(output, expected3);
}

#[test]
fn basic_test_if_conditional() {
    let input = r#"\
        project = "$name$";
        # <% if param.with_x %>
        import x;
        # <% endif %>
        # <% if param.db == "sqlite" %>
        import sqlite;
        # <% endif %>
        # <% if param.db == "mysql" %>
        import mysql;
        # <% endif %>
        "#;

    let expected1 = r#"\
        project = "Conditional";
        import sqlite;
        "#;
    let expected2 = r#"\
        project = "Conditional";
        import x;
        import sqlite;
        "#;
    let expected3 = r#"\
        project = "Conditional";
        import mysql;
        "#;

    let name = "Conditional";

    let config = build_config(name);

    let p = Param::new("db".to_string(), "sqlite".to_owned());

    let mut param = vec![];
    param.push(p);

    let output =
        Reframe::process_template_str(input.to_string(), &config, &param, &[], &now()).unwrap();
    assert_eq!(output, expected1);

    param.push(Param::new("with_x".to_string(), "true".to_owned()));
    let output =
        Reframe::process_template_str(input.to_string(), &config, &param, &[], &now()).unwrap();
    assert_eq!(output, expected2);

    param.clear();
    param.push(Param::new("with_x".to_string(), "false".to_owned()));
    param.push(Param::new("db".to_string(), "mysql".to_owned()));
    let output =
        Reframe::process_template_str(input.to_string(), &config, &param, &[], &now()).unwrap();
    assert_eq!(output, expected3);
}

#[test]
fn core_test_if_conditional_comment_mark() {
    let input = r#"\
        project = "$name$";
        -- <% if param.with_x %>
        import x;
        -- <% endif %>
        // <% if param.db == "sqlite" %>
        import sqlite;
        // <% endif %>
        # <% if param.db == "mysql" %>
        import mysql;
        # <% endif %>
        "#;

    let expected1 = r#"\
        project = "Conditional";
        import sqlite;
        "#;

    let name = "Conditional";

    let config = build_config(name);

    let p = Param::new("db".to_string(), "sqlite".to_owned());

    let mut param = vec![];
    param.push(p);
    param.push(Param::new("with_x".to_string(), "false".to_owned()));

    let output =
        Reframe::process_template_str(input.to_string(), &config, &param, &[], &now()).unwrap();
    assert_eq!(output, expected1);
}

#[test]
fn basic_test_if_conditional_comment_mark() {
    let input = r#"\
        project = "$name$";
        -- <% if param.with_x %>
        import x;
        -- <% endif %>
        // <% if param.db == "sqlite" %>
        import sqlite;
        // <% endif %>
        # <% if param.db == "mysql" %>
        import mysql;
        # <% endif %>
        "#;

    let expected1 = r#"\
        project = "Conditional";
        import sqlite;
        "#;

    let name = "Conditional";

    let config = build_config(name);

    let p = Param::new("db".to_string(), "sqlite".to_owned());

    let mut param = vec![];
    param.push(p);
    param.push(Param::new("with_x".to_string(), "false".to_owned()));

    let output =
        Reframe::process_template_str(input.to_string(), &config, &param, &[], &now()).unwrap();
    assert_eq!(output, expected1);
}

#[test]
fn core_test_if_conditional_sql() {
    let input = r#"\
        -- mulai akun
        -- <% if param.with_account %>
        CREATE TABLE accounts (
            id BIGSERIAL PRIMARY KEY,
            full_name VARCHAR NOT NULL,
            email VARCHAR NOT NULL
        );
        -- <% endif %>
        -- selesai
        "#;

    let expected1 = r#"\
        -- mulai akun
        -- selesai
        "#;

    let name = "Conditional";

    let config = build_config(name);

    let mut param = vec![];
    param.push(Param::new("with_account".to_string(), "false".to_owned()));

    let output =
        Reframe::process_template_str(input.to_string(), &config, &param, &[], &now()).unwrap();
    assert_eq!(output, expected1);
}

#[test]
fn basic_test_if_conditional_sql() {
    let input = r#"\
        -- mulai akun
        -- <% if param.with_account %>
        CREATE TABLE accounts (
            id BIGSERIAL PRIMARY KEY,
            full_name VARCHAR NOT NULL,
            email VARCHAR NOT NULL
        );
        -- <% endif %>
        -- selesai
        "#;

    let expected1 = r#"\
        -- mulai akun
        -- selesai
        "#;

    let name = "Conditional";

    let config = build_config(name);

    let mut param = vec![];
    param.push(Param::new("with_account".to_string(), "false".to_owned()));

    let output =
        Reframe::process_template_str(input.to_string(), &config, &param, &[], &now()).unwrap();
    assert_eq!(output, expected1);
}

#[test]
#[should_panic(expected = "unclosed if conditional `# <% if param.with_x %>` at line 2")]
fn core_test_unclosed_if_tag() {
    let input = r#"\
        project = "$name$";
        # <% if param.with_x %>
        import x;
        import sqlite;
        "#;

    let config = build_config("any");

    let param = vec![];
    let _ = unclosed(input, &config, &param);
}

#[test]
#[should_panic(expected = "unclosed if conditional `# <% if param.with_x %>` at line 2")]
fn basic_test_unclosed_if_tag() {
    let input = r#"\
        project = "$name$";
        # <% if param.with_x %>
        import x;
        import sqlite;
        "#;

    let config = build_config("any");

    let param = vec![];
    let _ = unclosed(input, &config, &param);
}
