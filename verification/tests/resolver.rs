use reframe::builtin::{default_builtins, BuiltinVar, Context, Resolver};
use reframe::config::{Config, ProjectConfig, ReframeConfig, Variant};
use reframe::directive::{AuthoringError, SkipLine};
use reframe::engine::Reframe;
use reframe::param::{Param, ParamKind};

fn config(name: &str) -> Config {
    Config {
        reframe: ReframeConfig {
            name: "My Reframe".to_string(),
            author: "robin".to_string(),
            min_version: "0.1.0".to_string(),
        },
        project: ProjectConfig {
            name: name.to_owned(),
            variants: Vec::new(),
            version: "0.1.1".to_string(),
            ignore_dirs: None,
            ignore_files: None,
            finish_text: None,
        },
        param: vec![],
        presents: vec![],
        post_generate: vec![],
    }
}

fn resolve(lines: &[&str], param: &[Param]) -> Result<String, AuthoringError> {
    Reframe::process_template_str(lines.join("\n"), &config("Conditional"), param, &[], &Context::at(0))
}

fn p(key: &str, value: &str) -> Param {
    Param::new(key.to_string(), value.to_string())
}

#[test]
fn false_flag_removes_its_block() {
    let out = resolve(
        &["A", "<% if param.with_x %>", "B", "<% endif %>", "C"],
        &[p("with_x", "false")],
    );
    assert_eq!(out, Ok("A\nC".to_string()));
}

#[test]
fn equality_keeps_the_block_of_the_value_only() {
    let lines = [
        "# <% if param.db == \"sqlite\" %>",
        "import sqlite;",
        "# <% endif %>",
        "# <% if param.db == \"mysql\" %>",
        "import mysql;",
        "# <% endif %>",
    ];
    assert_eq!(resolve(&lines, &[p("db", "sqlite")]), Ok("import sqlite;".to_string()));
    assert_eq!(resolve(&lines, &[p("db", "mysql")]), Ok("import mysql;".to_string()));
    assert_eq!(resolve(&lines, &[p("db", "postgres")]), Ok("".to_string()));
}

#[test]
fn unclosed_block_is_an_authoring_error() {
    let out = resolve(&["A", "<% if param.with_x %>", "B"], &[p("with_x", "false")]);
    assert_eq!(
        out,
        Err(AuthoringError { directive: "<% if param.with_x %>".to_string(), line: 1 })
    );
}

#[test]
fn unclosed_block_reports_the_trimmed_opening_line() {
    let out = resolve(&["A", "B", "   # <% if param.with_x %>  ", "C"], &[]);
    assert_eq!(
        out,
        Err(AuthoringError { directive: "# <% if param.with_x %>".to_string(), line: 2 })
    );
}

#[test]
fn block_opened_in_the_last_line_is_unclosed() {
    let out = resolve(&["A", "# <% if param.with_x %>"], &[]);
    assert_eq!(
        out,
        Err(AuthoringError { directive: "# <% if param.with_x %>".to_string(), line: 1 })
    );
}

#[test]
fn block_closed_in_the_last_line_is_closed() {
    let out = resolve(&["A", "# <% if param.with_x %>", "B", "# <% endif %>"], &[]);
    assert_eq!(out, Ok("A".to_string()));
}

#[test]
fn end_to_end() {
    let lines = [
        "project = \"$name$\";",
        "# <% if param.with_x %>",
        "import x;",
        "# <% endif %>",
        "# <% if param.db == \"sqlite\" %>",
        "import sqlite;",
        "# <% endif %>",
    ];
    let out = resolve(&lines, &[p("db", "sqlite")]);
    assert_eq!(out, Ok("project = \"Conditional\";\nimport sqlite;".to_string()));
}

#[test]
fn comment_marker_does_not_matter() {
    for marker in ["#", "//", "--", "/*"] {
        let open = format!("{} <% if param.with_x %>", marker);
        let close = format!("{} <% endif %>", marker);
        let lines = ["A", open.as_str(), "B", close.as_str(), "C"];
        assert_eq!(resolve(&lines, &[p("with_x", "false")]), Ok("A\nC".to_string()));
        assert_eq!(resolve(&lines, &[p("with_x", "true")]), Ok("A\nB\nC".to_string()));
        assert_eq!(resolve(&lines, &[]), Ok("A\nC".to_string()));
    }
}

#[test]
fn no_parameter_means_skip() {
    let lines = ["A", "# <% if param.other %>", "B", "# <% endif %>", "C"];
    assert_eq!(resolve(&lines, &[p("with_x", "true")]), Ok("A\nC".to_string()));
    // a parameter without a value decides nothing
    let mut unresolved = p("other", "x");
    unresolved.value = None;
    assert_eq!(resolve(&lines, &[unresolved]), Ok("A\nC".to_string()));
}

#[test]
fn first_parameter_in_order_decides() {
    let lines = ["# <% if param.k %>", "B", "# <% endif %>"];
    assert_eq!(resolve(&lines, &[p("k", "false"), p("k", "true")]), Ok("".to_string()));
    assert_eq!(resolve(&lines, &[p("k", "true"), p("k", "false")]), Ok("B".to_string()));
}

#[test]
fn flag_form_needs_no_prefix_in_the_key() {
    let lines = ["# <% if param.enable %>", "B", "# <% endif %>"];
    assert_eq!(resolve(&lines, &[p("enable", "yes")]), Ok("B".to_string()));
    assert_eq!(resolve(&lines, &[p("enable", "false")]), Ok("".to_string()));
}

#[test]
fn nested_opens_are_not_counted() {
    let lines = [
        "# <% if param.a %>",
        "# <% if param.b %>",
        "x",
        "# <% endif %>",
        "y",
        "# <% endif %>",
        "z",
    ];
    // the first endif ends the skipping; the second is a stray one and is dropped
    assert_eq!(resolve(&lines, &[p("a", "false"), p("b", "true")]), Ok("y\nz".to_string()));
}

#[test]
fn stray_endif_is_dropped() {
    assert_eq!(resolve(&["A", "<% endif %>", "B"], &[]), Ok("A\nB".to_string()));
    assert_eq!(resolve(&["A", "x <% endif %> y", "B"], &[]), Ok("A\nB".to_string()));
}

#[test]
fn kept_directive_without_marker_stays() {
    let lines = ["<% if param.a %>", "x", "<% endif %>"];
    assert_eq!(resolve(&lines, &[p("a", "true")]), Ok("<% if param.a %>\nx".to_string()));
}

#[test]
fn syntax_marks_are_dropped() {
    assert_eq!(resolve(&["A", "# <% note %>", "B"], &[]), Ok("A\nB".to_string()));
    assert_eq!(resolve(&["A", "x = 1; //<%%>", "B"], &[]), Ok("A\nB".to_string()));
    assert_eq!(resolve(&["A", "/* \t <% a %> */", "B"], &[]), Ok("A\nB".to_string()));
    // no marker, no closing, or something between marker and directive: the line stays
    assert_eq!(resolve(&["<% note %>"], &[]), Ok("<% note %>".to_string()));
    assert_eq!(resolve(&["# <% note"], &[]), Ok("# <% note".to_string()));
    assert_eq!(resolve(&["# x <% note %>"], &[]), Ok("# x <% note %>".to_string()));
    assert_eq!(resolve(&["# <%>"], &[]), Ok("# <%>".to_string()));
}

#[test]
fn equality_literal_runs_to_the_last_quote() {
    let lines = ["# <% if param.k  ==\"a\" %>\" %>", "B", "# <% endif %>"];
    assert_eq!(resolve(&lines, &[p("k", "a\" %>")]), Ok("B".to_string()));
    assert_eq!(resolve(&lines, &[p("k", "a")]), Ok("".to_string()));
}

#[test]
fn key_that_begins_another_key_does_not_decide() {
    let lines = ["# <% if param.db == \"x\" %>", "B", "# <% endif %>"];
    assert_eq!(resolve(&lines, &[p("d", "x"), p("db", "x")]), Ok("B".to_string()));
    let lines = ["# <% if param.with_xy %>", "B", "# <% endif %>"];
    assert_eq!(resolve(&lines, &[p("with_x", "false"), p("with_xy", "true")]), Ok("B".to_string()));
}

#[test]
fn open_needs_both_ends() {
    // "<% if %>" has no " %>" after "<% if "
    assert_eq!(resolve(&["<% if %>", "B"], &[]), Ok("<% if %>\nB".to_string()));
    assert_eq!(resolve(&["<% if  %>", "B"], &[]).is_err(), true);
}

#[test]
fn substitution_without_dollar_is_identity() {
    let mut c = config("N");
    c.project.variants.push(Variant { key: "name_x".to_string(), value: "v".to_string() });
    let params = [p("a", "1")];
    let ctx = Context::at(0);
    for text in ["", "name", "param.a version year", "<% if %>", "a\nb"] {
        assert_eq!(Reframe::string_sub(text, &c, &params, &default_builtins(), &ctx), text);
    }
}

#[test]
fn substitution_order_and_tokens() {
    let mut c = config("N");
    c.project.variants.push(Variant { key: "ab".to_string(), value: "SHORT".to_string() });
    c.project.variants.push(Variant { key: "ab$cd".to_string(), value: "LONG".to_string() });
    let ctx = Context::at(0);
    // the longest key goes first
    assert_eq!(Reframe::string_sub("$ab$cd$", &c, &[], &[], &ctx), "LONG");
    // the name goes before the project variables, the version after them
    c.project.variants.push(Variant { key: "name".to_string(), value: "other".to_string() });
    c.project.variants.push(Variant { key: "version".to_string(), value: "$version$".to_string() });
    assert_eq!(Reframe::string_sub("$name$ $version$", &c, &[], &[], &ctx), "N 0.1.1");
    // every occurrence, left to right, without overlap; case matters
    assert_eq!(Reframe::string_sub("$name$name$name$ $Name$", &c, &[], &[], &ctx), "NnameN $Name$");
    // a parameter without a value is left alone
    let mut q = p("b", "x");
    q.value = None;
    assert_eq!(
        Reframe::string_sub("$param.a$ $param.b$", &c, &[p("a", "1"), q], &[], &ctx),
        "1 $param.b$"
    );
    // a value may bring in a token of a later step
    assert_eq!(
        Reframe::string_sub("$param.a$", &c, &[p("a", "$param.b$"), p("b", "2")], &[], &ctx),
        "2"
    );
}

#[test]
fn builtin_variables_read_the_clock() {
    let c = config("N");
    let vars = default_builtins();
    assert_eq!(vars.len(), 2);
    assert_eq!(vars[0].key, "year");
    assert_eq!(vars[1].key, "month_name");
    let text = "(c) $year$, $month_name$";
    assert_eq!(Reframe::string_sub(text, &c, &[], &vars, &Context::at(0)), "(c) 1970, January");
    // 2000-02-29 12:00:00 UTC
    assert_eq!(
        Reframe::string_sub(text, &c, &[], &vars, &Context::at(951_825_600)),
        "(c) 2000, February"
    );
    // one second before 1970
    assert_eq!(
        Reframe::string_sub(text, &c, &[], &vars, &Context::at(-1)),
        "(c) 1969, December"
    );
    // a clock out of the range of dates leaves the tokens
    assert_eq!(Reframe::string_sub(text, &c, &[], &vars, &Context::at(i64::MAX)), text);
    let own = [BuiltinVar { key: "y".to_string(), resolver: Resolver::Year }];
    assert_eq!(own[0].resolve(&Context::at(0), "anything"), Some("1970".to_string()));
    assert_eq!(own[0].resolve(&Context::at(i64::MIN), ""), None);
    assert_eq!(Reframe::string_sub("$y$ $year$", &c, &[], &own, &Context::at(0)), "1970 $year$");
}

#[test]
fn skip_line_state() {
    let mut sl = SkipLine::new();
    assert_eq!(sl.start, false);
    assert_eq!(sl.matching, "");
    sl.start = true;
    sl.matching = "<% endif %>";
    sl.stop();
    assert_eq!(sl.start, false);
    assert_eq!(sl.matching, "<% endif %>");
}

#[test]
fn param_new_is_a_resolved_text_parameter() {
    let q = Param::new("k".to_string(), "v".to_string());
    assert_eq!(q.key, "k");
    assert_eq!(q.value, Some("v".to_string()));
    assert_eq!(q.kind, ParamKind::String);
    assert_eq!(q.ask, "");
    assert_eq!(q.default, None);
    assert_eq!(q.ifwith, None);
    assert!(q.options.is_empty());
    assert!(!q.derived);
    let d = q.duplicate();
    assert_eq!(d.key, "k");
    assert_eq!(d.value, Some("v".to_string()));
}

#[test]
fn texts_beyond_ascii() {
    let c = config("Grüße ✓");
    let ctx = Context::at(0);
    assert_eq!(
        Reframe::string_sub("«$name$» — $param.π$", &c, &[p("π", "3,14 €")], &[], &ctx),
        "«Grüße ✓» — 3,14 €"
    );
    let lines = ["ä", "#\u{3000}<% if param.ключ == \"значение\" %>", "ö $name$", "# <% endif %>", "ü"];
    assert_eq!(resolve(&lines, &[p("ключ", "значение")]), Ok("ä\nö Conditional\nü".to_string()));
    assert_eq!(resolve(&lines, &[p("ключ", "другое")]), Ok("ä\nü".to_string()));
}

#[test]
fn line_feeds_are_kept_as_they_are() {
    assert_eq!(resolve(&["", "", ""], &[]), Ok("\n\n".to_string()));
    assert_eq!(resolve(&[""], &[]), Ok("".to_string()));
    assert_eq!(resolve(&["a\r", "b\r"], &[]), Ok("a\r\nb\r".to_string()));
    assert_eq!(resolve(&["# <% x %>"], &[]), Ok("".to_string()));
    assert_eq!(resolve(&["# <% x %>", ""], &[]), Ok("".to_string()));
    assert_eq!(resolve(&["", "# <% x %>", ""], &[]), Ok("\n".to_string()));
}

#[test]
fn a_key_may_reach_over_the_marker_when_a_directive_leads_in() {
    let key = "a# <% x";
    let with_hash = ["<% if param.a# <% x %>", "B", "# <% endif %>"];
    let with_dashes = ["<% if param.a-- <% x %>", "B", "# <% endif %>"];
    assert_eq!(resolve(&with_hash, &[p(key, "true")]), Ok("B".to_string()));
    assert_eq!(resolve(&with_dashes, &[p(key, "true")]), Ok("".to_string()));
}
