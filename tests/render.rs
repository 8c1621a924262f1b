use meson_templates::config::{Configuration, Registry, Value};
use meson_templates::render::{render, render_template, RenderError};
use meson_templates::syntax::{parse, Case, Node, SyntaxError};

fn config(entries: &[(&str, Value)]) -> Configuration {
    let mut cfg = Configuration::new();
    for (name, value) in entries {
        let v = match value {
            Value::Flag(b) => Value::Flag(*b),
            Value::Text(t) => Value::Text(t.clone()),
        };
        assert!(cfg.define(name, v));
    }
    cfg
}

fn text(s: &str) -> Value {
    Value::Text(s.to_string())
}

fn registry(entries: &[(&str, &str)]) -> Registry {
    let mut reg = Registry::new();
    for (name, body) in entries {
        assert!(reg.define(name, body));
    }
    reg
}

fn rendered(name: &str, cfg: &Configuration, reg: &Registry) -> String {
    match render_template(name, cfg, reg) {
        Ok(s) => s,
        Err(_) => panic!("render of {} failed", name),
    }
}

#[test]
fn hello_with_adwaita() {
    let cfg = config(&[("PreFix", text("Foo")), ("is_adwaita", Value::Flag(true))]);
    let reg = registry(&[("t", "Hello {{PreFix}}App{{if is_adwaita}}-adw{{end}}")]);
    assert_eq!(rendered("t", &cfg, &reg), "Hello FooApp-adw");
}

#[test]
fn hello_without_adwaita() {
    let cfg = config(&[("PreFix", text("Foo")), ("is_adwaita", Value::Flag(false))]);
    let reg = registry(&[("t", "Hello {{PreFix}}App{{if is_adwaita}}-adw{{end}}")]);
    assert_eq!(rendered("t", &cfg, &reg), "Hello FooApp");
}

#[test]
fn license_header_is_inlined() {
    let cfg = config(&[("author", text("Jane"))]);
    let reg = registry(&[
        ("a", "{{include \"license\"}}\nbody"),
        ("license", "// (c) {{author}}"),
    ]);
    assert_eq!(rendered("a", &cfg, &reg), "// (c) Jane\nbody");
}

#[test]
fn rendering_twice_gives_the_same_text() {
    let cfg = config(&[("name", text("demo")), ("gtk4", Value::Flag(true))]);
    let reg = registry(&[("t", "app {{name}}{{if gtk4}} gtk4{{else}} gtk3{{end}}\n")]);
    let first = rendered("t", &cfg, &reg);
    let second = rendered("t", &cfg, &reg);
    assert_eq!(first, second);
    assert_eq!(first, "app demo gtk4\n");
}

#[test]
fn plain_text_passes_through() {
    let cfg = Configuration::new();
    let body = "fn main() {\n    let x = { 1 };\n}\n}} { }";
    let reg = registry(&[("t", body)]);
    assert_eq!(rendered("t", &cfg, &reg), body);
}

#[test]
fn placeholders_are_substituted() {
    let cfg = config(&[("a", text("x")), ("b", text("yz"))]);
    let reg = registry(&[("t", "[{{a}}] {{b}}{{a}}.")]);
    assert_eq!(rendered("t", &cfg, &reg), "[x] yzx.");
}

#[test]
fn empty_template_renders_empty() {
    let cfg = Configuration::new();
    let reg = registry(&[("t", "")]);
    assert_eq!(rendered("t", &cfg, &reg), "");
}

#[test]
fn conditional_selects_one_branch() {
    let reg = registry(&[("t", "<{{if x}}A{{a}}{{else}}B{{b}}{{end}}>")]);
    let on = config(&[("x", Value::Flag(true)), ("a", text("1")), ("b", text("2"))]);
    let off = config(&[("x", Value::Flag(false)), ("a", text("1")), ("b", text("2"))]);
    assert_eq!(rendered("t", &on, &reg), "<A1>");
    assert_eq!(rendered("t", &off, &reg), "<B2>");
}

#[test]
fn untaken_branch_is_not_evaluated() {
    let reg = registry(&[("t", "{{if x}}{{missing}}{{include \"nowhere\"}}{{else}}ok{{end}}")]);
    let cfg = config(&[("x", Value::Flag(false))]);
    assert_eq!(rendered("t", &cfg, &reg), "ok");
}

#[test]
fn nested_conditionals() {
    let reg = registry(&[("t", "{{if a}}1{{if b}}2{{else}}3{{end}}4{{else}}5{{end}}")]);
    let cfg = config(&[("a", Value::Flag(true)), ("b", Value::Flag(false))]);
    assert_eq!(rendered("t", &cfg, &reg), "134");
}

#[test]
fn capitalized_placeholder() {
    let reg = registry(&[("t", "{{Name}}/{{name}}")]);
    let cfg = config(&[("Name", text("window")), ("name", text("window"))]);
    assert_eq!(rendered("t", &cfg, &reg), "Window/window");
}

#[test]
fn mutual_inclusion_is_cyclic() {
    let reg = registry(&[("t1", "a{{include \"t2\"}}"), ("t2", "b{{include \"t1\"}}")]);
    let cfg = Configuration::new();
    match render_template("t1", &cfg, &reg) {
        Err(RenderError::CyclicInclusion { template, name }) => {
            assert_eq!(template, "t2");
            assert_eq!(name, "t1");
        }
        _ => panic!("expected a cyclic inclusion"),
    }
}

#[test]
fn self_inclusion_is_cyclic() {
    let reg = registry(&[("t", "{{include \"t\"}}")]);
    let cfg = Configuration::new();
    assert!(matches!(
        render_template("t", &cfg, &reg),
        Err(RenderError::CyclicInclusion { .. })
    ));
}

#[test]
fn repeated_inclusion_is_not_cyclic() {
    let reg = registry(&[("t", "{{include \"x\"}}{{include \"x\"}}"), ("x", "ab")]);
    let cfg = Configuration::new();
    assert_eq!(rendered("t", &cfg, &reg), "abab");
}

#[test]
fn undefined_variable_is_named() {
    let reg = registry(&[("t", "x {{author}} y")]);
    let cfg = Configuration::new();
    match render_template("t", &cfg, &reg) {
        Err(RenderError::UndefinedVariable { template, name }) => {
            assert_eq!(template, "t");
            assert_eq!(name, "author");
        }
        _ => panic!("expected an undefined variable"),
    }
}

#[test]
fn flag_used_as_text_is_a_mismatch() {
    let reg = registry(&[("t", "{{x}}")]);
    let cfg = config(&[("x", Value::Flag(true))]);
    assert!(matches!(
        render_template("t", &cfg, &reg),
        Err(RenderError::TypeMismatch { .. })
    ));
}

#[test]
fn text_used_as_flag_is_a_mismatch() {
    let reg = registry(&[("t", "{{if x}}a{{end}}")]);
    let cfg = config(&[("x", text("yes"))]);
    assert!(matches!(
        render_template("t", &cfg, &reg),
        Err(RenderError::TypeMismatch { .. })
    ));
}

#[test]
fn unknown_template_is_named() {
    let reg = registry(&[("t", "{{include \"license.rs\"}}")]);
    let cfg = Configuration::new();
    match render_template("t", &cfg, &reg) {
        Err(RenderError::UnknownTemplate { template, name }) => {
            assert_eq!(template, "t");
            assert_eq!(name, "license.rs");
        }
        _ => panic!("expected an unknown template"),
    }
    assert!(matches!(
        render_template("absent", &cfg, &reg),
        Err(RenderError::UnknownTemplate { .. })
    ));
}

#[test]
fn syntax_error_in_included_template() {
    let reg = registry(&[("t", "{{include \"bad\"}}"), ("bad", "{{if x}}")]);
    let cfg = config(&[("x", Value::Flag(true))]);
    match render_template("t", &cfg, &reg) {
        Err(RenderError::Syntax { template, error }) => {
            assert_eq!(template, "bad");
            assert_eq!(error, SyntaxError::Unclosed);
        }
        _ => panic!("expected a syntax error"),
    }
}

fn parse_error(s: &str) -> SyntaxError {
    match parse(s) {
        Err(e) => e,
        Ok(_) => panic!("expected {:?} to be refused", s),
    }
}

#[test]
fn syntax_errors() {
    assert_eq!(parse_error("a {{b"), SyntaxError::Unterminated);
    assert_eq!(parse_error("{{}}"), SyntaxError::Malformed);
    assert_eq!(parse_error("{{a b}}"), SyntaxError::Malformed);
    assert_eq!(parse_error("{{if }}x{{end}}"), SyntaxError::Malformed);
    assert_eq!(parse_error("{{include x}}"), SyntaxError::Malformed);
    assert_eq!(parse_error("{{include \"\"}}"), SyntaxError::Malformed);
    assert_eq!(parse_error("{{if a}}x"), SyntaxError::Unclosed);
    assert_eq!(parse_error("x{{end}}"), SyntaxError::StrayEnd);
    assert_eq!(parse_error("x{{else}}y"), SyntaxError::StrayElse);
    assert_eq!(parse_error("{{if a}}1{{else}}2{{else}}3{{end}}"), SyntaxError::RepeatedElse);
}

#[test]
fn parse_builds_the_tree() {
    let nodes = match parse("a{{X}}{{if f}}b{{else}}{{include \"n\"}}{{end}}") {
        Ok(n) => n,
        Err(_) => panic!("parse failed"),
    };
    assert_eq!(nodes.len(), 3);
    assert!(matches!(&nodes[0], Node::Literal(t) if t == "a"));
    assert!(matches!(&nodes[1], Node::Placeholder(x, Case::Capitalized) if x == "X"));
    match &nodes[2] {
        Node::Conditional(x, a, b) => {
            assert_eq!(x, "f");
            assert!(matches!(&a[..], [Node::Literal(t)] if t == "b"));
            assert!(matches!(&b[..], [Node::Embed(n)] if n == "n"));
        }
        _ => panic!("expected a conditional"),
    }
}

#[test]
fn render_many_roots() {
    let reg = registry(&[("a", "A{{v}}"), ("b", "B{{v}}")]);
    let cfg = config(&[("v", text("1"))]);
    let roots = vec!["a".to_string(), "b".to_string()];
    match render(&roots, &cfg, &reg) {
        Ok(out) => {
            assert_eq!(out.len(), 2);
            assert_eq!(out[0], ("a".to_string(), "A1".to_string()));
            assert_eq!(out[1], ("b".to_string(), "B1".to_string()));
        }
        Err(_) => panic!("render failed"),
    }
}

#[test]
fn render_fails_without_partial_output() {
    let reg = registry(&[("a", "A"), ("b", "{{missing}}")]);
    let cfg = Configuration::new();
    let roots = vec!["a".to_string(), "b".to_string()];
    assert!(matches!(
        render(&roots, &cfg, &reg),
        Err(RenderError::UndefinedVariable { .. })
    ));
}

#[test]
fn duplicate_names_are_refused() {
    let mut cfg = Configuration::new();
    assert!(cfg.define("x", Value::Flag(true)));
    assert!(!cfg.define("x", Value::Flag(false)));
    let mut reg = Registry::new();
    assert!(reg.define("t", "1"));
    assert!(!reg.define("t", "2"));
    assert_eq!(reg.len(), 1);
    let reg2 = registry(&[("t", "{{if x}}on{{else}}off{{end}}")]);
    assert_eq!(rendered("t", &cfg, &reg2), "on");
}

#[test]
fn non_ascii_text_is_kept() {
    let cfg = config(&[("year", text("2024")), ("Who", text("\u{e9}mile"))]);
    let reg = registry(&[("t", "\u{a9} {{year}} {{Who}}")]);
    assert_eq!(rendered("t", &cfg, &reg), "\u{a9} 2024 \u{e9}mile");
}

#[test]
fn window_template_variants() {
    let body = "pub struct {{PreFix}}Window;\n    type ParentType = {{if is_adwaita}}adw{{else}}gtk{{end}}::ApplicationWindow;\n#[template(resource = \"{{appid_path}}/{{ui_file}}\")]\n";
    let reg = registry(&[("window-gtk4.rs", body)]);
    let adw = config(&[
        ("PreFix", text("demo")),
        ("is_adwaita", Value::Flag(true)),
        ("appid_path", text("/org/example/Demo")),
        ("ui_file", text("window.ui")),
    ]);
    assert_eq!(
        rendered("window-gtk4.rs", &adw, &reg),
        "pub struct DemoWindow;\n    type ParentType = adw::ApplicationWindow;\n#[template(resource = \"/org/example/Demo/window.ui\")]\n"
    );
}
