use infinity_msfs::casing::{is_identifier, is_kebab, is_pascal, is_snake, validate, ValidateError};
use infinity_msfs::path::FsPath;
use infinity_msfs::render::{apply_filter, apply_tokens, apply_tokens_path, render, render_expr, RenderError};
use infinity_msfs::strmap::StrMap;
use infinity_msfs::template::{
    build_token_map, cased_token_map, check_target, project_name_or_default, choose_project_name, choose_template, default_validate,
    derived_project_default, next_steps, no_input_answer, plan_template_file, require_target,
    strip_template_prefix, template_order, CreateError, NameChoice, PromptSpec, TemplateChoice,
    TemplateManifest, TemplateMeta,
};

fn vars(pairs: &[(&str, &str)]) -> StrMap {
    let mut m = StrMap::new();
    for (k, v) in pairs {
        m.insert(k, v);
    }
    m
}

fn manifest(id: &str, display: &str) -> TemplateManifest {
    TemplateManifest {
        template: TemplateMeta {
            id: id.to_string(),
            display: display.to_string(),
            description: String::new(),
            category: String::new(),
        },
        prompts: Vec::new(),
        tokens: StrMap::new(),
    }
}

#[test]
fn strmap_keeps_keys_sorted_and_replaces_values() {
    let mut m = StrMap::new();
    m.insert("b", "2");
    m.insert("a", "1");
    m.insert("c", "3");
    m.insert("b", "two");
    assert_eq!(m.len(), 3);
    assert_eq!(m.key_at(0), "a");
    assert_eq!(m.key_at(1), "b");
    assert_eq!(m.key_at(2), "c");
    assert_eq!(m.get("b").map(|s| s.as_str()), Some("two"));
    assert!(m.get("d").is_none());
    assert!(m.contains_key("a"));
}

#[test]
fn render_plain_variable() {
    let v = vars(&[("project_name", "my-gauge")]);
    let out = render_expr("name: {{project_name}}!", &v).ok().unwrap();
    assert_eq!(out, "name: my-gauge!");
}

#[test]
fn render_filters() {
    let v = vars(&[("project_name", "my-gauge")]);
    assert_eq!(render_expr("{{project_name|snake}}", &v).ok().unwrap(), "my_gauge");
    assert_eq!(render_expr("{{ project_name | pascal }}", &v).ok().unwrap(), "MyGauge");
    assert_eq!(render_expr("{{project_name|upper}}", &v).ok().unwrap(), "MY_GAUGE");
    assert_eq!(render_expr("{{project_name|kebab}}", &v).ok().unwrap(), "my-gauge");
    assert_eq!(
        render_expr("{{project_name}}-{{project_name|snake}}", &v).ok().unwrap(),
        "my-gauge-my_gauge"
    );
}

#[test]
fn render_text_without_references_is_unchanged() {
    let v = vars(&[]);
    assert_eq!(render_expr("plain } text {", &v).ok().unwrap(), "plain } text {");
    assert_eq!(render_expr("", &v).ok().unwrap(), "");
}

#[test]
fn render_unknown_filter_is_an_error() {
    let v = vars(&[("x", "y")]);
    match render_expr("{{x|shout}}", &v) {
        Err(RenderError::UnknownFilter { filter }) => assert_eq!(filter, "shout"),
        _ => panic!("expected an unknown filter"),
    }
}

#[test]
fn render_unterminated_is_an_error() {
    let v = vars(&[("x", "y")]);
    match render_expr("a {{x", &v) {
        Err(RenderError::Unterminated { expr }) => assert_eq!(expr, "a {{x"),
        _ => panic!("expected an unterminated expression"),
    }
}

#[test]
fn render_reports_undefined_variables() {
    let v = vars(&[("x", "y")]);
    match render("{{nope}}", &v) {
        Err(RenderError::UnknownVariable { key }) => assert_eq!(key, "nope"),
        _ => panic!("expected an undefined variable"),
    }
}

#[test]
fn apply_filter_passes_value_without_filter() {
    assert_eq!(apply_filter("Hello World", None).ok().unwrap(), "Hello World");
    assert_eq!(apply_filter("Hello World", Some("snake")).ok().unwrap(), "hello_world");
    assert!(apply_filter("x", Some("camel")).is_err());
}

#[test]
fn apply_tokens_longest_first() {
    let t = vars(&[("replace-me", "short"), ("replace-me-foo", "long")]);
    assert_eq!(apply_tokens("replace-me-foo and replace-me", &t), "long and short");
}

#[test]
fn apply_tokens_empty_map_is_identity() {
    let t = vars(&[]);
    assert_eq!(apply_tokens("unchanged replace-me", &t), "unchanged replace-me");
}

#[test]
fn apply_tokens_path_rewrites_directories() {
    let t = vars(&[("replace-me", "my-gauge"), ("replace_me", "my_gauge")]);
    assert_eq!(apply_tokens_path("replace-me/src/replace_me.rs", &t), "my-gauge/src/my_gauge.rs");
}

#[test]
fn validators() {
    assert!(is_kebab("my-gauge-2"));
    assert!(!is_kebab("-my-gauge"));
    assert!(!is_kebab("my-gauge-"));
    assert!(!is_kebab("My-gauge"));
    assert!(!is_kebab(""));
    assert!(is_snake("my_gauge"));
    assert!(!is_snake("_my_gauge"));
    assert!(!is_snake("my-gauge"));
    assert!(is_pascal("MyGauge2"));
    assert!(!is_pascal("myGauge"));
    assert!(!is_pascal("My_Gauge"));
    assert!(!is_pascal(""));
    assert!(is_identifier("a-b_C9"));
    assert!(!is_identifier("a b"));
    assert!(!is_identifier(""));
}

#[test]
fn validate_kinds() {
    assert!(validate("anything at all", "none").is_ok());
    assert!(validate("my-gauge", "kebab").is_ok());
    match validate("My Gauge", "kebab") {
        Err(ValidateError::NotValid { value, kind }) => {
            assert_eq!(value, "My Gauge");
            assert_eq!(kind, "kebab");
        }
        _ => panic!("expected NotValid"),
    }
    match validate("x", "camel") {
        Err(ValidateError::UnknownValidator { kind }) => assert_eq!(kind, "camel"),
        _ => panic!("expected UnknownValidator"),
    }
    assert_eq!(default_validate(), "none");
}

#[test]
fn token_map_from_project_name_and_extras() {
    let answers = vars(&[("project_name", "my-gauge")]);
    let extras = vars(&[("GAUGE_SYMBOL", "{{project_name|upper}}")]);
    let t = build_token_map(&answers, &extras).ok().unwrap();
    assert_eq!(t.len(), 4);
    assert_eq!(t.get("ReplaceMe").unwrap(), "MyGauge");
    assert_eq!(t.get("replace-me").unwrap(), "my-gauge");
    assert_eq!(t.get("replace_me").unwrap(), "my_gauge");
    assert_eq!(t.get("GAUGE_SYMBOL").unwrap(), "MY_GAUGE");
}

#[test]
fn token_map_needs_project_name() {
    let answers = vars(&[("other", "x")]);
    let extras = vars(&[]);
    assert!(matches!(build_token_map(&answers, &extras), Err(CreateError::ProjectNameMissing)));
}

#[test]
fn token_map_reports_render_errors() {
    let answers = vars(&[("project_name", "p")]);
    let extras = vars(&[("T", "{{project_name|nope}}")]);
    assert!(matches!(
        build_token_map(&answers, &extras),
        Err(CreateError::Render(RenderError::UnknownFilter { .. }))
    ));
}

#[test]
fn project_default_names() {
    let target = FsPath::parse("/home/user/My Project");
    assert_eq!(derived_project_default(&target, Some("given-name")), "given-name");
    assert_eq!(derived_project_default(&target, None), "my-project");
    let other = FsPath::parse("/work/CoolGauge");
    assert_eq!(derived_project_default(&other, None), "cool-gauge");
    let root = FsPath::parse("/");
    assert_eq!(derived_project_default(&root, None), "my-project");
}

#[test]
fn template_prefix_is_stripped() {
    let p = FsPath::parse("rust-wasm-gauge/src/lib.rs");
    assert_eq!(strip_template_prefix(&p).display(), "src/lib.rs");
    let q = FsPath::parse("Cargo.toml");
    assert_eq!(strip_template_prefix(&q).display(), "");
}

#[test]
fn template_files_are_rendered() {
    let t = vars(&[("replace-me", "my-gauge")]);
    let skipped = plan_template_file(&FsPath::parse("rust-wasm-gauge/template.toml"), Some("x"), &t);
    assert!(skipped.is_none());
    let f = plan_template_file(
        &FsPath::parse("rust-wasm-gauge/replace-me/Cargo.toml"),
        Some("name = \"replace-me\""),
        &t,
    )
    .unwrap();
    assert_eq!(f.rel_path, "my-gauge/Cargo.toml");
    assert_eq!(f.text.unwrap(), "name = \"my-gauge\"");
    let raw = plan_template_file(&FsPath::parse("t/icon.png"), None, &t).unwrap();
    assert_eq!(raw.rel_path, "icon.png");
    assert!(raw.text.is_none());
}

#[test]
fn templates_are_chosen() {
    let ts = vec![manifest("rust-wasm-gauge", "Rust gauge"), manifest("ts-react", "React")];
    assert!(matches!(choose_template(&ts, Some("ts-react"), true), Ok(TemplateChoice::Index(1))));
    match choose_template(&ts, Some("missing"), false) {
        Err(CreateError::NoSuchTemplate { id }) => assert_eq!(id, "missing"),
        _ => panic!("expected NoSuchTemplate"),
    }
    assert!(matches!(choose_template(&ts, None, true), Err(CreateError::TemplateRequired)));
    assert!(matches!(choose_template(&ts, None, false), Ok(TemplateChoice::Pick)));
    assert!(matches!(choose_template(&Vec::new(), None, false), Err(CreateError::NoTemplates)));
}

#[test]
fn templates_are_ordered_by_display() {
    let ts = vec![manifest("c", "Zeta"), manifest("a", "Alpha"), manifest("b", "Alpha")];
    assert_eq!(template_order(&ts), vec![1, 2, 0]);
}

#[test]
fn create_decisions() {
    assert!(matches!(require_target(false, true), Err(CreateError::PathRequired)));
    assert_eq!(require_target(false, false).ok(), Some(true));
    assert_eq!(require_target(true, true).ok(), Some(false));
    assert!(matches!(check_target(true, false, false), Err(CreateError::TargetNotEmpty)));
    assert!(check_target(true, false, true).is_ok());
    assert!(check_target(true, true, false).is_ok());
    assert!(check_target(false, false, false).is_ok());
    match choose_project_name(Some("my-gauge"), true) {
        Ok(NameChoice::Given(n)) => assert_eq!(n, "my-gauge"),
        _ => panic!("expected the given name"),
    }
    assert!(matches!(choose_project_name(Some("My Gauge"), true), Err(CreateError::InvalidName { .. })));
    assert!(matches!(choose_project_name(None, true), Err(CreateError::NameRequired)));
    assert!(matches!(choose_project_name(None, false), Ok(NameChoice::Ask)));
}

#[test]
fn no_input_answers_use_defaults() {
    let answers = vars(&[("project_name", "my-gauge")]);
    let spec = PromptSpec {
        key: "crate_name".into(),
        question: "Crate?".into(),
        default: Some("{{project_name|snake}}".into()),
        validate: "snake".into(),
    };
    assert_eq!(no_input_answer(&spec, &answers).ok().unwrap(), "my_gauge");
    let bad = PromptSpec {
        key: "symbol".into(),
        question: "Symbol?".into(),
        default: Some("{{project_name}}".into()),
        validate: "pascal".into(),
    };
    assert!(matches!(
        no_input_answer(&bad, &answers),
        Err(CreateError::Validate(ValidateError::NotValid { .. }))
    ));
    let none = PromptSpec {
        key: "k".into(),
        question: "?".into(),
        default: None,
        validate: "none".into(),
    };
    match no_input_answer(&none, &answers) {
        Err(CreateError::MissingDefault { key }) => assert_eq!(key, "k"),
        _ => panic!("expected MissingDefault"),
    }
}

#[test]
fn next_steps_by_template() {
    assert_eq!(
        next_steps("rust-wasm-gauge", "/p"),
        vec!["cd /p", "infinity-msfs doctor", "infinity-msfs build"]
    );
    assert_eq!(next_steps("ts-react", "/p"), vec!["cd /p", "bun install", "bun run infinity:build"]);
}

#[test]
fn cased_tokens_and_name_fallbacks() {
    let t = cased_token_map("MyGauge", "my-gauge", "my_gauge");
    assert_eq!(t.len(), 3);
    assert_eq!(t.get("ReplaceMe").map(|s| s.as_str()), Some("MyGauge"));
    assert_eq!(t.get("replace-me").map(|s| s.as_str()), Some("my-gauge"));
    assert_eq!(t.get("replace_me").map(|s| s.as_str()), Some("my_gauge"));
    assert_eq!(project_name_or_default(Some("cool-thing")), "cool-thing");
    assert_eq!(project_name_or_default(Some("")), "my-project");
    assert_eq!(project_name_or_default(Some(".")), "my-project");
    assert_eq!(project_name_or_default(None), "my-project");
}

#[test]
fn path_tokens_apply_per_component() {
    let t = vars(&[("replace-me", "my-gauge"), ("replace_me", "my_gauge")]);
    let whole = apply_tokens_path("replace-me/src/replace_me.rs", &t);
    assert_eq!(whole, "my-gauge/src/my_gauge.rs");
    let pieces: Vec<String> = "replace-me/src/replace_me.rs".split('/').map(|c| apply_tokens(c, &t)).collect();
    assert_eq!(whole, pieces.join("/"));
}
