use aaos::json::Json;
use aaos::plan::escalation::{default_escalation_signals, EscalationSignal};
use aaos::plan::role::{
    expand_capability, find_array_token, has_unresolved_template_token, indent, render_value,
    substitute_tokens, ParameterSchema, ParameterType, Role, RoleBudget, RoleCatalog,
    RoleCatalogError, RoleRetry,
};
use aaos::plan::role_files::{is_role_file, RoleFile, RoleSource};
use aaos::table::Table;

fn t(s: &str) -> Json {
    Json::Text(s.to_string())
}

fn obj(fields: Vec<(&str, Json)>) -> Json {
    Json::Object(fields.into_iter().map(|(k, v)| (k.to_string(), v)).collect())
}

fn list(items: &[&str]) -> Json {
    Json::Array(items.iter().map(|s| t(s)).collect())
}

fn role(
    name: &str,
    params: Vec<(&str, ParameterType)>,
    capabilities: &[&str],
    message_template: &str,
) -> Role {
    let mut parameters = Table::new();
    for (n, param_type) in params {
        parameters.insert(
            n.to_string(),
            ParameterSchema { param_type, required: true, description: "".into() },
        );
    }
    Role {
        name: name.into(),
        model: "deepseek-chat".into(),
        parameters,
        capabilities: capabilities.iter().map(|s| s.to_string()).collect(),
        system_prompt: "x".into(),
        message_template: message_template.into(),
        budget: RoleBudget { max_input_tokens: 1000, max_output_tokens: 500 },
        retry: RoleRetry { max_attempts: 1, on: vec![] },
        priority: 128,
        model_ladder: vec![],
        escalate_on: default_escalation_signals(),
        scaffold: None,
    }
}

fn fetcher_role() -> Role {
    role(
        "fetcher",
        vec![("url", ParameterType::String), ("workspace", ParameterType::Path)],
        &["tool: web_fetch"],
        "fetch {url} to {workspace}",
    )
}

fn writer_role_with_inputs_splat() -> Role {
    role(
        "writer",
        vec![
            ("inputs", ParameterType::StringList),
            ("output", ParameterType::Path),
            ("title", ParameterType::String),
        ],
        &["tool: file_read", "tool: file_write", "file_read: {inputs.*}", "file_write: {output}"],
        "write {title} to {output} from {inputs}",
    )
}

// How many capabilities a rendered manifest grants, and which.
fn granted(yaml: &str) -> Vec<String> {
    yaml.lines()
        .filter(|l| l.trim_start().starts_with("- "))
        .map(|l| l.trim_start()[2..].trim_matches('"').to_string())
        .collect()
}

fn drifted_role() -> Role {
    let mut drifted = fetcher_role();
    drifted.name = "drifted".into();
    drifted.model_ladder = vec!["other".into()];
    drifted
}

// A directory of files, each with its name and what it is read as.
fn load(files: Vec<(&str, RoleSource)>) -> Result<RoleCatalog, RoleCatalogError> {
    RoleCatalog::load_from_dir(
        files
            .into_iter()
            .filter(|(name, _)| is_role_file(name))
            .map(|(name, source)| RoleFile { path: format!("/roles/{name}"), source })
            .collect(),
    )
}

#[test]
fn load_single_role_yaml() {
    let mut read = fetcher_role();
    read.budget = RoleBudget { max_input_tokens: 20000, max_output_tokens: 2000 };
    read.retry = RoleRetry { max_attempts: 2, on: vec!["timeout".into()] };
    let cat = load(vec![("fetcher.yaml", RoleSource::Parsed(read))]).unwrap();
    assert_eq!(cat.len(), 1);
    let role = cat.get("fetcher").unwrap();
    assert_eq!(role.name, "fetcher");
    assert_eq!(role.model, "deepseek-chat");
    assert_eq!(role.parameters.len(), 2);
    assert!(role.parameters.get("url").unwrap().required);
    assert_eq!(role.parameters.get("url").unwrap().param_type, ParameterType::String);
    assert_eq!(role.parameters.get("workspace").unwrap().param_type, ParameterType::Path);
    assert_eq!(role.capabilities.len(), 1);
    assert_eq!(role.budget.max_input_tokens, 20000);
    assert_eq!(role.retry.max_attempts, 2);
}

#[test]
fn skip_non_yaml_files() {
    let cat = load(vec![
        ("fetcher.yaml", RoleSource::Parsed(fetcher_role())),
        ("README.md", RoleSource::Malformed("# notes".into())),
        (".hidden", RoleSource::Malformed("ignored".into())),
    ])
    .unwrap();
    assert_eq!(cat.len(), 1);
    assert!(cat.get("fetcher").is_some());
    for (name, expected) in
        [("a.yaml", true), ("..yaml", true), (".yaml", false), ("yaml", false), ("a.yml", false)]
    {
        assert_eq!(is_role_file(name), expected, "{name}");
        let extension = std::path::Path::new(name).extension().and_then(|s| s.to_str());
        assert_eq!(extension == Some("yaml"), expected, "{name}");
    }
}

#[test]
fn malformed_yaml_errors_with_path() {
    let e = load(vec![
        ("fetcher.yaml", RoleSource::Parsed(fetcher_role())),
        ("bad.yaml", RoleSource::Malformed("mapping values are not allowed".into())),
    ])
    .unwrap_err();
    assert_eq!(
        e.message(),
        "role parse error: parse /roles/bad.yaml: mapping values are not allowed"
    );
}

#[test]
fn files_that_cannot_be_read_are_told() {
    let e = load(vec![("a.yaml", RoleSource::Unreadable("denied".into()))]).unwrap_err();
    assert_eq!(e.message(), "role catalog I/O: read /roles/a.yaml: denied");
    let e = load(vec![("a.yaml", RoleSource::Unlisted("gone".into()))]).unwrap_err();
    assert_eq!(e.message(), "role catalog I/O: dir entry error: gone");
    // The first fault is told.
    let e = load(vec![
        ("a.yaml", RoleSource::Malformed("first".into())),
        ("b.yaml", RoleSource::Unreadable("second".into())),
    ])
    .unwrap_err();
    assert!(e.message().ends_with("first"));
}

#[test]
fn every_fault_of_a_role_names_its_file() {
    let mut nameless = fetcher_role();
    nameless.name = String::new();
    let mut drifted = fetcher_role();
    drifted.model_ladder = vec!["other".into()];
    for bad in [nameless, drifted, fetcher_role()] {
        let mut other = fetcher_role();
        other.name = if bad.name.is_empty() || !bad.model_ladder.is_empty() {
            "good".into()
        } else {
            bad.name.clone()
        };
        let e = load(vec![
            ("good.yaml", RoleSource::Parsed(other)),
            ("bad.yaml", RoleSource::Parsed(bad)),
        ])
        .unwrap_err();
        assert!(e.message().contains("/roles/bad.yaml"), "{}", e.message());
        assert!(matches!(e, RoleCatalogError::Parse(_)));
    }
}

#[test]
fn duplicate_role_name_errors() {
    let mut cat = RoleCatalog::new();
    assert!(cat.take_in(fetcher_role(), "fetcher.yaml").is_ok());
    let err = cat.take_in(fetcher_role(), "dup.yaml").unwrap_err();
    assert!(matches!(err, RoleCatalogError::Parse(_)));
    assert!(err.message().contains("fetcher"));
    assert_eq!(cat.len(), 1);
}

#[test]
fn names_returned_sorted() {
    let mut cat = RoleCatalog::new();
    assert!(cat.is_empty());
    assert!(cat.take_in(fetcher_role(), "fetcher.yaml").is_ok());
    let mut alt = fetcher_role();
    alt.name = "analyzer".into();
    assert!(cat.take_in(alt, "analyzer.yaml").is_ok());
    assert_eq!(cat.names(), vec!["analyzer", "fetcher"]);
}

#[test]
fn ladders_of_all_roles_are_checked() {
    let err = load(vec![
        ("drifted.yaml", RoleSource::Parsed(drifted_role())),
        ("fetcher.yaml", RoleSource::Parsed(fetcher_role())),
    ])
    .unwrap_err();
    assert!(matches!(err, RoleCatalogError::Parse(_)));
    assert!(err
        .message()
        .starts_with("role parse error: parse /roles/drifted.yaml: role 'drifted': "));
}

#[test]
fn ladders_are_looked_at_last() {
    let e = load(vec![
        ("drifted.yaml", RoleSource::Parsed(drifted_role())),
        ("bad.yaml", RoleSource::Malformed("no mapping".into())),
    ])
    .unwrap_err();
    assert_eq!(e.message(), "role parse error: parse /roles/bad.yaml: no mapping");
    let e = load(vec![
        ("drifted.yaml", RoleSource::Parsed(drifted_role())),
        ("locked.yaml", RoleSource::Unreadable("denied".into())),
    ])
    .unwrap_err();
    assert_eq!(e.message(), "role catalog I/O: read /roles/locked.yaml: denied");
    let e = load(vec![
        ("drifted.yaml", RoleSource::Parsed(drifted_role())),
        ("a.yaml", RoleSource::Parsed(fetcher_role())),
        ("b.yaml", RoleSource::Parsed(fetcher_role())),
    ])
    .unwrap_err();
    assert_eq!(
        e.message(),
        "role parse error: duplicate role name 'fetcher' at /roles/b.yaml"
    );
}

#[test]
fn validate_accepts_correct_params() {
    let r = fetcher_role();
    let params = obj(vec![("url", t("https://x.com")), ("workspace", t("/tmp/x.html"))]);
    assert!(r.validate_params(&params).is_ok());
}

#[test]
fn validate_rejects_missing_required() {
    let r = fetcher_role();
    let params = obj(vec![("url", t("https://x.com"))]);
    let err = r.validate_params(&params).unwrap_err();
    assert!(err.contains("workspace"), "err was: {}", err);
    assert!(err.contains("missing"), "err was: {}", err);
}

#[test]
fn validate_rejects_wrong_type() {
    let r = fetcher_role();
    let params = obj(vec![("url", Json::Unsigned(42)), ("workspace", t("/tmp/x.html"))]);
    let err = r.validate_params(&params).unwrap_err();
    assert!(err.contains("url"), "err was: {}", err);
    assert!(err.contains("string"), "err was: {}", err);
}

#[test]
fn validate_rejects_unknown_param() {
    let r = fetcher_role();
    let params = obj(vec![
        ("url", t("https://x.com")),
        ("workspace", t("/tmp/x.html")),
        ("bogus", t("nope")),
    ]);
    let err = r.validate_params(&params).unwrap_err();
    assert!(err.contains("bogus"), "err was: {}", err);
    assert!(err.contains("unknown"), "err was: {}", err);
}

#[test]
fn validate_string_list_requires_array_of_strings() {
    let r = role("writer", vec![("inputs", ParameterType::StringList)], &[], "x");
    assert!(r.validate_params(&obj(vec![("inputs", list(&["/a", "/b"]))])).is_ok());
    assert!(r.validate_params(&obj(vec![("inputs", t("single"))])).is_err());
    let numbers = Json::Array(vec![Json::Unsigned(1), Json::Unsigned(2)]);
    assert!(r.validate_params(&obj(vec![("inputs", numbers)])).is_err());
}

#[test]
fn render_message_substitutes_string_params() {
    let r = fetcher_role();
    let params = obj(vec![("url", t("https://x.com")), ("workspace", t("/tmp/x.html"))]);
    let m = r.render_message(&params);
    assert!(m.contains("https://x.com"));
    assert!(m.contains("/tmp/x.html"));
}

#[test]
fn render_message_formats_string_list_as_comma_sep() {
    let r = role(
        "writer",
        vec![
            ("inputs", ParameterType::StringList),
            ("output", ParameterType::Path),
            ("title", ParameterType::String),
        ],
        &[],
        "title={title} out={output} inputs={inputs}",
    );
    let params = obj(vec![
        ("inputs", list(&["/a.html", "/b.html"])),
        ("output", t("/out.md")),
        ("title", t("Report")),
    ]);
    let m = r.render_message(&params);
    assert!(m.contains("title=Report"));
    assert!(m.contains("out=/out.md"));
    assert!(m.contains("/a.html, /b.html"), "got: {}", m);
}

#[test]
fn render_manifest_produces_parseable_agent_manifest() {
    let mut r = fetcher_role();
    r.capabilities = vec!["tool: web_fetch".into(), "file_write: {workspace}".into()];
    r.system_prompt = "fetcher prompt".into();
    let params = obj(vec![("url", t("https://x.com")), ("workspace", t("/tmp/x.html"))]);
    let yaml = r.render_manifest(&params);
    let manifest: serde_yaml::Value = serde_yaml::from_str(&yaml).unwrap();
    assert_eq!(manifest.get("name").unwrap().as_str(), Some("fetcher"));
    assert_eq!(manifest.get("capabilities").unwrap().as_sequence().unwrap().len(), 2);
    // Ensure that {workspace} was substituted correctly
    assert!(yaml.contains("/tmp/x.html"));
    assert!(!yaml.contains("{workspace}"), "yaml: {}", yaml);
}

#[test]
fn render_manifest_expands_inputs_splat_to_one_cap_per_file() {
    let r = writer_role_with_inputs_splat();
    let params = obj(vec![
        ("inputs", list(&["/a.html", "/b.html"])),
        ("output", t("/out.md")),
        ("title", t("Report")),
    ]);
    let yaml = r.render_manifest(&params);
    let caps = granted(&yaml);
    assert_eq!(caps.len(), 5, "caps: {:?}", caps);
    assert!(caps.iter().any(|c| c == "file_read: /a.html"));
    assert!(caps.iter().any(|c| c == "file_read: /b.html"));
    assert!(caps.iter().any(|c| c == "file_write: /out.md"));
    // No stray placeholder survived.
    assert!(!yaml.contains("{inputs.*}"), "yaml: {}", yaml);
    assert!(!yaml.contains("{inputs}"), "yaml: {}", yaml);
}

#[test]
fn render_manifest_expands_single_element_array() {
    let r = writer_role_with_inputs_splat();
    let params = obj(vec![
        ("inputs", list(&["/only.html"])),
        ("output", t("/out.md")),
        ("title", t("t")),
    ]);
    let caps = granted(&r.render_manifest(&params));
    assert_eq!(caps.len(), 4);
    assert!(caps.iter().any(|c| c == "file_read: /only.html"));
}

#[test]
fn render_manifest_empty_inputs_drops_splat_caps() {
    let r = writer_role_with_inputs_splat();
    let params =
        obj(vec![("inputs", list(&[])), ("output", t("/out.md")), ("title", t("t"))]);
    let yaml = r.render_manifest(&params);
    let caps = granted(&yaml);
    assert_eq!(caps.len(), 3);
    assert!(!yaml.contains("{inputs.*}"));
    assert!(!caps.iter().any(|c| c.starts_with("file_read: /")));
}

#[test]
fn find_array_token_finds_first_splat() {
    let got = find_array_token("file_read: {inputs.*}");
    assert!(got.is_some());
    let (start, end, name) = got.unwrap();
    assert_eq!(&"file_read: {inputs.*}"[start..end], "{inputs.*}");
    assert_eq!(name, "inputs");
}

#[test]
fn find_array_token_skips_regular_placeholder() {
    let got = find_array_token("file_write: {output}");
    assert!(got.is_none(), "must not match non-splat token");
}

#[test]
fn find_array_token_finds_splat_after_regular_token() {
    // `{output}` comes first, `{inputs.*}` second. The splat finder
    // must walk past the regular placeholder to find the real one.
    let got = find_array_token("write {output} but read {inputs.*}");
    assert!(got.is_some());
    let (_, _, name) = got.unwrap();
    assert_eq!(name, "inputs");
}

#[test]
fn find_array_token_counts_bytes() {
    let s = "lies ä: {inputs.*}";
    let (start, end, _) = find_array_token(s).unwrap();
    assert_eq!(&s[start..end], "{inputs.*}");
}

#[test]
fn resolved_ladder_missing_field_returns_single_element() {
    let r = fetcher_role();
    assert_eq!(r.resolved_ladder().unwrap(), vec!["deepseek-chat".to_string()]);
}

#[test]
fn resolved_ladder_explicit_two_tier() {
    let mut r = fetcher_role();
    r.model_ladder = vec!["deepseek-chat".into(), "deepseek-reasoner".into()];
    assert_eq!(
        r.resolved_ladder().unwrap(),
        vec!["deepseek-chat".to_string(), "deepseek-reasoner".to_string()]
    );
}

#[test]
fn resolved_ladder_rejects_drift_between_model_and_first_tier() {
    let mut r = fetcher_role();
    r.model_ladder = vec!["deepseek-reasoner".into(), "another-model".into()];
    let err = r.resolved_ladder().unwrap_err();
    assert!(
        err.contains("deepseek-chat") && err.contains("deepseek-reasoner"),
        "error must name both drifted values; got: {err}"
    );
}

#[test]
fn escalate_on_defaults_to_all_three_signals() {
    let r = fetcher_role();
    assert!(r.escalate_on.contains(&EscalationSignal::ReplanRetry));
    assert!(r.escalate_on.contains(&EscalationSignal::ToolRepeatGuard));
    assert!(r.escalate_on.contains(&EscalationSignal::MaxTokens));
}

#[test]
fn expand_capability_drops_unresolved_template() {
    // workspace param is missing from params: the capability
    // `file_write: {workspace}` should drop, not emit a literal.
    let params = obj(vec![("task_description", t("some goal"))]);
    let caps = expand_capability("file_write: {workspace}", &params);
    assert!(caps.is_empty(), "unresolved {{workspace}} must drop: {caps:?}");
}

#[test]
fn expand_capability_keeps_resolved_template() {
    let params = obj(vec![("workspace", t("/tmp/run-x/out.md"))]);
    let caps = expand_capability("file_write: {workspace}", &params);
    assert_eq!(caps, vec!["file_write: /tmp/run-x/out.md"]);
}

#[test]
fn expand_capability_keeps_no_template_literal() {
    let caps = expand_capability("tool: web_fetch", &obj(vec![]));
    assert_eq!(caps, vec!["tool: web_fetch"]);
}

#[test]
fn expand_capability_passes_over_what_is_no_text() {
    let items = Json::Array(vec![t("/a"), Json::Unsigned(1), t("/{x}"), t("/b")]);
    let caps = expand_capability("file_read: {in.*}", &obj(vec![("in", items)]));
    assert_eq!(caps, vec!["file_read: /a", "file_read: /b"]);
    assert!(expand_capability("file_read: {in.*}", &obj(vec![("in", t("/a"))])).is_empty());
}

#[test]
fn render_manifest_omits_caps_with_missing_params() {
    let mut r = role("generalist", vec![], &["tool: file_write", "file_write: {workspace}"], "y");
    r.escalate_on = vec![];
    let yaml = r.render_manifest(&obj(vec![]));
    assert!(!yaml.contains("{workspace}"), "must not carry literal {{workspace}}: {yaml}");
    assert!(yaml.contains("tool: file_write"), "other capabilities must still render: {yaml}");
}

#[test]
fn has_unresolved_template_token_cases() {
    assert!(has_unresolved_template_token("file_write: {workspace}"));
    assert!(has_unresolved_template_token("/some/{placeholder}/path.md"));
    assert!(!has_unresolved_template_token("/resolved/path.md"));
    assert!(!has_unresolved_template_token("tool: web_fetch"));
    // Empty braces aren't a real template token; don't drop for them.
    assert!(!has_unresolved_template_token("literal {} braces"));
    assert!(has_unresolved_template_token("{} {workspace}"));
    assert!(has_unresolved_template_token("{{workspace}"));
}

#[test]
fn values_are_rendered_as_text() {
    assert_eq!(render_value(&t("x")), "x");
    assert_eq!(render_value(&Json::Null), "");
    assert_eq!(render_value(&Json::Bool(true)), "true");
    assert_eq!(render_value(&Json::Unsigned(1200)), "1200");
    assert_eq!(render_value(&list(&["a", "b"])), "a, b");
    assert_eq!(render_value(&obj(vec![("k", Json::Unsigned(1))])), "{\"k\":1}");
    assert_eq!(substitute_tokens("{a}-{b}", &obj(vec![("a", t("1"))])), "1-{b}");
    assert_eq!(indent("a\nb\n", "  "), "  a\n  b");
}
