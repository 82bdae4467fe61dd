use giftwrap::config::{
    apply_env_overrides, config_candidates, handle_env_opt, load_from, parse_config, EnvOpt,
};
use giftwrap::params::Params;

fn env(pairs: &[(&str, &str)]) -> Vec<(String, String)> {
    pairs.iter().map(|(k, v)| (k.to_string(), v.to_string())).collect()
}

fn strings(words: &[&str]) -> Vec<String> {
    words.iter().map(|w| w.to_string()).collect()
}

#[test]
fn parse_config_skips_comments_and_parses_values() {
    let params = parse_config(
        r#"
# comment
gw_container test
extra_args "one two" three
empty_key
"#,
    )
    .unwrap();

    assert_eq!(params.get("gw_container").unwrap(), &vec!["test".to_string()]);
    assert_eq!(params.get("extra_args").unwrap(), &vec!["one two".to_string(), "three".to_string()]);
    assert_eq!(params.get("empty_key").unwrap(), &Vec::<String>::new());
}

#[test]
fn parse_config_reports_line_number_on_error() {
    let err = parse_config("gw_container test\nbad \"unterminated\n").unwrap_err();

    assert!(err.to_string().starts_with("Error: failed to parse config line 2:"));
}

#[test]
fn apply_env_overrides_set_add_and_del() {
    let vars = env(&[
        ("GW_USER_OPT_SET_suite5_param_x1c9", "new1 new2"),
        ("GW_USER_OPT_ADD_suite5_list_x1c9", "b2 'b three'"),
        ("GW_USER_OPT_DEL_suite5_remove_x1c9", "ignored"),
    ]);

    let mut params = Params::new();
    params.insert("suite5_param_x1c9".to_string(), vec!["old".to_string()]);
    params.insert("suite5_list_x1c9".to_string(), vec!["a".to_string()]);
    params.insert("suite5_remove_x1c9".to_string(), vec!["keep".to_string()]);

    apply_env_overrides(&mut params, None, &vars).unwrap();

    assert_eq!(
        params.get("suite5_param_x1c9").unwrap(),
        &vec!["new1".to_string(), "new2".to_string()]
    );
    assert_eq!(
        params.get("suite5_list_x1c9").unwrap(),
        &vec!["a".to_string(), "b2".to_string(), "b three".to_string()]
    );
    assert!(params.get("suite5_remove_x1c9").is_none());
}

#[test]
fn apply_env_overrides_respects_uuid_scoping() {
    let vars = env(&[
        ("GW_USER_OPT_SET_UUID_abc123_scoped_x1c9", "scoped"),
        ("GW_USER_OPT_SET_UUID_other_scoped_x1c9", "ignored"),
        ("GW_USER_OPT_SET_UUID_abc123_other_x1c9", "other"),
    ]);

    let mut params = Params::new();
    params.insert("scoped_x1c9".to_string(), vec!["base".to_string()]);

    apply_env_overrides(&mut params, Some("abc123"), &vars).unwrap();

    assert_eq!(params.get("scoped_x1c9").unwrap(), &vec!["scoped".to_string()]);
    assert_eq!(params.get("other_x1c9").unwrap(), &vec!["other".to_string()]);
}

#[test]
fn apply_env_overrides_ignores_uuid_scoped_without_uuid() {
    let vars = env(&[("GW_USER_OPT_SET_UUID_abc123_scoped_x1c9", "scoped")]);

    let mut params = Params::new();
    params.insert("scoped_x1c9".to_string(), vec!["base".to_string()]);

    apply_env_overrides(&mut params, None, &vars).unwrap();

    assert_eq!(params.get("scoped_x1c9").unwrap(), &vec!["base".to_string()]);
}

#[test]
fn apply_env_overrides_reports_bad_shell_words() {
    let vars = env(&[("GW_USER_OPT_SET_suite5_bad_x1c9", "\"unterminated")]);

    let mut params = Params::new();
    let err = apply_env_overrides(&mut params, None, &vars).unwrap_err();

    assert!(err
        .to_string()
        .starts_with("Error: failed to parse env override GW_USER_OPT_SET_suite5_bad_x1c9:"));
}

#[test]
fn load_from_applies_uuid_overrides_after_dash_stripping() {
    let vars = env(&[("GW_USER_OPT_ADD_UUID_12345678_extra_args", "more")]);

    let config = load_from(
        "/project",
        "/project/.giftwrap",
        "gw_container test\nuuid 1234-5678\nextra_args base\n",
        &vars,
    )
    .unwrap();

    assert_eq!(config.uuid.as_deref(), Some("12345678"));
    assert_eq!(
        config.params.get("extra_args").unwrap(),
        &vec!["base".to_string(), "more".to_string()]
    );
}

#[test]
fn load_from_errors_without_gw_container() {
    let err = load_from("/project", "/project/giftwrap", "extra_args base\n", &Vec::new()).unwrap_err();

    assert_eq!(
        err.to_string(),
        format!("Error: gw_container must be specified in {}", "/project/giftwrap")
    );
}

#[test]
fn load_from_errors_on_prefix_conflict() {
    let err = load_from(
        "/project",
        "/project/giftwrap",
        "gw_container test\nprefix_cmd echo\nprefix_cmd_quiet echo\n",
        &Vec::new(),
    )
    .unwrap_err();

    assert_eq!(err.to_string(), "Error: must specify at most one of prefix_cmd and prefix_cmd_quiet");
}

#[test]
fn load_from_keeps_root_and_path() {
    let config = load_from("/project", "/project/.giftwrap", "gw_container app\n", &Vec::new()).unwrap();
    assert_eq!(config.root_dir, "/project");
    assert_eq!(config.config_path, "/project/.giftwrap");
    assert!(config.uuid.is_none());
    assert_eq!(config.params.get("gw_container").unwrap(), &strings(&["app"]));
}

#[test]
fn load_from_accepts_image_given_by_override() {
    let vars = env(&[("GW_USER_OPT_SET_gw_container", "fromenv")]);
    let config = load_from("/p", "/p/giftwrap", "extra_args x\n", &vars).unwrap();
    assert_eq!(config.params.get("gw_container").unwrap(), &strings(&["fromenv"]));
    let vars = env(&[("GW_USER_OPT_DEL_gw_container", "")]);
    let err = load_from("/p", "/p/giftwrap", "gw_container app\n", &vars).unwrap_err();
    assert_eq!(err.to_string(), "Error: gw_container must be specified in /p/giftwrap");
}

#[test]
fn parse_config_error_is_exact_and_first() {
    let err = parse_config("a 'x\nb \"y\n").unwrap_err();
    assert_eq!(err.to_string(), "Error: failed to parse config line 1: missing closing quote");
    let err = parse_config("\n\n# c\n   k 'v\n").unwrap_err();
    assert_eq!(err.to_string(), "Error: failed to parse config line 4: missing closing quote");
}

#[test]
fn parse_config_later_line_replaces_earlier() {
    let params = parse_config("k a b\nk c\r\n  other   v  \n").unwrap();
    assert_eq!(params.get("k").unwrap(), &strings(&["c"]));
    assert_eq!(params.get("other").unwrap(), &strings(&["v"]));
    assert!(params.get("missing").is_none());
    assert!(params.contains_key("k"));
}

#[test]
fn handle_env_opt_reads_operation_and_scope() {
    assert_eq!(handle_env_opt("GW_USER_OPT_SET_key", None), Some((EnvOpt::Replace, "key".to_string())));
    assert_eq!(handle_env_opt("GW_USER_OPT_ADD_key", None), Some((EnvOpt::Append, "key".to_string())));
    assert_eq!(handle_env_opt("GW_USER_OPT_DEL_key", Some("u")), Some((EnvOpt::Delete, "key".to_string())));
    assert_eq!(handle_env_opt("GW_USER_OPT_SET_UUID_u_key", Some("u")), Some((EnvOpt::Replace, "key".to_string())));
    assert_eq!(handle_env_opt("GW_USER_OPT_SET_UUID_u_key", Some("v")), None);
    assert_eq!(handle_env_opt("GW_USER_OPT_SET_UUID_u_key", None), None);
    assert_eq!(handle_env_opt("GW_USER_OPT_SET_UUID_ukey", Some("u")), None);
    assert_eq!(handle_env_opt("GW_USER_OPT_XXX_key", None), None);
    assert_eq!(handle_env_opt("PATH", None), None);
    assert_eq!(handle_env_opt("GW_USER_OPT_SET_", None), Some((EnvOpt::Replace, String::new())));
}

#[test]
fn env_override_error_is_exact() {
    let mut params = Params::new();
    let err = apply_env_overrides(&mut params, None, &env(&[("GW_USER_OPT_ADD_k", "'")])).unwrap_err();
    assert_eq!(err.to_string(), "Error: failed to parse env override GW_USER_OPT_ADD_k: missing closing quote");
    // the value of a removal is never read
    apply_env_overrides(&mut params, None, &env(&[("GW_USER_OPT_DEL_k", "'")])).unwrap();
}

#[test]
fn refused_override_leaves_what_the_earlier_ones_made() {
    let mut params = Params::new();
    params.insert("k".to_string(), strings(&["old"]));
    let vars = env(&[
        ("GW_USER_OPT_SET_k", "new"),
        ("GW_USER_OPT_ADD_l", "x y"),
        ("GW_USER_OPT_SET_bad", "'open"),
        ("GW_USER_OPT_SET_k", "never"),
    ]);
    let err = apply_env_overrides(&mut params, None, &vars).unwrap_err();
    assert_eq!(err.to_string(), "Error: failed to parse env override GW_USER_OPT_SET_bad: missing closing quote");
    assert_eq!(params.get("k").unwrap(), &strings(&["new"]));
    assert_eq!(params.get("l").unwrap(), &strings(&["x", "y"]));
    assert!(!params.contains_key("bad"));
}

#[test]
fn config_candidates_prefer_the_dotted_name() {
    assert_eq!(config_candidates("/a/b"), strings(&["/a/b/.giftwrap", "/a/b/giftwrap"]));
}

#[test]
fn params_insert_replaces_and_extend_appends() {
    let mut params = Params::new();
    params.insert("k".to_string(), strings(&["a"]));
    params.insert("k".to_string(), strings(&["b"]));
    params.extend("k".to_string(), strings(&["c"]));
    params.extend("n".to_string(), strings(&["d"]));
    assert_eq!(params.get("k").unwrap(), &strings(&["b", "c"]));
    assert_eq!(params.get("n").unwrap(), &strings(&["d"]));
    assert_eq!(params.first("k").unwrap(), "b");
    assert_eq!(params.entries().len(), 2);
    params.remove("k");
    assert!(!params.contains_key("k"));
    assert_eq!(params.entries().len(), 1);
}
