use giftwrap::cli::{CliAction, CliOptions};
use giftwrap::internal::{Mount, TerminfoSpec};
use giftwrap::launch::{
    agent_hint, assemble_mounts, build_container_spec, build_home, build_internal_spec,
    context_to_print, expand_share, expand_shares, find_musl_binary_in_target, git_dir_mount,
    hook_command, hook_result, host_env_overrides, load_terminfo, merge_extra_args, mkhostname,
    other_musl_target, parse_share, persist_candidate, plan_workdir, preferred_target, prelude,
    rebuild_plan, resolve_ctx_sha, resolve_giftwrap_mount, resolve_username, select_image,
    terminal_to_describe, AgentSearch, Prelude,
};
use giftwrap::params::{EnvMap, Params};
use giftwrap::paths::{abs_path, path_to_slash, resolve_path, starts_with_path};

fn params_with_image(image: &str) -> Params {
    let mut params = Params::new();
    params.insert("gw_container".to_string(), vec![image.to_string()]);
    params
}

fn env(pairs: &[(&str, &str)]) -> EnvMap {
    let list: Vec<(String, String)> = pairs.iter().map(|(k, v)| (k.to_string(), v.to_string())).collect();
    EnvMap::from_pairs(&list)
}

fn strings(words: &[&str]) -> Vec<String> {
    words.iter().map(|w| w.to_string()).collect()
}

#[test]
fn mkhostname_sanitizes_and_truncates() {
    let hostname = mkhostname("registry.local/org/my_app:latest");
    assert_eq!(hostname, "my-app-latest");

    let long = format!("repo/{}", "a".repeat(80));
    let hostname = mkhostname(&long);
    assert_eq!(hostname, "a".repeat(63));
}

#[test]
fn expand_share_resolves_env_and_literals() {
    let set = env(&[("GW_TEST_SHARE", "/tmp/share")]);
    assert_eq!(expand_share("$GW_TEST_SHARE", &set).as_deref(), Some("/tmp/share"));

    let unset = env(&[]);
    assert!(expand_share("$GW_TEST_SHARE", &unset).is_none());
    assert_eq!(expand_share("literal", &unset).as_deref(), Some("literal"));
}

#[test]
fn select_image_defaults_to_container_value() {
    let params = params_with_image("registry.local/app");
    let image = select_image(&params, None, None).expect("select image");
    assert_eq!(image, "registry.local/app");
}

#[test]
fn select_image_appends_context_sha() {
    let params = params_with_image("registry.local/app");
    let image = select_image(&params, Some("deadbeef"), None).expect("select image");
    assert_eq!(image, "registry.local/app:deadbeef");
}

#[test]
fn select_image_override_wins_over_context() {
    let params = params_with_image("registry.local/app");
    let image =
        select_image(&params, Some("deadbeef"), Some("override/app:tag")).expect("select image");
    assert_eq!(image, "override/app:tag");
}

#[test]
fn select_image_errors_without_gw_container() {
    let params = Params::new();
    let err = select_image(&params, None, None).expect_err("missing gw_container");
    assert_eq!(err, "Error: gw_container must be specified");
}

#[test]
fn rebuild_plan_returns_image_when_enabled() {
    let image = "registry/app:tag";
    assert_eq!(rebuild_plan(false, image), None);
    assert_eq!(rebuild_plan(true, image), Some(image.to_string()));
}

#[test]
fn parse_share_defaults_target_to_source() {
    let root = "/tmp/gw-root";
    let mount = parse_share("src", root).expect("parse_share failed");
    let expected = "/tmp/gw-root/src";
    assert_eq!(mount.source, expected);
    assert_eq!(mount.target, expected);
    assert!(!mount.read_only);
    assert!(mount.options.is_empty());
}

#[test]
fn parse_share_parses_target_and_options() {
    let root = "/tmp/gw-root";
    let mount = parse_share("src:/dest:ro,z", root).expect("parse_share failed");
    assert_eq!(mount.source, "/tmp/gw-root/src");
    assert_eq!(mount.target, "/dest");
    assert_eq!(mount.options, vec!["ro".to_string(), "z".to_string()]);
}

#[test]
fn abs_and_resolve_path_keep_absolute_or_join_root() {
    let root = "/tmp/gw-root";
    assert_eq!(abs_path("rel", root), "/tmp/gw-root/rel");
    assert_eq!(resolve_path("rel", root), "/tmp/gw-root/rel");
    assert_eq!(abs_path("/abs", root), "/abs");
}

#[test]
fn internal_spec_sets_user_uid_gid_and_home() {
    let environment = env(&[("USER", "gw-user")]);
    let user_name = resolve_username(42, &environment, &None);

    let spec = build_internal_spec(
        "/tmp/gw-root",
        "/tmp/gw-root/work".to_string(),
        vec!["true".to_string()],
        EnvMap::new(),
        &Params::new(),
        None,
        None,
        42,
        1000,
        user_name,
        None,
    );

    assert_eq!(spec.user.name, "gw-user");
    assert_eq!(spec.user.uid, 42);
    assert_eq!(spec.user.gid, 1000);
    assert_eq!(spec.user.home, "/tmp/dr-tmp-home-gw-user/gw-user");
}

#[test]
fn internal_spec_carries_everything_over() {
    let mut params = Params::new();
    params.insert("persist_environment".to_string(), strings(&["persist.env"]));
    params.insert("prefix_cmd".to_string(), strings(&["/usr/bin/env", "FOO=bar"]));
    let mut overrides = EnvMap::new();
    overrides.insert("GW_EXTRA".to_string(), "1".to_string());
    let terminfo = TerminfoSpec { term: "xterm-256color".to_string(), data: vec![1, 2, 3] };
    let persist = persist_candidate(&params, "/root-dir");
    assert_eq!(persist.as_deref(), Some("/root-dir/persist.env"));
    let spec = build_internal_spec(
        "/root-dir",
        "/root-dir/work".to_string(),
        strings(&["echo", "hi"]),
        overrides,
        &params,
        Some(terminfo.clone()),
        Some("/root-dir/extra.sh".to_string()),
        123,
        456,
        "gw-test".to_string(),
        persist,
    );
    assert_eq!(spec.protocol_version, 1);
    assert_eq!(spec.workdir, "/root-dir/work");
    assert_eq!(spec.root_dir, "/root-dir");
    assert_eq!(spec.command, strings(&["echo", "hi"]));
    assert_eq!(spec.env_overrides.get("GW_EXTRA").map(|v| v.as_str()), Some("1"));
    let persist = spec.persist_env.expect("persist env");
    assert_eq!(persist.path, "/root-dir/persist.env");
    assert!(persist.restore && persist.save);
    assert_eq!(spec.terminfo, Some(terminfo));
    assert!(spec.shell.is_none());
    assert_eq!(spec.extra_shell.as_deref(), Some("/root-dir/extra.sh"));
    assert_eq!(spec.prefix_cmd, strings(&["/usr/bin/env", "FOO=bar"]));
    assert!(spec.prefix_cmd_quiet.is_empty());
}

#[test]
fn username_falls_back_in_order() {
    assert_eq!(resolve_username(7, &env(&[("USER", "u"), ("LOGNAME", "l")]), &Some("a".to_string())), "u");
    assert_eq!(resolve_username(7, &env(&[("USER", ""), ("LOGNAME", "l")]), &Some("a".to_string())), "l");
    assert_eq!(resolve_username(7, &env(&[("LOGNAME", "")]), &Some("a".to_string())), "a");
    assert_eq!(resolve_username(7, &env(&[]), &Some(String::new())), "7");
    assert_eq!(resolve_username(4294967295, &env(&[]), &None), "4294967295");
    assert_eq!(resolve_username(0, &env(&[]), &None), "0");
    assert_eq!(build_home("x"), "/tmp/dr-tmp-home-x/x");
}

#[test]
fn hostname_keeps_letters_digits_and_dashes() {
    assert_eq!(mkhostname("app"), "app");
    assert_eq!(mkhostname("a/b/"), "");
    assert_eq!(mkhostname("A-z_0.9:é"), "A-z-0-9--");
    assert_eq!(mkhostname(&"b".repeat(63)), "b".repeat(63));
    assert_eq!(mkhostname(&"b".repeat(64)), "b".repeat(63));
}

#[test]
fn share_with_empty_options_and_absolute_source() {
    let mount = parse_share("/abs:/t:,ro,,z,", "/root").expect("parse_share failed");
    assert_eq!(mount.source, "/abs");
    assert_eq!(mount.target, "/t");
    assert_eq!(mount.options, strings(&["ro", "z"]));
    let mount = parse_share("a:b:c:d", "/root/").expect("parse_share failed");
    assert_eq!(mount.source, "/root/a");
    assert_eq!(mount.target, "b");
    assert_eq!(mount.options, strings(&["c"]));
    let mount = parse_share("", "/root").expect("parse_share failed");
    assert_eq!(mount.source, "/root/");
    assert_eq!(mount.target, "/root/");
}

#[test]
fn configured_shares_are_expanded_in_order() {
    let mut params = Params::new();
    params.insert("extra_shares".to_string(), strings(&["a", "$MISSING", "$SET", "b:c"]));
    let shares = expand_shares(&params, &env(&[("SET", "/from/env")]));
    assert_eq!(shares, strings(&["a", "/from/env", "b:c"]));
    assert!(expand_shares(&Params::new(), &env(&[])).is_empty());
}

#[test]
fn forced_digest_needs_a_fingerprint() {
    assert_eq!(resolve_ctx_sha(Some("abc".to_string()), &None), Ok(Some("abc".to_string())));
    assert_eq!(resolve_ctx_sha(Some("abc".to_string()), &Some("f".to_string())), Ok(Some("f".to_string())));
    assert_eq!(resolve_ctx_sha(None, &None), Ok(None));
    assert_eq!(
        resolve_ctx_sha(None, &Some("f".to_string())),
        Err("Error: context sha us unused by this configuration".to_string())
    );
    assert_eq!(context_to_print(&Some("abc".to_string())), Ok("abc".to_string()));
    assert_eq!(
        context_to_print(&None),
        Err("Error: context sha us unused by this configuration".to_string())
    );
}

#[test]
fn workdir_follows_mount_target_then_override() {
    let mut params = Params::new();
    assert_eq!(plan_workdir(&params, "/root", "/root/sub"), ("/root".to_string(), "/root/sub".to_string()));
    params.insert("mount_to".to_string(), strings(&["/work"]));
    assert_eq!(plan_workdir(&params, "/root", "/root/sub"), ("/work".to_string(), "/work".to_string()));
    params.insert("cd_to".to_string(), strings(&["/elsewhere"]));
    assert_eq!(plan_workdir(&params, "/root", "/root/sub"), ("/work".to_string(), "/elsewhere".to_string()));
    params.remove("mount_to");
    assert_eq!(plan_workdir(&params, "/root", "/root/sub"), ("/root".to_string(), "/elsewhere".to_string()));
}

#[test]
fn host_overrides_hold_root_terminal_and_passthrough() {
    let mut params = Params::new();
    params.insert("env_overrides".to_string(), strings(&["KEEP", "ABSENT", "ALSO"]));
    let environment = env(&[("TERM", "xterm"), ("KEEP", "1"), ("ALSO", "2"), ("OTHER", "3")]);
    let with_tty = host_env_overrides("/root", true, &params, &environment);
    assert_eq!(
        with_tty.entries().clone(),
        vec![
            ("ALSO".to_string(), "2".to_string()),
            ("GW_BUILD_ROOT".to_string(), "/root".to_string()),
            ("KEEP".to_string(), "1".to_string()),
            ("TERM".to_string(), "xterm".to_string()),
        ]
    );
    let without_tty = host_env_overrides("/root", false, &Params::new(), &environment);
    assert_eq!(
        without_tty.entries().clone(),
        vec![("GW_BUILD_ROOT".to_string(), "/root".to_string())]
    );
}

#[test]
fn mounts_come_in_the_fixed_order() {
    let share = parse_share("data:/data", "/root").expect("share");
    let git = git_dir_mount("/outside/repo.git\n", "/root").expect("git mount");
    let mounts = assemble_mounts(
        "/root",
        "/work",
        vec![share.clone()],
        Some(git.clone()),
        &Some("/root/extra.sh".to_string()),
        "/host/giftwrap".to_string(),
        "/usr/local/bin/giftwrap".to_string(),
    );
    assert_eq!(
        mounts,
        vec![
            Mount { source: "/root".to_string(), target: "/work".to_string(), read_only: false, options: vec![] },
            share,
            git,
            Mount {
                source: "/root/extra.sh".to_string(),
                target: "/root/extra.sh".to_string(),
                read_only: false,
                options: vec![]
            },
            Mount {
                source: "/host/giftwrap".to_string(),
                target: "/usr/local/bin/giftwrap".to_string(),
                read_only: true,
                options: vec![]
            },
        ]
    );
    let least = assemble_mounts("/r", "/r", Vec::new(), None, &None, "/a".to_string(), "/b".to_string());
    assert_eq!(least.len(), 2);
    assert!(least[1].read_only);
}

#[test]
fn git_directory_inside_the_root_is_not_mounted() {
    assert!(git_dir_mount(".git\n", "/root").is_none());
    assert!(git_dir_mount("/root/.git", "/root").is_none());
    assert!(git_dir_mount("  /root/./sub//.git  ", "/root/").is_none());
    let mount = git_dir_mount("/rootless/.git", "/root").expect("expected external git dir mount");
    assert_eq!(mount.source, "/rootless/.git");
    assert_eq!(mount.target, "/rootless/.git");
    assert!(!mount.read_only);
    assert!(mount.options.is_empty());
    assert!(starts_with_path("/a/b/c", "/a/b"));
    assert!(starts_with_path("/a/b", "/"));
    assert!(!starts_with_path("a/b", "/a"));
    assert!(!starts_with_path("/a", "/a/b"));
}

#[test]
fn extra_args_are_merged_in_order() {
    assert_eq!(
        merge_extra_args(&strings(&["a"]), &strings(&["b", "c"]), &strings(&["d"])),
        strings(&["a", "b", "c", "d"])
    );
}

#[test]
fn container_spec_runs_the_agent_as_root() {
    let mut params = Params::new();
    params.insert("extra_hosts".to_string(), strings(&["db:10.0.0.2"]));
    let spec = build_container_spec(
        "registry/app:tag".to_string(),
        Vec::new(),
        "{\"v\":1}".to_string(),
        true,
        &params,
        "/usr/local/bin/giftwrap".to_string(),
        strings(&["--net=host"]),
    );
    assert_eq!(spec.image, "registry/app:tag");
    assert_eq!(spec.hostname.as_deref(), Some("app-tag"));
    assert_eq!(spec.env.entries().clone(), vec![("GW_INTERNAL_SPEC".to_string(), "{\"v\":1}".to_string())]);
    assert!(spec.workdir.is_none());
    assert_eq!(spec.user.as_deref(), Some("root"));
    assert_eq!(spec.extra_hosts, strings(&["db:10.0.0.2"]));
    assert!(spec.privileged && spec.init && spec.remove && spec.interactive && spec.tty);
    assert_eq!(spec.entrypoint, Some(strings(&["/usr/local/bin/giftwrap"])));
    assert_eq!(spec.command, strings(&["agent"]));
    assert_eq!(spec.extra_args, strings(&["--net=host"]));
}

#[test]
fn agent_is_looked_for_in_order() {
    let all = AgentSearch {
        hinted: Some("/hint".to_string()),
        musl: Some("/musl".to_string()),
        adjacent: Some("/adjacent".to_string()),
        in_path: Some("/path".to_string()),
    };
    let default_hint = agent_hint(None, "/root", "/work");
    assert_eq!(default_hint.target, "/usr/local/bin/giftwrap");
    assert_eq!(default_hint.hint, "/usr/local/bin/giftwrap");
    assert!(!default_hint.resolve_links);
    assert_eq!(
        resolve_giftwrap_mount(false, &default_hint, &all),
        Ok(("/musl".to_string(), "/usr/local/bin/giftwrap".to_string()))
    );
    let relative = agent_hint(Some("bin/agent"), "/root", "/work");
    assert_eq!(relative.target, "/work/bin/agent");
    assert_eq!(relative.hint, "/root/bin/agent");
    assert!(relative.resolve_links);
    assert_eq!(
        resolve_giftwrap_mount(true, &relative, &all),
        Ok(("/hint".to_string(), "/work/bin/agent".to_string()))
    );
    let absolute = agent_hint(Some("/opt/agent"), "/root", "/work");
    assert_eq!(absolute.target, "/opt/agent");
    assert_eq!(absolute.hint, "/opt/agent");
    let no_hint = AgentSearch { hinted: None, ..all.clone() };
    assert_eq!(resolve_giftwrap_mount(true, &absolute, &no_hint).unwrap().0, "/musl");
    let later = AgentSearch { hinted: None, musl: None, ..all.clone() };
    assert_eq!(resolve_giftwrap_mount(false, &absolute, &later).unwrap().0, "/adjacent");
    let last = AgentSearch { hinted: None, musl: None, adjacent: None, ..all };
    assert_eq!(resolve_giftwrap_mount(false, &absolute, &last).unwrap().0, "/path");
    let nothing = AgentSearch { hinted: None, musl: None, adjacent: None, in_path: None };
    assert_eq!(
        resolve_giftwrap_mount(true, &absolute, &nothing),
        Err("Error: failed to locate giftwrap on host (checked /opt/agent, musl target, giftwrap-adjacent, and PATH). Build giftwrap (musl) or set gw_agent to a valid host path.".to_string())
    );
}

#[test]
fn built_binaries_are_found_debug_first() {
    assert_eq!(preferred_target("/root", "x86_64"), "/root/target/x86_64-unknown-linux-musl");
    assert_eq!(
        find_musl_binary_in_target("/t", "giftwrap", true, true).as_deref(),
        Some("/t/debug/giftwrap")
    );
    assert_eq!(
        find_musl_binary_in_target("/t", "giftwrap", false, true).as_deref(),
        Some("/t/release/giftwrap")
    );
    assert!(find_musl_binary_in_target("/t", "giftwrap", false, false).is_none());
    assert!(other_musl_target("/root/target/aarch64-unknown-linux-musl", "/root/target/x86_64-unknown-linux-musl"));
    assert!(!other_musl_target("/root/target/x86_64-unknown-linux-musl", "/root/target/x86_64-unknown-linux-musl"));
    assert!(!other_musl_target("/root/target/debug", "/root/target/x86_64-unknown-linux-musl"));
    assert!(!other_musl_target("/root/linux-musl/x", "/p"));
}

#[test]
fn hook_and_terminal_query_results() {
    let mut params = Params::new();
    assert!(hook_command(&params).is_none());
    params.insert("prelaunch_hook".to_string(), Vec::new());
    assert!(hook_command(&params).is_none());
    params.insert("prelaunch_hook".to_string(), strings(&["make", "prep"]));
    assert_eq!(hook_command(&params), Some(strings(&["make", "prep"])));
    assert_eq!(hook_result(Some(0)), Ok(()));
    assert_eq!(hook_result(Some(3)), Err("Error: prelaunch_hook failed (exit 3)".to_string()));
    assert_eq!(hook_result(None), Err("Error: prelaunch_hook failed (exit signal)".to_string()));
    let info = load_terminfo("xterm", Some(0), vec![9, 8]).expect("terminfo");
    assert_eq!(info, TerminfoSpec { term: "xterm".to_string(), data: vec![9, 8] });
    assert_eq!(load_terminfo("xterm", Some(1), Vec::new()), Err("Error: infocmp failed (exit 1)".to_string()));
}

#[test]
fn paths_are_normalized_to_slash_form() {
    assert_eq!(path_to_slash("a/b"), "a/b");
    assert_eq!(path_to_slash("/a//b/./c/../d/"), "a/b/c/d");
    assert_eq!(path_to_slash(""), "");
    assert_eq!(path_to_slash("./x"), "x");
    assert_eq!(abs_path("", "/r"), "/r/");
    assert_eq!(abs_path("x", ""), "x");
    assert_eq!(abs_path("x", "/r/"), "/r/x");
}

fn options(action: CliAction) -> CliOptions {
    CliOptions {
        action,
        use_ctx: None,
        override_image: None,
        rebuild: false,
        extra_args: Vec::new(),
        runtime_args: Vec::new(),
    }
}

#[test]
fn prelude_decides_in_order() {
    let mut params = params_with_image("app");
    let no_error = "Error: context sha us unused by this configuration".to_string();
    assert_eq!(prelude(&options(CliAction::PrintContext), &params, Some("abc".to_string())), Ok(Prelude::Print("abc".to_string())));
    assert_eq!(prelude(&options(CliAction::PrintContext), &params, None), Err(no_error.clone()));
    assert_eq!(prelude(&options(CliAction::PrintImage), &params, Some("abc".to_string())), Ok(Prelude::Print("app:abc".to_string())));
    assert_eq!(prelude(&options(CliAction::ShowConfig), &params, None), Ok(Prelude::ShowConfig));
    assert_eq!(prelude(&options(CliAction::Help), &params, None), Ok(Prelude::Help));
    assert_eq!(
        prelude(&options(CliAction::Help), &Params::new(), None),
        Err("Error: gw_container must be specified".to_string())
    );

    let mut forced = options(CliAction::PrintContext);
    forced.use_ctx = Some("f00".to_string());
    assert_eq!(prelude(&forced, &params, Some("abc".to_string())), Ok(Prelude::Print("f00".to_string())));
    assert_eq!(prelude(&forced, &params, None), Err(no_error.clone()));
    forced.action = CliAction::Help;
    assert_eq!(prelude(&forced, &params, None), Err(no_error));

    let mut run = options(CliAction::Run);
    run.rebuild = true;
    run.override_image = Some("other:1".to_string());
    params.insert("prelaunch_hook".to_string(), strings(&["make"]));
    assert_eq!(
        prelude(&run, &params, Some("abc".to_string())),
        Ok(Prelude::Launch {
            image: "other:1".to_string(),
            hook: Some(strings(&["make"])),
            rebuild: Some("other:1".to_string()),
            print_only: false
        })
    );
    assert_eq!(
        prelude(&options(CliAction::PrintCommand), &params_with_image("app"), None),
        Ok(Prelude::Launch { image: "app".to_string(), hook: None, rebuild: None, print_only: true })
    );
}

#[test]
fn terminal_is_described_only_when_attached() {
    let environment = env(&[("TERM", "xterm")]);
    assert_eq!(terminal_to_describe(true, &environment).as_deref(), Some("xterm"));
    assert!(terminal_to_describe(false, &environment).is_none());
    assert!(terminal_to_describe(true, &env(&[])).is_none());
}
