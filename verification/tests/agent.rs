use giftwrap::agent::{
    assemble_env, build_shell_script, check_version, dump_env, ensure_group_entry,
    ensure_passwd_entry, group_state, home_base, mk_bash_exe_env, passwd_state, pipeline, run,
    run_spec, select_shell, setup_user, shell_escape, sudoers_plan, AgentAction, AgentStep,
};
use giftwrap::internal::{InternalSpec, PersistEnvSpec, TerminfoSpec, UserSpec};
use giftwrap::params::EnvMap;

fn user() -> UserSpec {
    UserSpec { name: "dev".to_string(), uid: 1000, gid: 1001, home: "/tmp/dr-tmp-home-dev/dev".to_string() }
}

fn base_spec() -> InternalSpec {
    InternalSpec {
        protocol_version: 1,
        workdir: "/work".to_string(),
        root_dir: "/work".to_string(),
        user: user(),
        env_overrides: EnvMap::new(),
        persist_env: None,
        terminfo: None,
        command: Vec::new(),
        shell: None,
        extra_shell: None,
        prefix_cmd: Vec::new(),
        prefix_cmd_quiet: Vec::new(),
    }
}

fn strings(words: &[&str]) -> Vec<String> {
    words.iter().map(|w| w.to_string()).collect()
}

#[test]
fn group_state_detects_root_and_gid() {
    let contents = "# comment\nroot:x:0:\nwheel:x:10:root\nuser:x:1000:\n";
    let (has_gid, has_root) = group_state(contents, 1000);
    assert!(has_gid);
    assert!(has_root);
}

#[test]
fn passwd_state_detects_root_and_uid() {
    let contents = "root:x:0:0:root:/root:/bin/sh\nuser:x:1000:1000:User:/home/user:/bin/bash\n";
    let (has_uid, has_root) = passwd_state(contents, 1000);
    assert!(has_uid);
    assert!(has_root);
}

#[test]
fn group_state_reads_numbers_as_the_standard_parser_does() {
    assert_eq!(group_state("a:x:+7:\n", 7), (true, false));
    assert_eq!(group_state("a:x:007:\n", 7), (true, false));
    assert_eq!(group_state("a:x:-7:\n", 7), (false, false));
    assert_eq!(group_state("a:x:7 :\n", 7), (false, false));
    assert_eq!(group_state("a:x:4294967296:\n", 0), (false, false));
    assert_eq!(group_state("a:x:4294967295:\n", 4294967295), (true, false));
    assert_eq!(group_state("a:x:\n", 0), (false, false));
    assert_eq!(group_state("a:x\n", 0), (false, false));
    assert_eq!(group_state("#root:x:0:\n\n", 0), (false, false));
    assert_eq!(group_state("toor:x:0:\n", 5), (false, true));
    assert_eq!(group_state("root:x:12:\n", 5), (false, true));
    assert_eq!(group_state("", 0), (false, false));
}

#[test]
fn group_entry_is_appended_with_root_first() {
    let u = user();
    assert_eq!(ensure_group_entry("", &u), "root:x:0:\ndev:x:1001:\n");
    assert_eq!(ensure_group_entry("other:x:5:", &u), "\nroot:x:0:\ndev:x:1001:\n");
    assert_eq!(ensure_group_entry("root:x:0:\n", &u), "dev:x:1001:\n");
    assert_eq!(ensure_group_entry("root:x:0:\ndev:x:1001:\n", &u), "");
}

#[test]
fn passwd_entry_is_appended_with_root_first() {
    let u = user();
    assert_eq!(
        ensure_passwd_entry("", &u, true),
        "root:x:0:0:root:/root:/bin/bash\ndev:x:1000:1001:dev:/tmp/dr-tmp-home-dev/dev:/bin/bash\n"
    );
    assert_eq!(
        ensure_passwd_entry("root:x:0:0:root:/root:/bin/sh", &u, false),
        "dev:x:1000:1001:dev:/tmp/dr-tmp-home-dev/dev:/bin/sh\n"
    );
    assert_eq!(ensure_passwd_entry("dev:x:1000:1000::/h:/bin/sh\n", &u, false), "");
}

#[test]
fn agent_arguments_select_the_action() {
    assert_eq!(run(&strings(&["--dump-env=/tmp/e"]), false), Ok(AgentAction::DumpEnv("/tmp/e".to_string())));
    assert_eq!(run(&strings(&["--dump-env", "/tmp/e"]), true), Ok(AgentAction::DumpEnv("/tmp/e".to_string())));
    assert_eq!(run(&strings(&["--dump-env"]), true), Err("Error: --dump-env requires a path".to_string()));
    assert_eq!(
        run(&strings(&["--dump-env", "a", "b"]), true),
        Err("Error: --dump-env accepts a single path".to_string())
    );
    assert_eq!(run(&strings(&["--what"]), false), Err("Error: unknown argument: --what".to_string()));
    assert_eq!(run(&strings(&["--what"]), true), Ok(AgentAction::Provision));
    assert_eq!(run(&Vec::new(), true), Ok(AgentAction::Provision));
    assert_eq!(
        run(&Vec::new(), false),
        Err("Error: missing GW_INTERNAL_SPEC environment variable".to_string())
    );
}

#[test]
fn version_mismatch_is_fatal_and_plans_nothing() {
    assert_eq!(check_version(1), Ok(()));
    assert_eq!(
        check_version(2),
        Err("Error: internal spec version mismatch (expected 1, got 2)".to_string())
    );
    assert_eq!(
        check_version(4294967295),
        Err("Error: internal spec version mismatch (expected 1, got 4294967295)".to_string())
    );
    let mut spec = base_spec();
    spec.protocol_version = 0;
    let err = run_spec(&spec, "/agent", true).err().expect("expected a refusal");
    assert_eq!(err, "Error: internal spec version mismatch (expected 1, got 0)");
}

#[test]
fn matching_version_gives_the_plan() {
    let mut spec = base_spec();
    spec.command = strings(&["true"]);
    let plan = run_spec(&spec, "/agent", false).expect("plan");
    assert_eq!(plan.workdir, "/work");
    assert_eq!(plan.home_base, "/tmp/dr-tmp-home-dev");
    assert_eq!(plan.shell, "/bin/sh");
    assert_eq!(plan.script, "{ 'true'; }; drrc=$?; exit $drrc");
    assert_eq!(
        plan.account_commands,
        vec![
            strings(&["userdel", "os76"]),
            strings(&["groupadd", "-g", "1001", "dev"]),
            strings(&["useradd", "-d", "/tmp/dr-tmp-home-dev/dev", "-m", "-g", "1001", "-u", "1000", "dev"]),
        ]
    );
    assert_eq!(setup_user(&spec.user), plan.account_commands);
}

#[test]
fn shell_escape_wraps_and_escapes_quotes() {
    assert_eq!(shell_escape(""), "''");
    assert_eq!(shell_escape("plain"), "'plain'");
    assert_eq!(shell_escape("two words"), "'two words'");
    assert_eq!(shell_escape("it's"), "'it'\"'\"'s'");
    assert_eq!(shell_escape("''"), "''\"'\"''\"'\"''");
}

#[test]
fn compound_statement_quotes_each_word() {
    assert_eq!(mk_bash_exe_env(&strings(&["echo", "a b", "c'd"])), "{ 'echo' 'a b' 'c'\"'\"'d'; }");
    assert_eq!(mk_bash_exe_env(&Vec::new()), "{ ; }");
}

#[test]
fn script_holds_every_statement_in_order() {
    let mut spec = base_spec();
    spec.extra_shell = Some("/work/extra.sh".to_string());
    spec.prefix_cmd = strings(&["/usr/bin/env", "FOO=bar"]);
    spec.prefix_cmd_quiet = strings(&["ignored"]);
    spec.command = strings(&["echo", "hi"]);
    spec.persist_env = Some(PersistEnvSpec { path: "/work/persist.env".to_string(), restore: true, save: true });
    assert_eq!(
        build_shell_script(&spec, "/usr/local/bin/giftwrap"),
        "source '/work/extra.sh'; { '/usr/bin/env' 'FOO=bar'; } < /dev/null; { 'echo' 'hi'; }; drrc=$?; '/usr/local/bin/giftwrap' agent --dump-env '/work/persist.env'; exit $drrc"
    );
}

#[test]
fn script_uses_quiet_prefix_and_skips_what_is_not_asked() {
    let mut spec = base_spec();
    spec.prefix_cmd_quiet = strings(&["setup"]);
    spec.persist_env = Some(PersistEnvSpec { path: "/p".to_string(), restore: true, save: false });
    assert_eq!(build_shell_script(&spec, "/agent"), "{ 'setup'; } < /dev/null > /dev/null 2>&1");
    assert_eq!(build_shell_script(&base_spec(), "/agent"), "");
    let mut only_save = base_spec();
    only_save.persist_env = Some(PersistEnvSpec { path: "/p".to_string(), restore: false, save: true });
    assert_eq!(build_shell_script(&only_save, "/agent"), "'/agent' agent --dump-env '/p'");
}

#[test]
fn shell_is_the_named_one_or_the_first_that_exists() {
    let mut spec = base_spec();
    assert_eq!(select_shell(&spec, true), "/bin/bash");
    assert_eq!(select_shell(&spec, false), "/bin/sh");
    spec.shell = Some("/bin/zsh".to_string());
    assert_eq!(select_shell(&spec, true), "/bin/zsh");
}

#[test]
fn command_environment_overlays_forces_home_and_strips_transport() {
    let base = EnvMap::from_pairs(&vec![
        ("PATH".to_string(), "/bin".to_string()),
        ("HOME".to_string(), "/root".to_string()),
        ("GW_INTERNAL_SPEC".to_string(), "{}".to_string()),
        ("KEEP".to_string(), "1".to_string()),
    ]);
    let mut spec = base_spec();
    spec.env_overrides.insert("PATH".to_string(), "/usr/bin".to_string());
    spec.env_overrides.insert("GW_BUILD_ROOT".to_string(), "/work".to_string());
    let env = assemble_env(base, &spec);
    let pairs: Vec<(String, String)> = env.entries().clone();
    assert_eq!(
        pairs,
        vec![
            ("GW_BUILD_ROOT".to_string(), "/work".to_string()),
            ("HOME".to_string(), "/tmp/dr-tmp-home-dev/dev".to_string()),
            ("KEEP".to_string(), "1".to_string()),
            ("PATH".to_string(), "/usr/bin".to_string()),
        ]
    );
}

#[test]
fn dumped_environment_leaves_out_shell_depth() {
    let env = EnvMap::from_pairs(&vec![
        ("SHLVL".to_string(), "3".to_string()),
        ("A".to_string(), "1".to_string()),
    ]);
    let kept = dump_env(env);
    assert_eq!(kept.entries().clone(), vec![("A".to_string(), "1".to_string())]);
}

#[test]
fn home_base_is_the_parent_or_the_root() {
    assert_eq!(home_base("/tmp/dr-tmp-home-dev/dev"), "/tmp/dr-tmp-home-dev");
    assert_eq!(home_base("/dev"), "/");
    assert_eq!(home_base("/"), "/");
    assert_eq!(home_base("dev"), "");
    assert_eq!(home_base("/home/u/"), "/home");
    assert_eq!(home_base(""), "/");
    assert_eq!(home_base("/home//u/./"), "/home");
}

#[test]
fn sudoers_plan_blanks_both_names() {
    let plan = sudoers_plan("dev", &None);
    assert_eq!(plan.scripts, vec!["s/.*dev.*//g".to_string()]);
    assert_eq!(plan.rule, "dev ALL=(ALL) NOPASSWD: ALL\n");
    let plan = sudoers_plan("dev", &Some("ubuntu".to_string()));
    assert_eq!(plan.scripts, vec!["s/.*dev.*//g".to_string(), "s/.*ubuntu.*//g".to_string()]);
    assert_eq!(plan.rule, "ubuntu ALL=(ALL) NOPASSWD: ALL\n");
    let plan = sudoers_plan("dev", &Some(String::new()));
    assert_eq!(plan.scripts.len(), 1);
    assert_eq!(plan.rule, "dev ALL=(ALL) NOPASSWD: ALL\n");
}

#[test]
fn stages_come_in_the_fixed_order() {
    let mut spec = base_spec();
    let plain = vec![
        AgentStep::EnterWorkdir,
        AgentStep::HomeBase,
        AgentStep::AccountTools,
        AgentStep::GroupEntry,
        AgentStep::PasswdEntry,
        AgentStep::HomeDir,
        AgentStep::Sudoers,
        AgentStep::Environment,
        AgentStep::DropPrivileges,
        AgentStep::Exec,
    ];
    assert_eq!(pipeline(&spec), plain);
    assert_eq!(run_spec(&spec, "/agent", true).expect("plan").steps, plain);
    spec.terminfo = Some(TerminfoSpec { term: "xterm".to_string(), data: vec![1] });
    let steps = pipeline(&spec);
    assert_eq!(steps.len(), 11);
    assert_eq!(steps[8], AgentStep::DropPrivileges);
    assert_eq!(steps[9], AgentStep::Terminfo);
    assert_eq!(steps[10], AgentStep::Exec);
    let tolerant: Vec<AgentStep> = steps.iter().copied().filter(|s| s.best_effort()).collect();
    assert_eq!(tolerant, vec![AgentStep::AccountTools, AgentStep::Terminfo]);
}
