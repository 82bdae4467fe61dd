use giftwrap::cli::{add_extra_args, parse_args, CliAction, CliOptions, UserCommand};

fn parse(args: &[&str]) -> (CliOptions, UserCommand) {
    let argv = args.iter().map(|arg| arg.to_string()).collect::<Vec<_>>();
    parse_args(&argv).expect("parse_args failed")
}

fn parse_err(args: &[&str]) -> String {
    let argv = args.iter().map(|arg| arg.to_string()).collect::<Vec<_>>();
    parse_args(&argv).err().expect("expected parse_args to fail").to_string()
}

#[test]
fn parse_defaults_when_no_args() {
    let (opts, cmd) = parse(&[]);
    assert_eq!(opts.action, CliAction::Run);
    assert!(opts.use_ctx.is_none());
    assert!(opts.override_image.is_none());
    assert!(!opts.rebuild);
    assert!(opts.extra_args.is_empty());
    assert!(opts.runtime_args.is_empty());
    assert!(cmd.argv.is_empty());
}

#[test]
fn parse_print_allows_runtime_and_user_command() {
    let (opts, cmd) = parse(&["--gw-print", "--rm", "--", "echo", "hi"]);
    assert_eq!(opts.action, CliAction::PrintCommand);
    assert_eq!(opts.runtime_args, vec!["--rm"]);
    assert_eq!(cmd.argv, vec!["echo", "hi"]);
}

#[test]
fn parse_ctx_is_terminal_and_ignores_following_args() {
    let (opts, cmd) = parse(&["--gw-ctx", "--gw-use-ctx=deadbeef", "--", "echo"]);
    assert_eq!(opts.action, CliAction::PrintContext);
    assert!(opts.use_ctx.is_none());
    assert!(opts.runtime_args.is_empty());
    assert!(cmd.argv.is_empty());
}

#[test]
fn parse_ctx_preserves_preceding_flags() {
    let (opts, cmd) = parse(&["--gw-use-ctx=deadbeef", "--gw-ctx", "--", "echo"]);
    assert_eq!(opts.action, CliAction::PrintContext);
    assert_eq!(opts.use_ctx.as_deref(), Some("deadbeef"));
    assert!(opts.runtime_args.is_empty());
    assert!(cmd.argv.is_empty());
}

#[test]
fn parse_terminal_actions_ignore_remaining_args() {
    let (opts, cmd) = parse(&["--gw-help", "--rm", "--", "echo"]);
    assert_eq!(opts.action, CliAction::Help);
    assert!(opts.runtime_args.is_empty());
    assert!(cmd.argv.is_empty());

    let (opts, cmd) = parse(&["--gw-print-image", "--rm", "--", "echo"]);
    assert_eq!(opts.action, CliAction::PrintImage);
    assert!(opts.runtime_args.is_empty());
    assert!(cmd.argv.is_empty());

    let (opts, cmd) = parse(&["--gw-show-config", "--rm", "--", "echo"]);
    assert_eq!(opts.action, CliAction::ShowConfig);
    assert!(opts.runtime_args.is_empty());
    assert!(cmd.argv.is_empty());
}

#[test]
fn parse_use_ctx_image_and_rebuild() {
    let (opts, cmd) = parse(&[
        "--gw-use-ctx=abc123",
        "--gw-img=registry.local/app:tag",
        "--gw-rebuild",
        "--",
        "bash",
    ]);
    assert_eq!(opts.use_ctx.as_deref(), Some("abc123"));
    assert_eq!(opts.override_image.as_deref(), Some("registry.local/app:tag"));
    assert!(opts.rebuild);
    assert_eq!(cmd.argv, vec!["bash"]);
}

#[test]
fn parse_extra_args_splits_shell_words() {
    let (opts, cmd) = parse(&["--gw-extra-args=--env FOO=bar --flag \"two words\"", "--", "cmd"]);
    assert_eq!(opts.extra_args, vec!["--env", "FOO=bar", "--flag", "two words"]);
    assert_eq!(cmd.argv, vec!["cmd"]);
}

#[test]
fn parse_extra_args_errors_on_invalid_shell_words() {
    let message = parse_err(&["--gw-extra-args=--env 'unterminated"]);
    assert!(
        message.starts_with("Error: failed to parse --gw-extra-args:"),
        "unexpected error message: {message}"
    );
}

#[test]
fn parse_delimiter_splits_runtime_and_user_command() {
    let (opts, cmd) =
        parse(&["--gw-use-ctx=abc123", "--volume=/src:/src", "--net=host", "--", "make", "test"]);
    assert_eq!(opts.use_ctx.as_deref(), Some("abc123"));
    assert_eq!(opts.runtime_args, vec!["--volume=/src:/src", "--net=host"]);
    assert_eq!(cmd.argv, vec!["make", "test"]);
}

#[test]
fn parse_without_delimiter_treats_remaining_as_user_command() {
    let (opts, cmd) = parse(&["--gw-use-ctx=abc123", "bash", "-lc", "true"]);
    assert_eq!(opts.use_ctx.as_deref(), Some("abc123"));
    assert!(opts.runtime_args.is_empty());
    assert_eq!(cmd.argv, vec!["bash", "-lc", "true"]);
}

#[test]
fn parse_extra_args_error_names_the_cause() {
    let message = parse_err(&["--gw-extra-args=\"open"]);
    assert_eq!(message, "Error: failed to parse --gw-extra-args: missing closing quote");
}

#[test]
fn parse_extra_args_accumulate_and_unknown_flags_are_dropped() {
    let (opts, cmd) =
        parse(&["--gw-extra-args=a b", "--gw-unknown", "--gw-extra-args=c", "--gw-print", "x", "--", "y"]);
    assert_eq!(opts.extra_args, vec!["a", "b", "c"]);
    assert_eq!(opts.action, CliAction::PrintCommand);
    assert_eq!(opts.runtime_args, vec!["x"]);
    assert_eq!(cmd.argv, vec!["y"]);
}

#[test]
fn parse_only_the_first_delimiter_splits() {
    let (opts, cmd) = parse(&["-v", "--", "sh", "--", "-c"]);
    assert_eq!(opts.runtime_args, vec!["-v"]);
    assert_eq!(cmd.argv, vec!["sh", "--", "-c"]);
    let (opts, cmd) = parse(&["--"]);
    assert!(opts.runtime_args.is_empty());
    assert!(cmd.argv.is_empty());
}

#[test]
fn extra_args_are_appended_in_order() {
    let mut args = vec!["a".to_string()];
    add_extra_args(&mut args, vec!["b".to_string(), "c".to_string()]);
    add_extra_args(&mut args, Vec::new());
    assert_eq!(args, vec!["a", "b", "c"]);
}
