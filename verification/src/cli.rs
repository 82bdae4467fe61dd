//! The command line: launcher flags first, then arguments for the container
//! engine, then the command to run.

use crate::text::{starts_with, str_eq, strip_prefix, views};
use crate::words::{parse_error_text, shell_words_of, split_words, UNCLOSED_QUOTE};
use vstd::prelude::*;

verus! {

/// What the launcher is asked to do.
#[derive(Debug, Clone, Copy, PartialEq, Eq)]
pub enum CliAction {
    Run,
    PrintCommand,
    PrintContext,
    PrintImage,
    ShowConfig,
    Help,
}

/// The launcher flags of a command line.
#[derive(Debug, Clone, PartialEq, Eq)]
pub struct CliOptions {
    pub action: CliAction,
    /// A digest to use in place of the computed one.
    pub use_ctx: Option<String>,
    /// An image to use in place of the configured one.
    pub override_image: Option<String>,
    /// Whether to build the image before running.
    pub rebuild: bool,
    /// Engine arguments given by flag.
    pub extra_args: Vec<String>,
    /// Engine arguments given before the `--` delimiter.
    pub runtime_args: Vec<String>,
}

/// The command to run in the container.
#[derive(Debug, Clone, PartialEq, Eq)]
pub struct UserCommand {
    pub argv: Vec<String>,
}

/// Why a command line was refused.
#[derive(Debug)]
pub struct CliError {
    message: String,
}

impl View for CliError {
    type V = Seq<char>;

    closed spec fn view(&self) -> Seq<char> {
        self.message@
    }
}

impl CliError {
    /// An error with the given message.
    pub fn new(message: &str) -> (r: CliError)
        ensures
            r@ == message@,
    {
        CliError { message: message.to_owned() }
    }

    /// The message.
    pub fn to_string(&self) -> (r: String)
        ensures
            r@ == self@,
    {
        self.message.clone()
    }
}

/// The launcher flags as a mathematical value.
pub struct Flags {
    pub action: CliAction,
    pub use_ctx: Option<Seq<char>>,
    pub override_image: Option<Seq<char>>,
    pub rebuild: bool,
    pub extra_args: Seq<Seq<char>>,
}

/// A parsed command line as a mathematical value.
pub struct CommandLine {
    pub flags: Flags,
    pub runtime_args: Seq<Seq<char>>,
    pub argv: Seq<Seq<char>>,
}

/// The flags before any argument is read.
pub open spec fn no_flags() -> Flags {
    Flags {
        action: CliAction::Run,
        use_ctx: None,
        override_image: None,
        rebuild: false,
        extra_args: seq![],
    }
}

/// What is reported where the engine arguments given by flag cannot be
/// split into words.
pub open spec fn extra_args_error() -> Seq<char> {
    "Error: failed to parse --gw-extra-args: "@ + UNCLOSED_QUOTE@
}

/// The flags after one more launcher flag, and whether that flag ends the
/// command line, so that what follows it is not read; or nothing where the
/// flag gives engine arguments that cannot be split into words. A launcher
/// flag that is not known changes nothing.
pub open spec fn flag_effect(flags: Flags, arg: Seq<char>) -> Option<(Flags, bool)> {
    if arg == "--gw-print"@ {
        Some((Flags { action: CliAction::PrintCommand, ..flags }, false))
    } else if arg == "--gw-ctx"@ {
        Some((Flags { action: CliAction::PrintContext, ..flags }, true))
    } else if arg == "--gw-print-image"@ {
        Some((Flags { action: CliAction::PrintImage, ..flags }, true))
    } else if starts_with(arg, "--gw-use-ctx="@) {
        Some((Flags { use_ctx: Some(arg.skip("--gw-use-ctx="@.len() as int)), ..flags }, false))
    } else if starts_with(arg, "--gw-img="@) {
        Some(
            (Flags { override_image: Some(arg.skip("--gw-img="@.len() as int)), ..flags }, false),
        )
    } else if arg == "--gw-rebuild"@ {
        Some((Flags { rebuild: true, ..flags }, false))
    } else if starts_with(arg, "--gw-extra-args="@) {
        match shell_words_of(arg.skip("--gw-extra-args="@.len() as int)) {
            Some(words) => Some((Flags { extra_args: flags.extra_args + words, ..flags }, false)),
            None => None,
        }
    } else if arg == "--gw-show-config"@ {
        Some((Flags { action: CliAction::ShowConfig, ..flags }, true))
    } else if arg == "--gw-help"@ {
        Some((Flags { action: CliAction::Help, ..flags }, true))
    } else {
        Some((flags, false))
    }
}

/// The position of the first `--` in `args`, or their number.
pub open spec fn delimiter_index(args: Seq<Seq<char>>) -> int
    decreases args.len(),
{
    if args.len() == 0 || args[0] == "--"@ {
        0
    } else {
        1 + delimiter_index(args.drop_first())
    }
}

/// The command line once the launcher flags are read and `rest` is left:
/// what stands before a `--` goes to the engine and what stands after it is
/// the command; without a `--` all of it is the command.
pub open spec fn split_rest(flags: Flags, rest: Seq<Seq<char>>) -> CommandLine {
    let at = delimiter_index(rest);
    if 0 <= at < rest.len() {
        CommandLine { flags, runtime_args: rest.take(at), argv: rest.skip(at + 1) }
    } else {
        CommandLine { flags, runtime_args: seq![], argv: rest }
    }
}

/// What a command line says, or nothing where it is refused. Arguments are
/// read as launcher flags while they start with `--gw-`; a terminal flag
/// ends the reading and leaves no engine arguments and no command.
pub open spec fn command_line(flags: Flags, args: Seq<Seq<char>>) -> Option<CommandLine>
    decreases args.len(),
{
    if args.len() == 0 || !starts_with(args[0], "--gw-"@) {
        Some(split_rest(flags, args))
    } else {
        match flag_effect(flags, args[0]) {
            None => None,
            Some((next, terminal)) => if terminal {
                Some(CommandLine { flags: next, runtime_args: seq![], argv: seq![] })
            } else {
                command_line(next, args.drop_first())
            },
        }
    }
}

/// The value of an optional string.
pub open spec fn opt_text(s: Option<String>) -> Option<Seq<char>> {
    match s {
        Some(text) => Some(text@),
        None => None,
    }
}

/// The command line that parsed options and a command stand for.
pub open spec fn parsed(options: CliOptions, command: UserCommand) -> CommandLine {
    CommandLine {
        flags: Flags {
            action: options.action,
            use_ctx: opt_text(options.use_ctx),
            override_image: opt_text(options.override_image),
            rebuild: options.rebuild,
            extra_args: views(options.extra_args@),
        },
        runtime_args: views(options.runtime_args@),
        argv: views(command.argv@),
    }
}

/// The flags that options under construction stand for.
spec fn flags_of(
    action: CliAction,
    use_ctx: Option<String>,
    override_image: Option<String>,
    rebuild: bool,
    extra_args: Seq<String>,
) -> Flags {
    Flags {
        action,
        use_ctx: opt_text(use_ctx),
        override_image: opt_text(override_image),
        rebuild,
        extra_args: views(extra_args),
    }
}

/// A copy of `args[from..to]`.
fn copy_args(args: &Vec<String>, from: usize, to: usize) -> (out: Vec<String>)
    requires
        from <= to <= args.len(),
    ensures
        views(out@) == views(args@).subrange(from as int, to as int),
{
    let mut out: Vec<String> = Vec::new();
    let mut i: usize = from;
    while i < to
        invariant
            from <= i <= to <= args.len(),
            views(out@) == views(args@).subrange(from as int, i as int),
        decreases to - i,
    {
        let ghost before = views(out@);
        out.push(args[i].clone());
        assert(views(out@) == before.push(args@[i as int]@));
        i += 1;
    }
    out
}

/// Appends the words of one more flag to the engine arguments given by
/// flag.
pub fn add_extra_args(extra_args: &mut Vec<String>, words: Vec<String>)
    ensures
        views(final(extra_args)@) == views(old(extra_args)@) + views(words@),
{
    let ghost had = views(extra_args@);
    let ghost added = views(words@);
    let mut words = words;
    extra_args.append(&mut words);
    assert(views(extra_args@) =~= had + added);
}

/// Reads a command line: launcher flags, then engine arguments and the
/// command. It is refused only where engine arguments given by flag cannot
/// be split into words.
pub fn parse_args(args: &Vec<String>) -> (r: Result<(CliOptions, UserCommand), CliError>)
    ensures
        match r {
            Ok((options, command)) => command_line(no_flags(), views(args@)) == Some(
                parsed(options, command),
            ),
            Err(e) => command_line(no_flags(), views(args@)) is None && e@ == extra_args_error(),
        },
{
    let mut action = CliAction::Run;
    let mut use_ctx: Option<String> = None;
    let mut override_image: Option<String> = None;
    let mut rebuild = false;
    let mut extra_args: Vec<String> = Vec::new();
    let mut runtime_args: Vec<String> = Vec::new();
    let ghost all = views(args@);

    let mut idx: usize = 0;
    let mut terminal_action = false;
    assert(all.skip(0) == all);
    assert(views(extra_args@) =~= Seq::<Seq<char>>::empty());
    assert(flags_of(action, use_ctx, override_image, rebuild, extra_args@) == no_flags());
    while idx < args.len()
        invariant_except_break
            idx <= args.len(),
            !terminal_action,
            command_line(no_flags(), all) == command_line(
                flags_of(action, use_ctx, override_image, rebuild, extra_args@),
                all.skip(idx as int),
            ),
        invariant
            all == views(args@),
        ensures
            idx <= args.len(),
            terminal_action ==> command_line(no_flags(), all) == Some(
                CommandLine {
                    flags: flags_of(action, use_ctx, override_image, rebuild, extra_args@),
                    runtime_args: seq![],
                    argv: seq![],
                },
            ),
            !terminal_action ==> command_line(no_flags(), all) == Some(
                split_rest(
                    flags_of(action, use_ctx, override_image, rebuild, extra_args@),
                    all.skip(idx as int),
                ),
            ),
        decreases args.len() - idx,
    {
        let arg = args[idx].as_str();
        let ghost rest = all.skip(idx as int);
        let ghost before = flags_of(action, use_ctx, override_image, rebuild, extra_args@);
        assert(rest[0] == arg@);
        assert(rest.drop_first() == all.skip(idx + 1));
        if strip_prefix(arg, "--gw-").is_none() {
            break;
        }
        if str_eq(arg, "--gw-print") {
            action = CliAction::PrintCommand;
        } else if str_eq(arg, "--gw-ctx") {
            action = CliAction::PrintContext;
            terminal_action = true;
        } else if str_eq(arg, "--gw-print-image") {
            action = CliAction::PrintImage;
            terminal_action = true;
        } else if let Some(value) = strip_prefix(arg, "--gw-use-ctx=") {
            use_ctx = Some(value);
        } else if let Some(value) = strip_prefix(arg, "--gw-img=") {
            override_image = Some(value);
        } else if str_eq(arg, "--gw-rebuild") {
            rebuild = true;
        } else if let Some(value) = strip_prefix(arg, "--gw-extra-args=") {
            match split_words(value.as_str()) {
                Ok(parts) => {
                    add_extra_args(&mut extra_args, parts);
                },
                Err(error) => {
                    let mut message = String::new();
                    message.append("Error: failed to parse --gw-extra-args: ");
                    message.append(parse_error_text(&error).as_str());
                    assert(flag_effect(before, arg@) is None);
                    return Err(CliError::new(message.as_str()));
                },
            }
        } else if str_eq(arg, "--gw-show-config") {
            action = CliAction::ShowConfig;
            terminal_action = true;
        } else if str_eq(arg, "--gw-help") {
            action = CliAction::Help;
            terminal_action = true;
        }
        assert(flag_effect(before, arg@) == Some(
            (flags_of(action, use_ctx, override_image, rebuild, extra_args@), terminal_action),
        ));

        idx += 1;
        if terminal_action {
            break;
        }
    }

    let user_cmd = if terminal_action {
        let none: Vec<String> = Vec::new();
        assert(views(none@) =~= Seq::<Seq<char>>::empty());
        assert(views(runtime_args@) =~= Seq::<Seq<char>>::empty());
        none
    } else {
        let ghost rest = all.skip(idx as int);
        let mut pos: usize = idx;
        assert(rest.skip(0) == rest);
        while pos < args.len() && !str_eq(args[pos].as_str(), "--")
            invariant
                idx <= pos <= args.len(),
                all == views(args@),
                rest == all.skip(idx as int),
                delimiter_index(rest) == (pos - idx) + delimiter_index(rest.skip(pos - idx)),
            decreases args.len() - pos,
        {
            assert(rest.skip(pos - idx)[0] == args@[pos as int]@);
            assert(rest.skip(pos - idx).drop_first() == rest.skip(pos - idx + 1));
            pos += 1;
        }
        proof {
            if pos < args.len() {
                assert(rest.skip(pos - idx)[0] == args@[pos as int]@);
            }
            assert(delimiter_index(rest) == pos - idx);
        }
        if pos < args.len() {
            runtime_args = copy_args(args, idx, pos);
            assert(all.subrange(idx as int, pos as int) == rest.take(pos - idx));
            let argv = copy_args(args, pos + 1, args.len());
            assert(all.subrange(pos + 1, args.len() as int) == rest.skip(pos - idx + 1));
            argv
        } else {
            let argv = copy_args(args, idx, args.len());
            assert(all.subrange(idx as int, args.len() as int) == rest);
            argv
        }
    };
    Ok(
        (
            CliOptions { action, use_ctx, override_image, rebuild, extra_args, runtime_args },
            UserCommand { argv: user_cmd },
        ),
    )
}

} // verus!
