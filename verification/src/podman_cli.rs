//! The argument vector for the container engine.

use crate::internal::{ContainerSpec, Mount};
use crate::params::{bindings_of, Bindings};
use crate::text::{join, join_strings, signed_decimal, signed_decimal_of, str_eq, views};
use vstd::prelude::*;

verus! {

/// The name of the container engine.
pub const ENGINE: &'static str = "podman";

/// What is reported for an entrypoint of more than one word.
pub const ENTRYPOINT_ERROR: &'static str = "Error: entrypoint must be a single argv element";

/// Why the container engine could not be used.
#[derive(Debug)]
pub struct PodmanError {
    message: String,
}

impl View for PodmanError {
    type V = Seq<char>;

    closed spec fn view(&self) -> Seq<char> {
        self.message@
    }
}

impl PodmanError {
    /// An error with the given message.
    pub fn new(message: &str) -> (r: PodmanError)
        ensures
            r@ == message@,
    {
        PodmanError { message: message.to_owned() }
    }

    /// The message.
    pub fn to_string(&self) -> (r: String)
        ensures
            r@ == self@,
    {
        self.message.clone()
    }
}

/// The strings of `s` that are not empty, in order.
pub open spec fn non_empty(s: Seq<Seq<char>>) -> Seq<Seq<char>>
    decreases s.len(),
{
    if s.len() == 0 {
        seq![]
    } else if s.last().len() == 0 {
        non_empty(s.drop_last())
    } else {
        non_empty(s.drop_last()).push(s.last())
    }
}

/// The option that makes a mount read-only.
pub open spec fn read_only_option() -> Seq<char> {
    "ro"@
}

/// The options of a mount as they are handed to the engine: the options
/// given that are not empty, and the read-only option at the end where the
/// mount is read-only and the options do not list it.
pub open spec fn mount_options_of(mount: Mount) -> Seq<Seq<char>> {
    let given = non_empty(views(mount.options@));
    if mount.read_only && !given.contains(read_only_option()) {
        given.push(read_only_option())
    } else {
        given
    }
}

/// The argument for a mount: source, target and the options, with `:`
/// between them, the options with `,` between them; no third part where
/// there are no options.
pub open spec fn mount_arg_of(mount: Mount) -> Seq<char> {
    let options = mount_options_of(mount);
    let base = mount.source@ + ":"@ + mount.target@;
    if options.len() > 0 {
        base + ":"@ + join(options, ","@)
    } else {
        base
    }
}

/// How often `x` occurs in `s`.
pub open spec fn count_of(s: Seq<Seq<char>>, x: Seq<char>) -> nat
    decreases s.len(),
{
    if s.len() == 0 {
        0
    } else if s.last() == x {
        count_of(s.drop_last(), x) + 1
    } else {
        count_of(s.drop_last(), x)
    }
}

/// `x` occurs in `s` exactly if it is counted at least once.
pub proof fn lemma_count_contains(s: Seq<Seq<char>>, x: Seq<char>)
    ensures
        s.contains(x) <==> count_of(s, x) > 0,
    decreases s.len(),
{
    if s.len() > 0 {
        let t = s.drop_last();
        lemma_count_contains(t, x);
        if s.contains(x) {
            let k = choose|k: int| 0 <= k < s.len() && s[k] == x;
            if k < t.len() {
                assert(t[k] == x);
            }
        }
        if count_of(s, x) > 0 {
            if s.last() == x {
                assert(s[s.len() - 1] == x);
            } else {
                let k = choose|k: int| 0 <= k < t.len() && t[k] == x;
                assert(s[k] == x);
            }
        }
    }
}

/// The read-only option is never added to options that list it: a
/// read-only mount whose options list it once hands it on once, and in
/// general as often as they list it; one whose options do not list it hands
/// it on once. A mount that is not read-only hands on what it lists.
pub proof fn lemma_read_only_once(mount: Mount)
    ensures
        count_of(mount_options_of(mount), read_only_option()) == if mount.read_only && count_of(
            non_empty(views(mount.options@)),
            read_only_option(),
        ) == 0 {
            1
        } else {
            count_of(non_empty(views(mount.options@)), read_only_option())
        },
        count_of(non_empty(views(mount.options@)), read_only_option()) == count_of(
            views(mount.options@),
            read_only_option(),
        ),
{
    let given = non_empty(views(mount.options@));
    reveal_strlit("ro");
    lemma_count_contains(given, read_only_option());
    if mount.read_only && !given.contains(read_only_option()) {
        assert(given.push(read_only_option()).drop_last() == given);
    }
    lemma_non_empty_count(views(mount.options@), read_only_option());
}

/// Leaving out the empty strings does not change how often a string that
/// is not empty occurs.
pub proof fn lemma_non_empty_count(s: Seq<Seq<char>>, x: Seq<char>)
    requires
        x.len() > 0,
    ensures
        count_of(non_empty(s), x) == count_of(s, x),
    decreases s.len(),
{
    if s.len() > 0 {
        lemma_non_empty_count(s.drop_last(), x);
        if s.last().len() != 0 {
            assert(non_empty(s).drop_last() == non_empty(s.drop_last()));
        }
    }
}

/// The argument for a mount.
pub fn mount_to_arg(mount: &Mount) -> (arg: String)
    ensures
        arg@ == mount_arg_of(*mount),
{
    let mut options: Vec<String> = Vec::new();
    let ghost given = views(mount.options@);
    let mut listed = false;
    let mut i: usize = 0;
    assert(views(options@) =~= non_empty(given.take(0)));
    while i < mount.options.len()
        invariant
            i <= mount.options.len(),
            given == views(mount.options@),
            views(options@) == non_empty(given.take(i as int)),
            listed == views(options@).contains(read_only_option()),
        decreases mount.options.len() - i,
    {
        let ghost before = views(options@);
        assert(given.take(i + 1).drop_last() == given.take(i as int));
        assert(given.take(i + 1).last() == mount.options@[i as int]@);
        let option = &mount.options[i];
        if !str_eq(option.as_str(), "") {
            proof {
                reveal_strlit("");
                if option@.len() == 0 {
                    assert(option@ =~= ""@);
                }
            }
            let is_ro = str_eq(option.as_str(), "ro");
            options.push(option.clone());
            let ghost after = views(options@);
            assert(after == before.push(option@));
            proof {
                if is_ro {
                    assert(after[after.len() - 1] == read_only_option());
                }
                if after.contains(read_only_option()) && !is_ro {
                    let k = choose|k: int| 0 <= k < after.len() && after[k] == read_only_option();
                    assert(before[k] == read_only_option());
                }
                if before.contains(read_only_option()) {
                    let k = choose|k: int| 0 <= k < before.len() && before[k] == read_only_option();
                    assert(after[k] == read_only_option());
                }
            }
            listed = listed || is_ro;
        } else {
            proof {
                reveal_strlit("");
            }
        }
        i += 1;
    }
    assert(given.take(mount.options.len() as int) == given);
    if mount.read_only && !listed {
        let ghost before = views(options@);
        options.push("ro".to_owned());
        assert(views(options@) == before.push(read_only_option()));
    }
    assert(views(options@) == mount_options_of(*mount));
    assert(views(options@).len() == options.len());
    let mut arg = String::new();
    arg.append(mount.source.as_str());
    arg.append(":");
    arg.append(mount.target.as_str());
    if options.len() > 0 {
        arg.append(":");
        arg.append(join_strings(&options, ",").as_str());
    }
    assert(arg@ =~= mount_arg_of(*mount));
    arg
}

/// The flag, where it is switched on.
pub open spec fn flag_if(on: bool, flag: Seq<char>) -> Seq<Seq<char>> {
    if on {
        seq![flag]
    } else {
        seq![]
    }
}

/// The flag with its value, where there is a value.
pub open spec fn flag_with(flag: Seq<char>, value: Option<Seq<char>>) -> Seq<Seq<char>> {
    match value {
        Some(v) => seq![flag, v],
        None => seq![],
    }
}

/// The flag before each of the values, in order.
pub open spec fn flag_each(flag: Seq<char>, values: Seq<Seq<char>>) -> Seq<Seq<char>>
    decreases values.len(),
{
    if values.len() == 0 {
        seq![]
    } else {
        flag_each(flag, values.drop_last()).push(flag).push(values.last())
    }
}

/// The arguments for the mounts, in the order of the mounts.
pub open spec fn mount_args_of(mounts: Seq<Mount>) -> Seq<Seq<char>> {
    Seq::new(mounts.len(), |i: int| mount_arg_of(mounts[i]))
}

/// The arguments for the variables: name, `=`, value, in the order of the
/// bindings.
pub open spec fn env_args_of(env: Bindings) -> Seq<Seq<char>> {
    Seq::new(env.len(), |i: int| env[i].0 + "="@ + env[i].1)
}

/// The arguments for the entrypoint: none for no word, none where the
/// entrypoint is not given, the flag and the word for one word.
pub open spec fn entrypoint_args_of(entrypoint: Option<Vec<String>>) -> Seq<Seq<char>> {
    match entrypoint {
        Some(words) => if words@.len() == 1 {
            seq!["--entrypoint"@, words@[0]@]
        } else {
            seq![]
        },
        None => seq![],
    }
}

/// Whether the entrypoint has more than one word, which is refused.
pub open spec fn entrypoint_refused(entrypoint: Option<Vec<String>>) -> bool {
    entrypoint matches Some(words) && words@.len() > 1
}

/// The arguments of a `run` invocation: the switches, the host name, the
/// extra hosts, the mounts, the variables by name, the working directory,
/// the user, the entrypoint, the arguments handed through, the image and
/// the command.
pub open spec fn run_args_of(spec: ContainerSpec) -> Seq<Seq<char>> {
    seq!["run"@] + flag_if(spec.interactive, "-i"@) + flag_if(spec.tty, "-t"@) + flag_if(
        spec.remove,
        "--rm"@,
    ) + flag_if(spec.init, "--init"@) + flag_if(spec.privileged, "--privileged=true"@) + flag_with(
        "-h"@,
        crate::cli::opt_text(spec.hostname),
    ) + flag_each("--add-host"@, views(spec.extra_hosts@)) + flag_each(
        "-v"@,
        mount_args_of(spec.mounts@),
    ) + flag_each("--env"@, env_args_of(spec.env@)) + flag_with(
        "-w"@,
        crate::cli::opt_text(spec.workdir),
    ) + flag_with("-u"@, crate::cli::opt_text(spec.user)) + entrypoint_args_of(spec.entrypoint)
        + views(spec.extra_args@) + seq![spec.image@] + views(spec.command@)
}

fn push_flag(args: &mut Vec<String>, on: bool, flag: &str)
    ensures
        views(final(args)@) == views(old(args)@) + flag_if(on, flag@),
{
    if on {
        args.push(flag.to_owned());
    }
    assert(views(args@) =~= views(old(args)@) + flag_if(on, flag@));
}

fn push_with(args: &mut Vec<String>, flag: &str, value: &Option<String>)
    ensures
        views(final(args)@) == views(old(args)@) + flag_with(flag@, crate::cli::opt_text(*value)),
{
    match value {
        Some(v) => {
            args.push(flag.to_owned());
            args.push(v.clone());
        },
        None => {},
    }
    assert(views(args@) =~= views(old(args)@) + flag_with(flag@, crate::cli::opt_text(*value)));
}

fn push_all(args: &mut Vec<String>, values: &Vec<String>)
    ensures
        views(final(args)@) == views(old(args)@) + views(values@),
{
    let mut i: usize = 0;
    assert(views(args@) =~= views(old(args)@) + views(values@).take(0));
    while i < values.len()
        invariant
            i <= values.len(),
            views(args@) == views(old(args)@) + views(values@).take(i as int),
        decreases values.len() - i,
    {
        let ghost before = views(args@);
        args.push(values[i].clone());
        assert(views(args@) == before.push(values@[i as int]@));
        assert(views(values@).take(i + 1) == views(values@).take(i as int).push(
            values@[i as int]@,
        ));
        assert(views(args@) =~= views(old(args)@) + views(values@).take(i + 1));
        i += 1;
    }
    assert(views(values@).take(values.len() as int) == views(values@));
}

fn push_each(args: &mut Vec<String>, flag: &str, values: &Vec<String>)
    ensures
        views(final(args)@) == views(old(args)@) + flag_each(flag@, views(values@)),
{
    let mut i: usize = 0;
    let ghost vs = views(values@);
    assert(views(args@) =~= views(old(args)@) + flag_each(flag@, vs.take(0)));
    while i < values.len()
        invariant
            i <= values.len(),
            vs == views(values@),
            views(args@) == views(old(args)@) + flag_each(flag@, vs.take(i as int)),
        decreases values.len() - i,
    {
        assert(vs.take(i + 1).drop_last() == vs.take(i as int));
        assert(vs.take(i + 1).last() == values@[i as int]@);
        let ghost before = views(args@);
        args.push(flag.to_owned());
        args.push(values[i].clone());
        assert(views(args@) == before.push(flag@).push(values@[i as int]@));
        assert(views(args@) =~= views(old(args)@) + flag_each(flag@, vs.take(i + 1)));
        i += 1;
    }
    assert(vs.take(values.len() as int) == vs);
}

/// The arguments of the `run` invocation for `spec`, or the error where
/// its entrypoint has more than one word. The variables come in the order
/// of their names.
pub fn build_run_args(spec: &ContainerSpec) -> (r: Result<Vec<String>, PodmanError>)
    ensures
        match r {
            Ok(args) => !entrypoint_refused(spec.entrypoint) && views(args@) == run_args_of(*spec),
            Err(e) => entrypoint_refused(spec.entrypoint) && e@ == ENTRYPOINT_ERROR@,
        },
        crate::params::bindings_sorted(spec.env@),
{
    let mut args: Vec<String> = Vec::new();
    args.push("run".to_owned());
    assert(views(args@) =~= seq!["run"@]);

    push_flag(&mut args, spec.interactive, "-i");
    push_flag(&mut args, spec.tty, "-t");
    push_flag(&mut args, spec.remove, "--rm");
    push_flag(&mut args, spec.init, "--init");
    push_flag(&mut args, spec.privileged, "--privileged=true");
    push_with(&mut args, "-h", &spec.hostname);
    push_each(&mut args, "--add-host", &spec.extra_hosts);

    let mut mount_args: Vec<String> = Vec::new();
    let mut i: usize = 0;
    while i < spec.mounts.len()
        invariant
            i <= spec.mounts.len(),
            views(mount_args@) == mount_args_of(spec.mounts@).take(i as int),
        decreases spec.mounts.len() - i,
    {
        let ghost before = views(mount_args@);
        let arg = mount_to_arg(&spec.mounts[i]);
        mount_args.push(arg);
        assert(views(mount_args@) == before.push(mount_arg_of(spec.mounts@[i as int])));
        assert(views(mount_args@) =~= mount_args_of(spec.mounts@).take(i + 1));
        i += 1;
    }
    assert(mount_args_of(spec.mounts@).take(spec.mounts.len() as int) == mount_args_of(
        spec.mounts@,
    ));
    push_each(&mut args, "-v", &mount_args);

    let entries = spec.env.entries();
    let mut env_args: Vec<String> = Vec::new();
    let mut k: usize = 0;
    assert(bindings_of(entries@).len() == entries.len());
    while k < entries.len()
        invariant
            k <= entries.len(),
            bindings_of(entries@) == spec.env@,
            views(env_args@) == env_args_of(spec.env@).take(k as int),
        decreases entries.len() - k,
    {
        let mut pair = String::new();
        pair.append(entries[k].0.as_str());
        pair.append("=");
        pair.append(entries[k].1.as_str());
        assert(spec.env@[k as int] == (entries@[k as int].0@, entries@[k as int].1@));
        let ghost before = views(env_args@);
        let ghost text = pair@;
        assert(text =~= spec.env@[k as int].0 + "="@ + spec.env@[k as int].1);
        env_args.push(pair);
        assert(views(env_args@) == before.push(text));
        assert(views(env_args@) =~= env_args_of(spec.env@).take(k + 1));
        k += 1;
    }
    assert(env_args_of(spec.env@).take(entries.len() as int) == env_args_of(spec.env@));
    push_each(&mut args, "--env", &env_args);

    push_with(&mut args, "-w", &spec.workdir);
    push_with(&mut args, "-u", &spec.user);

    let ghost before = views(args@);
    match &spec.entrypoint {
        Some(entrypoint) => {
            if entrypoint.len() == 1 {
                args.push("--entrypoint".to_owned());
                args.push(entrypoint[0].clone());
            } else if entrypoint.len() > 1 {
                return Err(PodmanError::new(ENTRYPOINT_ERROR));
            }
        },
        None => {},
    }
    assert(views(args@) =~= before + entrypoint_args_of(spec.entrypoint));

    push_all(&mut args, &spec.extra_args);
    let ghost before = views(args@);
    args.push(spec.image.clone());
    assert(views(args@) =~= before + seq![spec.image@]);
    push_all(&mut args, &spec.command);

    Ok(args)
}

/// The command line that replaces the launcher: the engine and the
/// arguments of the `run` invocation for `spec`.
pub fn exec_run(spec: &ContainerSpec) -> (r: Result<Vec<String>, PodmanError>)
    ensures
        match r {
            Ok(argv) => !entrypoint_refused(spec.entrypoint) && views(argv@) == seq![ENGINE@]
                + run_args_of(*spec),
            Err(e) => entrypoint_refused(spec.entrypoint) && e@ == ENTRYPOINT_ERROR@,
        },
{
    match build_run_args(spec) {
        Ok(args) => {
            let mut argv: Vec<String> = Vec::new();
            argv.push(ENGINE.to_owned());
            assert(views(argv@) =~= seq![ENGINE@]);
            push_all(&mut argv, &args);
            Ok(argv)
        },
        Err(e) => Err(e),
    }
}

/// The command line that builds the image `image` from `context_dir`.
pub fn build_image(image: &str, context_dir: &str) -> (argv: Vec<String>)
    ensures
        views(argv@) == seq![ENGINE@, "build"@, "-t"@, image@, context_dir@],
{
    let mut argv: Vec<String> = Vec::new();
    argv.push(ENGINE.to_owned());
    argv.push("build".to_owned());
    argv.push("-t".to_owned());
    argv.push(image.to_owned());
    argv.push(context_dir.to_owned());
    assert(views(argv@) =~= seq![ENGINE@, "build"@, "-t"@, image@, context_dir@]);
    argv
}

/// The command line that asks whether the image `image` exists.
pub fn inspect_image(image: &str) -> (argv: Vec<String>)
    ensures
        views(argv@) == seq![ENGINE@, "image"@, "exists"@, image@],
{
    let mut argv: Vec<String> = Vec::new();
    argv.push(ENGINE.to_owned());
    argv.push("image".to_owned());
    argv.push("exists".to_owned());
    argv.push(image.to_owned());
    assert(views(argv@) =~= seq![ENGINE@, "image"@, "exists"@, image@]);
    argv
}

/// How a process ended, in words: its exit code, or `signal` where it has
/// none.
pub open spec fn exit_status_text(code: Option<i32>) -> Seq<char> {
    match code {
        Some(n) => signed_decimal_of(n as int),
        None => "signal"@,
    }
}

/// How a process ended, in words.
pub fn format_exit_status(code: Option<i32>) -> (r: String)
    ensures
        r@ == exit_status_text(code),
{
    match code {
        Some(n) => signed_decimal(n),
        None => "signal".to_owned(),
    }
}

/// What is reported for a build that ended with `code`.
pub open spec fn build_failed_error(code: Option<i32>) -> Seq<char> {
    "Error: runtime build failed (exit "@ + exit_status_text(code) + ")"@
}

/// What the end of a build means: success for exit code 0, else the error.
pub fn build_result(code: Option<i32>) -> (r: Result<(), PodmanError>)
    ensures
        match r {
            Ok(()) => code == Some(0i32),
            Err(e) => code != Some(0i32) && e@ == build_failed_error(code),
        },
{
    match code {
        Some(0) => Ok(()),
        _ => {
            let mut message = String::new();
            message.append("Error: runtime build failed (exit ");
            message.append(format_exit_status(code).as_str());
            message.append(")");
            Err(PodmanError::new(message.as_str()))
        },
    }
}

/// What is reported where the question for an image ended with `code`.
pub open spec fn inspect_failed_error(code: Option<i32>) -> Seq<char> {
    "Error: runtime image exists failed (exit "@ + exit_status_text(code) + ")"@
}

/// What the end of the question for an image means: exit code 0 says that
/// it exists, 1 that it does not, anything else is an error.
pub fn inspect_result(code: Option<i32>) -> (r: Result<bool, PodmanError>)
    ensures
        match r {
            Ok(exists) => (exists && code == Some(0i32)) || (!exists && code == Some(1i32)),
            Err(e) => code != Some(0i32) && code != Some(1i32) && e@ == inspect_failed_error(code),
        },
{
    match code {
        Some(0) => Ok(true),
        Some(1) => Ok(false),
        _ => {
            let mut message = String::new();
            message.append("Error: runtime image exists failed (exit ");
            message.append(format_exit_status(code).as_str());
            message.append(")");
            Err(PodmanError::new(message.as_str()))
        },
    }
}

} // verus!
