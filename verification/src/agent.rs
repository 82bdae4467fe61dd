//! The agent inside the container: what it is asked to do, the account it
//! provides, the environment and the one command line it hands to a shell.

use crate::cli::opt_text;
use crate::internal::{InternalSpec, UserSpec, INTERNAL_SPEC_VERSION, SPEC_ENV};
use crate::params::{bind, bind_all, unbind, Bindings, EnvMap};
use crate::paths::{abs_path, abs_path_of};
use crate::text::{char_at, chars_of, decimal, decimal_of, extend, join, join_strings, lines, lines_of, parse_u32, parse_u32_of, split_chars, split_on, str_eq, string_of, strip_prefix, vec_views, views};
use vstd::prelude::*;

verus! {

/// The variable that counts nested shells; it is never kept.
pub const SHELL_DEPTH: &'static str = "SHLVL";

/// The shell that is used where there is one.
pub const BASH: &'static str = "/bin/bash";

/// The shell that is used otherwise.
pub const SH: &'static str = "/bin/sh";

/// What the agent is asked to do.
#[derive(Debug, Clone, PartialEq, Eq)]
pub enum AgentAction {
    /// Write the environment to the given file.
    DumpEnv(String),
    /// Read the launcher's message and provide what it asks for.
    Provision,
}

/// What the agent is asked to do, as a mathematical value.
pub enum Request {
    DumpEnv(Seq<char>),
    Provision,
}

/// What is reported for an argument that the agent does not know.
pub open spec fn unknown_argument_error(flag: Seq<char>) -> Seq<char> {
    "Error: unknown argument: "@ + flag
}

/// What the arguments ask of the agent, or the error. `--dump-env=PATH` and
/// `--dump-env PATH` ask for a dump; anything else is known only where the
/// launcher's message is there, and the message must be there to go on.
pub open spec fn request_of(args: Seq<Seq<char>>, has_payload: bool) -> Result<Request, Seq<char>> {
    if args.len() > 0 && crate::text::starts_with(args[0], "--dump-env="@) {
        Ok(Request::DumpEnv(args[0].skip("--dump-env="@.len() as int)))
    } else if args.len() > 0 && args[0] == "--dump-env"@ {
        if args.len() < 2 {
            Err("Error: --dump-env requires a path"@)
        } else if args.len() > 2 {
            Err("Error: --dump-env accepts a single path"@)
        } else {
            Ok(Request::DumpEnv(args[1]))
        }
    } else if has_payload {
        Ok(Request::Provision)
    } else if args.len() > 0 {
        Err(unknown_argument_error(args[0]))
    } else {
        Err("Error: missing GW_INTERNAL_SPEC environment variable"@)
    }
}

/// The request that an action stands for.
pub open spec fn action_view(action: AgentAction) -> Request {
    match action {
        AgentAction::DumpEnv(path) => Request::DumpEnv(path@),
        AgentAction::Provision => Request::Provision,
    }
}

/// What the arguments ask of the agent. `has_payload` says whether the
/// variable that carries the launcher's message is set.
pub fn run(args: &Vec<String>, has_payload: bool) -> (r: Result<AgentAction, String>)
    ensures
        match r {
            Ok(action) => request_of(views(args@), has_payload) == Ok::<Request, Seq<char>>(
                action_view(action),
            ),
            Err(e) => request_of(views(args@), has_payload) == Err::<Request, Seq<char>>(e@),
        },
{
    assert(views(args@).len() == args.len());
    if args.len() > 0 {
        let flag = args[0].as_str();
        assert(views(args@)[0] == flag@);
        if let Some(path) = strip_prefix(flag, "--dump-env=") {
            return Ok(AgentAction::DumpEnv(path));
        }
        if str_eq(flag, "--dump-env") {
            if args.len() < 2 {
                return Err("Error: --dump-env requires a path".to_owned());
            }
            if args.len() > 2 {
                return Err("Error: --dump-env accepts a single path".to_owned());
            }
            assert(views(args@)[1] == args@[1]@);
            return Ok(AgentAction::DumpEnv(args[1].clone()));
        }
        if !has_payload {
            let mut message = String::new();
            message.append("Error: unknown argument: ");
            message.append(flag);
            return Err(message);
        }
    }
    if !has_payload {
        return Err("Error: missing GW_INTERNAL_SPEC environment variable".to_owned());
    }
    Ok(AgentAction::Provision)
}

/// What is reported for a message of another version.
pub open spec fn version_error(got: u32) -> Seq<char> {
    "Error: internal spec version mismatch (expected "@ + decimal_of(INTERNAL_SPEC_VERSION as nat)
        + ", got "@ + decimal_of(got as nat) + ")"@
}

/// Accepts a message of this agent's version and no other.
pub fn check_version(protocol_version: u32) -> (r: Result<(), String>)
    ensures
        match r {
            Ok(()) => protocol_version == INTERNAL_SPEC_VERSION,
            Err(e) => protocol_version != INTERNAL_SPEC_VERSION && e@ == version_error(
                protocol_version,
            ),
        },
{
    if protocol_version != INTERNAL_SPEC_VERSION {
        let mut message = String::new();
        message.append("Error: internal spec version mismatch (expected ");
        message.append(decimal(INTERNAL_SPEC_VERSION as u64).as_str());
        message.append(", got ");
        message.append(decimal(protocol_version as u64).as_str());
        message.append(")");
        return Err(message);
    }
    Ok(())
}

/// `s` with every single quote written so that it can stand between single
/// quotes: the quote is closed, a quote is given between double quotes, and
/// the quote is opened again.
pub open spec fn quotes_escaped(s: Seq<char>) -> Seq<char>
    decreases s.len(),
{
    if s.len() == 0 {
        seq![]
    } else if s.last() == '\'' {
        quotes_escaped(s.drop_last()) + seq!['\'', '"', '\'', '"', '\'']
    } else {
        quotes_escaped(s.drop_last()).push(s.last())
    }
}

/// A word as a shell reads it back unchanged: between single quotes, with
/// the single quotes inside escaped.
pub open spec fn shell_escaped(value: Seq<char>) -> Seq<char> {
    seq!['\''] + quotes_escaped(value) + seq!['\'']
}

/// `value` quoted for a shell.
pub fn shell_escape(value: &str) -> (out: String)
    ensures
        out@ == shell_escaped(value@),
{
    let chars = chars_of(value);
    let mut out: Vec<char> = Vec::new();
    out.push('\'');
    let mut i: usize = 0;
    assert(out@ =~= seq!['\''] + quotes_escaped(chars@.take(0)));
    while i < chars.len()
        invariant
            i <= chars.len(),
            out@ == seq!['\''] + quotes_escaped(chars@.take(i as int)),
        decreases chars.len() - i,
    {
        assert(chars@.take(i + 1).drop_last() == chars@.take(i as int));
        let c = char_at(&chars, i);
        if c == '\'' {
            out.push('\'');
            out.push('"');
            out.push('\'');
            out.push('"');
            out.push('\'');
        } else {
            out.push(c);
        }
        assert(out@ =~= seq!['\''] + quotes_escaped(chars@.take(i + 1)));
        i += 1;
    }
    assert(chars@.take(chars.len() as int) == chars@);
    out.push('\'');
    assert(out@ =~= shell_escaped(value@));
    string_of(&out)
}

/// Each word quoted for a shell.
pub open spec fn all_escaped(words: Seq<Seq<char>>) -> Seq<Seq<char>> {
    Seq::new(words.len(), |i: int| shell_escaped(words[i]))
}

/// A command as one compound statement: its words, each quoted, with
/// spaces between them, in braces.
pub open spec fn compound_of(words: Seq<Seq<char>>) -> Seq<char> {
    "{ "@ + join(all_escaped(words), " "@) + "; }"@
}

/// The command `cmds` as one compound statement.
pub fn mk_bash_exe_env(cmds: &Vec<String>) -> (out: String)
    ensures
        out@ == compound_of(views(cmds@)),
{
    let mut quoted: Vec<String> = Vec::new();
    let mut i: usize = 0;
    let ghost words = views(cmds@);
    while i < cmds.len()
        invariant
            i <= cmds.len(),
            words == views(cmds@),
            views(quoted@) == all_escaped(words).take(i as int),
        decreases cmds.len() - i,
    {
        let ghost before = views(quoted@);
        let word = shell_escape(cmds[i].as_str());
        let ghost text = word@;
        quoted.push(word);
        assert(views(quoted@) == before.push(text));
        assert(views(quoted@) =~= all_escaped(words).take(i + 1));
        i += 1;
    }
    assert(all_escaped(words).take(cmds.len() as int) == all_escaped(words));
    let mut out = String::new();
    out.append("{ ");
    out.append(join_strings(&quoted, " ").as_str());
    out.append("; }");
    out
}

/// Where the environment is kept, where the message asks to save it.
pub open spec fn save_path_of(spec: InternalSpec) -> Option<Seq<char>> {
    match spec.persist_env {
        Some(persist) => if persist.save {
            Some(persist.path@)
        } else {
            None
        },
        None => None,
    }
}

/// The statements of the command line for the shell, in order: the extra
/// script is sourced; the prefix command runs without input, or else the
/// quiet one without input and output; the command runs and its exit code is
/// kept; the environment is dumped by the agent itself; the shell exits with
/// the kept code.
pub open spec fn statements_of(spec: InternalSpec, agent_path: Seq<char>) -> Seq<Seq<char>> {
    let source = match spec.extra_shell {
        Some(path) => seq!["source "@ + shell_escaped(path@)],
        None => seq![],
    };
    let prefix = if spec.prefix_cmd@.len() > 0 {
        seq![compound_of(views(spec.prefix_cmd@)) + " < /dev/null"@]
    } else if spec.prefix_cmd_quiet@.len() > 0 {
        seq![compound_of(views(spec.prefix_cmd_quiet@)) + " < /dev/null > /dev/null 2>&1"@]
    } else {
        seq![]
    };
    let command = if spec.command@.len() > 0 {
        seq![compound_of(views(spec.command@)), "drrc=$?"@]
    } else {
        seq![]
    };
    let dump = match save_path_of(spec) {
        Some(path) => seq![shell_escaped(agent_path) + " agent --dump-env "@ + shell_escaped(path)],
        None => seq![],
    };
    let exit = if spec.command@.len() > 0 {
        seq!["exit $drrc"@]
    } else {
        seq![]
    };
    source + prefix + command + dump + exit
}

/// The command line for the shell: the statements with `; ` between them.
pub open spec fn script_of(spec: InternalSpec, agent_path: Seq<char>) -> Seq<char> {
    join(statements_of(spec, agent_path), "; "@)
}

/// The command line that the agent hands to the shell.
pub fn build_shell_script(spec: &InternalSpec, agent_path: &str) -> (script: String)
    ensures
        script@ == script_of(*spec, agent_path@),
{
    let mut cmds: Vec<String> = Vec::new();
    assert(views(cmds@) =~= Seq::<Seq<char>>::empty());

    if let Some(extra_shell) = &spec.extra_shell {
        let mut statement = String::new();
        statement.append("source ");
        statement.append(shell_escape(extra_shell.as_str()).as_str());
        let ghost text = statement@;
        cmds.push(statement);
        assert(views(cmds@) =~= seq![text]);
    }
    let ghost source = views(cmds@);

    if spec.prefix_cmd.len() > 0 {
        let mut statement = mk_bash_exe_env(&spec.prefix_cmd);
        statement.append(" < /dev/null");
        let ghost text = statement@;
        cmds.push(statement);
        assert(views(cmds@) =~= source + seq![text]);
    } else if spec.prefix_cmd_quiet.len() > 0 {
        let mut statement = mk_bash_exe_env(&spec.prefix_cmd_quiet);
        statement.append(" < /dev/null > /dev/null 2>&1");
        let ghost text = statement@;
        cmds.push(statement);
        assert(views(cmds@) =~= source + seq![text]);
    }
    let ghost prefix = views(cmds@);

    if spec.command.len() > 0 {
        let statement = mk_bash_exe_env(&spec.command);
        let ghost text = statement@;
        cmds.push(statement);
        cmds.push("drrc=$?".to_owned());
        assert(views(cmds@) =~= prefix + seq![text, "drrc=$?"@]);
    }
    let ghost command = views(cmds@);

    if let Some(persist) = &spec.persist_env {
        if persist.save {
            let mut statement = shell_escape(agent_path);
            statement.append(" agent --dump-env ");
            statement.append(shell_escape(persist.path.as_str()).as_str());
            let ghost text = statement@;
            cmds.push(statement);
            assert(views(cmds@) =~= command + seq![text]);
        }
    }
    let ghost dump = views(cmds@);

    if spec.command.len() > 0 {
        cmds.push("exit $drrc".to_owned());
        assert(views(cmds@) =~= dump + seq!["exit $drrc"@]);
    }
    assert(views(cmds@) =~= statements_of(*spec, agent_path@));

    join_strings(&cmds, "; ")
}

/// The shell that runs the command line: the one that the message names,
/// else the preferred one where it exists, else the plain one.
pub fn select_shell(spec: &InternalSpec, bash_exists: bool) -> (shell: String)
    ensures
        shell@ == match spec.shell {
            Some(named) => named@,
            None => if bash_exists {
                BASH@
            } else {
                SH@
            },
        },
{
    if let Some(shell) = &spec.shell {
        return shell.clone();
    }
    if bash_exists {
        BASH.to_owned()
    } else {
        SH.to_owned()
    }
}

/// The name on a line of an account file and the number in its third
/// field, where the field is there and spells one.
pub open spec fn account_line(line: Seq<char>) -> (Seq<char>, Option<u32>) {
    let fields = split_on(line, ':');
    (
        fields[0],
        if fields.len() >= 3 {
            parse_u32_of(fields[2])
        } else {
            None
        },
    )
}

/// Whether a line of an account file counts: it is neither empty nor a
/// comment.
pub open spec fn is_account_line(line: Seq<char>) -> bool {
    line.len() > 0 && line[0] != '#'
}

/// Whether some line of an account file has the number `id`.
pub open spec fn has_id(all: Seq<Seq<char>>, id: u32) -> bool {
    exists|i: int|
        0 <= i < all.len() && is_account_line(#[trigger] all[i]) && account_line(all[i]).1 == Some(
            id,
        )
}

/// Whether some line of an account file is for root: by the name `root` or
/// by the number 0.
pub open spec fn has_root(all: Seq<Seq<char>>) -> bool {
    exists|i: int|
        0 <= i < all.len() && is_account_line(#[trigger] all[i]) && (account_line(all[i]).0
            == "root"@ || account_line(all[i]).1 == Some(0u32))
}

/// Whether the account file with the text `contents` has an entry with the
/// number `id`, and whether it has one for root.
fn account_state(contents: &str, id: u32) -> (r: (bool, bool))
    ensures
        r.0 == has_id(lines_of(contents@), id),
        r.1 == has_root(lines_of(contents@)),
{
    let chars = chars_of(contents);
    let all = lines(&chars);
    let ghost texts = vec_views(all@);
    let mut found_id = false;
    let mut found_root = false;
    let mut i: usize = 0;
    while i < all.len()
        invariant
            i <= all.len(),
            texts == vec_views(all@),
            found_id == has_id(texts.take(i as int), id),
            found_root == has_root(texts.take(i as int)),
        decreases all.len() - i,
    {
        let line = &all[i];
        let ghost before = texts.take(i as int);
        let ghost after = texts.take(i + 1);
        assert(after.drop_last() == before);
        assert(after.last() == line@);
        let mut this_id = false;
        let mut this_root = false;
        if line.len() > 0 && char_at(line, 0) != '#' {
            let parts = split_chars(line, ':');
            let ghost fields = vec_views(parts@);
            assert(fields.len() == parts.len());
            proof {
                crate::text::lemma_first_index(line@, ':');
            }
            assert(fields[0] == parts@[0]@);
            let line_id = if parts.len() >= 3 {
                assert(fields[2] == parts@[2]@);
                parse_u32(&parts[2])
            } else {
                None
            };
            let name = string_of(&parts[0]);
            this_root = str_eq(name.as_str(), "root") || line_id == Some(0);
            this_id = line_id == Some(id);
        }
        proof {
            assert(this_id == (is_account_line(line@) && account_line(line@).1 == Some(id)));
            assert(this_root == (is_account_line(line@) && (account_line(line@).0 == "root"@
                || account_line(line@).1 == Some(0u32))));
            if has_id(after, id) {
                let k = choose|k: int|
                    0 <= k < after.len() && is_account_line(#[trigger] after[k]) && account_line(
                        after[k],
                    ).1 == Some(id);
                if k < i {
                    assert(before[k] == after[k]);
                }
            }
            if has_id(before, id) {
                let k = choose|k: int|
                    0 <= k < before.len() && is_account_line(#[trigger] before[k])
                        && account_line(before[k]).1 == Some(id);
                assert(after[k] == before[k]);
            }
            if this_id {
                assert(after[i as int] == line@);
            }
            if has_root(after) {
                let k = choose|k: int|
                    0 <= k < after.len() && is_account_line(#[trigger] after[k]) && (account_line(
                        after[k],
                    ).0 == "root"@ || account_line(after[k]).1 == Some(0u32));
                if k < i {
                    assert(before[k] == after[k]);
                }
            }
            if has_root(before) {
                let k = choose|k: int|
                    0 <= k < before.len() && is_account_line(#[trigger] before[k]) && (
                    account_line(before[k]).0 == "root"@ || account_line(before[k]).1 == Some(
                        0u32,
                    ));
                assert(after[k] == before[k]);
            }
            if this_root {
                assert(after[i as int] == line@);
            }
        }
        found_id = found_id || this_id;
        found_root = found_root || this_root;
        i += 1;
    }
    assert(texts.take(all.len() as int) == texts);
    (found_id, found_root)
}

/// Whether the group file with the text `contents` has an entry for the
/// group `gid`, and whether it has one for root.
pub fn group_state(contents: &str, gid: u32) -> (r: (bool, bool))
    ensures
        r.0 == has_id(lines_of(contents@), gid),
        r.1 == has_root(lines_of(contents@)),
{
    account_state(contents, gid)
}

/// Whether the password file with the text `contents` has an entry for the
/// user `uid`, and whether it has one for root.
pub fn passwd_state(contents: &str, uid: u32) -> (r: (bool, bool))
    ensures
        r.0 == has_id(lines_of(contents@), uid),
        r.1 == has_root(lines_of(contents@)),
{
    account_state(contents, uid)
}

/// What closes the last line of `contents` where it is left open.
pub open spec fn closing_of(contents: Seq<char>) -> Seq<char> {
    if contents.len() > 0 && contents.last() != '\n' {
        seq!['\n']
    } else {
        seq![]
    }
}

/// The entry of the group file for the user's group.
pub open spec fn group_entry_of(user: UserSpec) -> Seq<char> {
    user.name@ + ":x:"@ + decimal_of(user.gid as nat) + ":\n"@
}

/// What is appended to the group file with the text `contents` so that it
/// has an entry for the user's group: nothing where it has one; else the
/// entry, after an entry for root where it has none for root.
pub open spec fn group_append_of(contents: Seq<char>, user: UserSpec) -> Seq<char> {
    if has_id(lines_of(contents), user.gid) {
        seq![]
    } else if has_root(lines_of(contents)) {
        group_entry_of(user)
    } else {
        closing_of(contents) + "root:x:0:\n"@ + group_entry_of(user)
    }
}

fn closing(contents: &str) -> (out: String)
    ensures
        out@ == closing_of(contents@),
{
    let chars = chars_of(contents);
    let mut out = String::new();
    if chars.len() > 0 && char_at(&chars, chars.len() - 1) != '\n' {
        crate::text::push_char(&mut out, '\n');
        assert(out@ =~= seq!['\n']);
    }
    out
}

/// What is appended to the group file with the text `contents`.
pub fn ensure_group_entry(contents: &str, user: &UserSpec) -> (out: String)
    ensures
        out@ == group_append_of(contents@, *user),
{
    let (has_gid, has_root) = group_state(contents, user.gid);
    let mut out = String::new();
    if has_gid {
        return out;
    }
    if !has_root {
        out.append(closing(contents).as_str());
        out.append("root:x:0:\n");
    }
    out.append(user.name.as_str());
    out.append(":x:");
    out.append(decimal(user.gid as u64).as_str());
    out.append(":\n");
    assert(out@ =~= group_append_of(contents@, *user));
    out
}

/// The login shell that new entries of the password file name.
pub open spec fn login_shell_of(bash_exists: bool) -> Seq<char> {
    if bash_exists {
        BASH@
    } else {
        SH@
    }
}

/// The entry of the password file for the user.
pub open spec fn passwd_entry_of(user: UserSpec, shell: Seq<char>) -> Seq<char> {
    user.name@ + ":x:"@ + decimal_of(user.uid as nat) + ":"@ + decimal_of(user.gid as nat) + ":"@
        + user.name@ + ":"@ + user.home@ + ":"@ + shell + "\n"@
}

/// What is appended to the password file with the text `contents` so that
/// it has an entry for the user: nothing where it has one; else the entry,
/// after an entry for root where it has none for root.
pub open spec fn passwd_append_of(contents: Seq<char>, user: UserSpec, bash_exists: bool) -> Seq<
    char,
> {
    let shell = login_shell_of(bash_exists);
    if has_id(lines_of(contents), user.uid) {
        seq![]
    } else if has_root(lines_of(contents)) {
        passwd_entry_of(user, shell)
    } else {
        closing_of(contents) + "root:x:0:0:root:/root:"@ + shell + "\n"@ + passwd_entry_of(
            user,
            shell,
        )
    }
}

/// What is appended to the password file with the text `contents`.
pub fn ensure_passwd_entry(contents: &str, user: &UserSpec, bash_exists: bool) -> (out: String)
    ensures
        out@ == passwd_append_of(contents@, *user, bash_exists),
{
    let (has_uid, has_root) = passwd_state(contents, user.uid);
    let mut out = String::new();
    if has_uid {
        return out;
    }
    let shell = if bash_exists {
        BASH
    } else {
        SH
    };
    if !has_root {
        out.append(closing(contents).as_str());
        out.append("root:x:0:0:root:/root:");
        out.append(shell);
        out.append("\n");
    }
    out.append(user.name.as_str());
    out.append(":x:");
    out.append(decimal(user.uid as u64).as_str());
    out.append(":");
    out.append(decimal(user.gid as u64).as_str());
    out.append(":");
    out.append(user.name.as_str());
    out.append(":");
    out.append(user.home.as_str());
    out.append(":");
    out.append(shell);
    out.append("\n");
    assert(out@ =~= passwd_append_of(contents@, *user, bash_exists));
    out
}

/// The directory in which the user's home is made: the home without its
/// last component, and the root for a home that has no component to leave
/// out.
pub open spec fn home_base_of(home: Seq<char>) -> Seq<char> {
    match crate::paths::parent_path_of(home) {
        Some(parent) => parent,
        None => seq!['/'],
    }
}

/// The directory in which the user's home is made.
pub fn home_base(home: &str) -> (out: String)
    ensures
        out@ == home_base_of(home@),
{
    let chars = chars_of(home);
    match crate::paths::path_parent(&chars) {
        Some(parent) => string_of(&parent),
        None => {
            let mut out = String::new();
            crate::text::push_char(&mut out, '/');
            assert(out@ =~= seq!['/']);
            out
        },
    }
}

/// The commands of the account tools, in order: the stale account is
/// removed, the group is made, the user is made.
pub open spec fn account_commands_of(user: UserSpec) -> Seq<Seq<Seq<char>>> {
    seq![
        seq!["userdel"@, "os76"@],
        seq!["groupadd"@, "-g"@, decimal_of(user.gid as nat), user.name@],
        seq![
            "useradd"@,
            "-d"@,
            user.home@,
            "-m"@,
            "-g"@,
            decimal_of(user.gid as nat),
            "-u"@,
            decimal_of(user.uid as nat),
            user.name@,
        ],
    ]
}

/// The views of a list of commands.
pub open spec fn command_views(v: Seq<Vec<String>>) -> Seq<Seq<Seq<char>>> {
    Seq::new(v.len(), |i: int| views(v[i]@))
}

/// The commands of the account tools that are tried for `user`; that one
/// of them fails is no error.
pub fn setup_user(user: &UserSpec) -> (commands: Vec<Vec<String>>)
    ensures
        command_views(commands@) == account_commands_of(*user),
{
    let mut userdel: Vec<String> = Vec::new();
    userdel.push("userdel".to_owned());
    userdel.push("os76".to_owned());
    assert(views(userdel@) =~= account_commands_of(*user)[0]);
    let mut groupadd: Vec<String> = Vec::new();
    groupadd.push("groupadd".to_owned());
    groupadd.push("-g".to_owned());
    groupadd.push(decimal(user.gid as u64));
    groupadd.push(user.name.clone());
    assert(views(groupadd@) =~= account_commands_of(*user)[1]);
    let mut useradd: Vec<String> = Vec::new();
    useradd.push("useradd".to_owned());
    useradd.push("-d".to_owned());
    useradd.push(user.home.clone());
    useradd.push("-m".to_owned());
    useradd.push("-g".to_owned());
    useradd.push(decimal(user.gid as u64));
    useradd.push("-u".to_owned());
    useradd.push(decimal(user.uid as u64));
    useradd.push(user.name.clone());
    assert(views(useradd@) =~= account_commands_of(*user)[2]);
    let mut commands: Vec<Vec<String>> = Vec::new();
    commands.push(userdel);
    commands.push(groupadd);
    commands.push(useradd);
    assert(command_views(commands@) =~= account_commands_of(*user));
    commands
}

/// How the policy of the privilege tool is brought in line.
#[derive(Debug, Clone)]
pub struct SudoersPlan {
    /// The editing scripts that blank the lines which mention the account.
    pub scripts: Vec<String>,
    /// The line that is appended.
    pub rule: String,
}

/// The script that blanks every line which mentions `name`.
pub open spec fn blanking_script_of(name: Seq<char>) -> Seq<char> {
    "s/.*"@ + name + ".*//g"@
}

/// The rule that lets `name` do everything without a password.
pub open spec fn sudo_rule_of(name: Seq<char>) -> Seq<char> {
    name + " ALL=(ALL) NOPASSWD: ALL\n"@
}

/// The name that the rule is for: the name that the account database has
/// for the user where it has one that is not empty, else the user's own.
pub open spec fn sudo_name_of(user_name: Seq<char>, account_name: Option<Seq<char>>) -> Seq<char> {
    match account_name {
        Some(name) => if name.len() > 0 {
            name
        } else {
            user_name
        },
        None => user_name,
    }
}

/// How the policy is brought in line for the user `user_name`, whom the
/// account database knows as `account_name`: the lines that mention either
/// name are blanked, and a rule for the database's name is appended.
pub fn sudoers_plan(user_name: &str, account_name: &Option<String>) -> (plan: SudoersPlan)
    ensures
        plan.rule@ == sudo_rule_of(sudo_name_of(user_name@, opt_text(*account_name))),
        plan.scripts@.len() >= 1,
        plan.scripts@[0]@ == blanking_script_of(user_name@),
        if sudo_name_of(user_name@, opt_text(*account_name)) != user_name@ {
            plan.scripts@.len() == 2 && plan.scripts@[1]@ == blanking_script_of(
                sudo_name_of(user_name@, opt_text(*account_name)),
            )
        } else {
            plan.scripts@.len() == 1
        },
{
    let sudo_name: String = match account_name {
        Some(name) => {
            proof {
                reveal_strlit("");
                if name@.len() == 0 {
                    assert(name@ =~= ""@);
                }
            }
            if str_eq(name.as_str(), "") {
                user_name.to_owned()
            } else {
                name.clone()
            }
        },
        None => user_name.to_owned(),
    };
    let mut scripts: Vec<String> = Vec::new();
    let mut first = String::new();
    first.append("s/.*");
    first.append(user_name);
    first.append(".*//g");
    scripts.push(first);
    if !str_eq(sudo_name.as_str(), user_name) {
        let mut second = String::new();
        second.append("s/.*");
        second.append(sudo_name.as_str());
        second.append(".*//g");
        scripts.push(second);
    }
    let mut rule = String::new();
    rule.append(sudo_name.as_str());
    rule.append(" ALL=(ALL) NOPASSWD: ALL\n");
    SudoersPlan { scripts, rule }
}

/// Where a saved environment is to be read from, where the message asks to
/// restore one.
pub fn restore_path(spec: &InternalSpec) -> (r: Option<String>)
    ensures
        opt_text(r) == match spec.persist_env {
            Some(persist) => if persist.restore {
                Some(persist.path@)
            } else {
                None
            },
            None => None,
        },
{
    match &spec.persist_env {
        Some(persist) => if persist.restore {
            Some(persist.path.clone())
        } else {
            None
        },
        None => None,
    }
}

/// The environment to start from: the restored one where one was read,
/// else the agent's own.
pub fn build_base_env(restored: Option<EnvMap>, ambient: EnvMap) -> (base: EnvMap)
    ensures
        base == match restored {
            Some(env) => env,
            None => ambient,
        },
{
    match restored {
        Some(env) => env,
        None => ambient,
    }
}

/// The environment of the command: the one to start from with the
/// message's variables laid over it, `HOME` set to the user's home, and the
/// variable that carried the message taken out.
pub open spec fn command_env_of(base: Bindings, spec: InternalSpec) -> Bindings {
    unbind(bind(bind_all(base, spec.env_overrides@), "HOME"@, spec.user.home@), SPEC_ENV@)
}

/// The environment of the command.
pub fn assemble_env(base: EnvMap, spec: &InternalSpec) -> (env: EnvMap)
    ensures
        env@ == command_env_of(base@, *spec),
{
    let mut env = base;
    env.extend(&spec.env_overrides);
    env.insert("HOME".to_owned(), spec.user.home.clone());
    env.remove(SPEC_ENV);
    env
}

/// The environment as it is saved: without the count of nested shells.
pub fn dump_env(env: EnvMap) -> (kept: EnvMap)
    ensures
        kept@ == unbind(env@, SHELL_DEPTH@),
{
    let mut kept = env;
    kept.remove(SHELL_DEPTH);
    kept
}

/// Where the description of the terminal goes under the home `home`: the
/// directory of compiled descriptions and the file with the source.
pub fn install_terminfo(home: &str) -> (r: (String, String))
    ensures
        r.0@ == abs_path_of(".terminfo"@, home@),
        r.1@ == abs_path_of("terminfo"@, home@),
{
    (abs_path(".terminfo", home), abs_path("terminfo", home))
}

/// One stage of the agent's work.
#[derive(Debug, Clone, Copy, PartialEq, Eq)]
pub enum AgentStep {
    /// Enter the directory that the message names.
    EnterWorkdir,
    /// Make the directory in which the home goes, open to all.
    HomeBase,
    /// Run the account tools; that they fail is no error.
    AccountTools,
    /// Make sure that the group file has an entry for the user's group.
    GroupEntry,
    /// Make sure that the password file has an entry for the user.
    PasswdEntry,
    /// Make sure that the home exists, can be entered and is the user's.
    HomeDir,
    /// Bring the policy of the privilege tool in line; where there is no
    /// policy file this is left out with a warning.
    Sudoers,
    /// Put the environment of the command together.
    Environment,
    /// Give up root: the group first, then the user.
    DropPrivileges,
    /// Write and compile the description of the terminal; that this fails
    /// is no error.
    Terminfo,
    /// Hand over to the shell.
    Exec,
}

impl AgentStep {
    /// Whether a failure of the stage is passed over.
    pub open spec fn tolerant(self) -> bool {
        self == AgentStep::AccountTools || self == AgentStep::Terminfo
    }

    /// Whether a failure of the stage is passed over; a failure of any
    /// other stage ends the agent's work.
    pub fn best_effort(&self) -> (r: bool)
        ensures
            r == self.tolerant(),
    {
        match self {
            AgentStep::AccountTools => true,
            AgentStep::Terminfo => true,
            _ => false,
        }
    }
}

/// The stages of the agent's work in their order; the description of the
/// terminal is installed only where the message brings one, and only once
/// root is given up.
pub open spec fn pipeline_of(has_terminfo: bool) -> Seq<AgentStep> {
    seq![
        AgentStep::EnterWorkdir,
        AgentStep::HomeBase,
        AgentStep::AccountTools,
        AgentStep::GroupEntry,
        AgentStep::PasswdEntry,
        AgentStep::HomeDir,
        AgentStep::Sudoers,
        AgentStep::Environment,
        AgentStep::DropPrivileges,
    ] + (if has_terminfo {
        seq![AgentStep::Terminfo]
    } else {
        seq![]
    }) + seq![AgentStep::Exec]
}

/// The stages of the agent's work for the message `spec`.
pub fn pipeline(spec: &InternalSpec) -> (steps: Vec<AgentStep>)
    ensures
        steps@ == pipeline_of(spec.terminfo is Some),
{
    let mut steps: Vec<AgentStep> = Vec::new();
    steps.push(AgentStep::EnterWorkdir);
    steps.push(AgentStep::HomeBase);
    steps.push(AgentStep::AccountTools);
    steps.push(AgentStep::GroupEntry);
    steps.push(AgentStep::PasswdEntry);
    steps.push(AgentStep::HomeDir);
    steps.push(AgentStep::Sudoers);
    steps.push(AgentStep::Environment);
    steps.push(AgentStep::DropPrivileges);
    if spec.terminfo.is_some() {
        steps.push(AgentStep::Terminfo);
    }
    steps.push(AgentStep::Exec);
    assert(steps@ =~= pipeline_of(spec.terminfo is Some));
    steps
}

/// What the agent does for a message.
#[derive(Debug)]
pub struct AgentPlan {
    /// The stages, in the order in which they are gone through.
    pub steps: Vec<AgentStep>,
    /// The directory to enter.
    pub workdir: String,
    /// The directory in which the home is made.
    pub home_base: String,
    /// The commands of the account tools.
    pub account_commands: Vec<Vec<String>>,
    /// The shell to hand over to.
    pub shell: String,
    /// The command line for the shell.
    pub script: String,
}

/// What the agent does for the message `spec`, or the error where the
/// message is of another version: then nothing is planned, so nothing is
/// provided.
pub fn run_spec(spec: &InternalSpec, agent_path: &str, bash_exists: bool) -> (r: Result<
    AgentPlan,
    String,
>)
    ensures
        match r {
            Ok(plan) => spec.protocol_version == INTERNAL_SPEC_VERSION && plan.steps@
                == pipeline_of(spec.terminfo is Some) && plan.workdir@ == spec.workdir@
                && plan.home_base@ == home_base_of(spec.user.home@) && command_views(
                plan.account_commands@,
            ) == account_commands_of(spec.user) && plan.script@ == script_of(*spec, agent_path@)
                && plan.shell@ == (match spec.shell {
                Some(named) => named@,
                None => login_shell_of(bash_exists),
            }),
            Err(e) => spec.protocol_version != INTERNAL_SPEC_VERSION && e@ == version_error(
                spec.protocol_version,
            ),
        },
{
    match check_version(spec.protocol_version) {
        Ok(()) => {},
        Err(e) => {
            return Err(e);
        },
    }
    Ok(
        AgentPlan {
            steps: pipeline(spec),
            workdir: spec.workdir.clone(),
            home_base: home_base(spec.user.home.as_str()),
            account_commands: setup_user(&spec.user),
            shell: select_shell(spec, bash_exists),
            script: build_shell_script(spec, agent_path),
        },
    )
}

} // verus!
