//! The launch plan: which image to run, under which host name, with which
//! mounts, variables and arguments, and what the agent is told.

use crate::cli::opt_text;
use crate::config::{opt_str, ParamMap};
use crate::internal::{
    ContainerSpec, InternalSpec, Mount, PersistEnvSpec, TerminfoSpec, UserSpec,
    INTERNAL_SPEC_VERSION, SPEC_ENV,
};
use crate::params::{bind, lookup, Bindings, EnvMap, Params};
use crate::paths::{abs_path, abs_path_of, file_name, file_name_of, is_absolute};
use crate::podman_cli::non_empty;
use crate::text::{char_at, chars_of, decimal, decimal_of, split_chars, split_on, str_eq, string_of, strip_prefix, trim, trimmed, vec_views, views};
use vstd::prelude::*;

verus! {

/// What is reported where no image is configured.
pub const NO_IMAGE_ERROR: &'static str = "Error: gw_container must be specified";

/// What is reported where a digest is asked for or forced and the
/// configuration has no fingerprint.
pub const NO_CONTEXT_ERROR: &'static str = "Error: context sha us unused by this configuration";

/// Where the agent is expected in the container unless configured.
pub const DEFAULT_AGENT_PATH: &'static str = "/usr/local/bin/giftwrap";

/// The longest host name.
pub const HOSTNAME_MAX: usize = 63;

/// The first value of a parameter, if it is set and has one.
pub open spec fn first_value(params: ParamMap, key: Seq<char>) -> Option<Seq<char>> {
    if params.contains_key(key) && params[key].len() > 0 {
        Some(params[key][0])
    } else {
        None
    }
}

/// The values of a parameter, none if it is not set.
pub open spec fn values_of(params: ParamMap, key: Seq<char>) -> Seq<Seq<char>> {
    if params.contains_key(key) {
        params[key]
    } else {
        seq![]
    }
}

fn copy_strings(values: &Vec<String>) -> (out: Vec<String>)
    ensures
        views(out@) == views(values@),
{
    let mut out: Vec<String> = Vec::new();
    let mut i: usize = 0;
    while i < values.len()
        invariant
            i <= values.len(),
            views(out@) == views(values@).take(i as int),
        decreases values.len() - i,
    {
        let ghost before = views(out@);
        out.push(values[i].clone());
        assert(views(out@) == before.push(values@[i as int]@));
        assert(views(values@).take(i + 1) == views(values@).take(i as int).push(
            values@[i as int]@,
        ));
        i += 1;
    }
    assert(views(values@).take(values.len() as int) == views(values@));
    out
}

fn all_of(params: &Params, key: &str) -> (r: Vec<String>)
    ensures
        views(r@) == values_of(params@, key@),
{
    match params.get(key) {
        Some(v) => copy_strings(v),
        None => {
            let none: Vec<String> = Vec::new();
            assert(views(none@) =~= Seq::<Seq<char>>::empty());
            none
        },
    }
}

/// The image to run: an override where one is given, else the configured
/// name, with `:` and the digest where there is a fingerprint. Nothing
/// where no name is configured, override or not.
pub open spec fn image_of(
    params: ParamMap,
    ctx_sha: Option<Seq<char>>,
    override_image: Option<Seq<char>>,
) -> Option<Seq<char>> {
    match first_value(params, "gw_container"@) {
        None => None,
        Some(base) => match override_image {
            Some(image) => Some(image),
            None => match ctx_sha {
                Some(sha) => Some(base + ":"@ + sha),
                None => Some(base),
            },
        },
    }
}

/// The image to run.
pub fn select_image(params: &Params, ctx_sha: Option<&str>, override_image: Option<&str>) -> (r:
    Result<String, String>)
    ensures
        match r {
            Ok(image) => image_of(params@, opt_str(ctx_sha), opt_str(override_image)) == Some(
                image@,
            ),
            Err(e) => image_of(params@, opt_str(ctx_sha), opt_str(override_image)) is None && e@
                == NO_IMAGE_ERROR@,
        },
{
    let mut image = match params.first("gw_container") {
        Some(base) => base.clone(),
        None => {
            return Err(NO_IMAGE_ERROR.to_owned());
        },
    };
    if let Some(sha) = ctx_sha {
        image.append(":");
        image.append(sha);
    }
    if let Some(override_image) = override_image {
        image = override_image.to_owned();
    }
    Ok(image)
}

/// The image to build before running, where a build is asked for.
pub fn rebuild_plan(rebuild: bool, image: &str) -> (r: Option<String>)
    ensures
        match r {
            Some(target) => rebuild && target@ == image@,
            None => !rebuild,
        },
{
    if rebuild {
        Some(image.to_owned())
    } else {
        None
    }
}

/// The digest that counts: a forced one in place of the computed one. A
/// digest can be forced only where the configuration has a fingerprint.
pub fn resolve_ctx_sha(computed: Option<String>, forced: &Option<String>) -> (r: Result<
    Option<String>,
    String,
>)
    ensures
        match r {
            Ok(sha) => opt_text(sha) == (if forced is Some {
                opt_text(*forced)
            } else {
                opt_text(computed)
            }) && !(forced is Some && computed is None),
            Err(e) => forced is Some && computed is None && e@ == NO_CONTEXT_ERROR@,
        },
{
    match forced {
        Some(sha) => {
            if computed.is_none() {
                return Err(NO_CONTEXT_ERROR.to_owned());
            }
            Ok(Some(sha.clone()))
        },
        None => Ok(computed),
    }
}

/// The digest to print, or the error where there is none.
pub fn context_to_print(ctx_sha: &Option<String>) -> (r: Result<String, String>)
    ensures
        match r {
            Ok(sha) => *ctx_sha matches Some(s) && sha@ == s@,
            Err(e) => *ctx_sha is None && e@ == NO_CONTEXT_ERROR@,
        },
{
    match ctx_sha {
        Some(sha) => Ok(sha.clone()),
        None => Err(NO_CONTEXT_ERROR.to_owned()),
    }
}

/// Whether a character may stand in a host name as it is.
pub open spec fn is_host_char(c: char) -> bool {
    ('0' <= c && c <= '9') || ('a' <= c && c <= 'z') || ('A' <= c && c <= 'Z') || c == '-'
}

/// `s` with `-` in place of every character that may not stand in a host
/// name.
pub open spec fn host_chars(s: Seq<char>) -> Seq<char> {
    Seq::new(
        s.len(),
        |i: int|
            if is_host_char(s[i]) {
                s[i]
            } else {
                '-'
            },
    )
}

/// The host name for an image: what stands after its last `/`, with `-` in
/// place of every character that is neither an ASCII letter nor a digit,
/// cut to 63 characters.
pub open spec fn hostname_of(image: Seq<char>) -> Seq<char> {
    let name = host_chars(file_name_of(image));
    if name.len() > HOSTNAME_MAX {
        name.take(HOSTNAME_MAX as int)
    } else {
        name
    }
}

/// The host name for the image `image`.
pub fn mkhostname(image: &str) -> (out: String)
    ensures
        out@ == hostname_of(image@),
{
    let chars = chars_of(image);
    let base = file_name(&chars);
    let mut out: Vec<char> = Vec::new();
    let mut i: usize = 0;
    while i < base.len() && i < HOSTNAME_MAX
        invariant
            i <= base.len(),
            i <= HOSTNAME_MAX,
            out@ == host_chars(base@).take(i as int),
        decreases base.len() - i,
    {
        let c = char_at(&base, i);
        let ok = ('0' <= c && c <= '9') || ('a' <= c && c <= 'z') || ('A' <= c && c <= 'Z') || c
            == '-';
        if ok {
            out.push(c);
        } else {
            out.push('-');
        }
        assert(out@ =~= host_chars(base@).take(i + 1));
        i += 1;
    }
    assert(host_chars(base@).len() <= HOSTNAME_MAX ==> host_chars(base@).take(i as int)
        == host_chars(base@));
    string_of(&out)
}

/// What an extra share stands for: the value of the variable that it names
/// with a leading `$`, nothing where that variable is not set; else itself.
pub open spec fn share_of(value: Seq<char>, env: Bindings) -> Option<Seq<char>> {
    if value.len() > 0 && value[0] == '$' {
        lookup(env, value.drop_first())
    } else {
        Some(value)
    }
}

/// What the extra share `value` stands for under the environment `env`.
pub fn expand_share(value: &str, env: &EnvMap) -> (r: Option<String>)
    ensures
        opt_text(r) == share_of(value@, env@),
{
    match strip_prefix(value, "$") {
        Some(name) => {
            proof {
                reveal_strlit("$");
                assert(value@.skip(1) == value@.drop_first());
                assert(value@.take(1)[0] == value@[0]);
            }
            match env.get(name.as_str()) {
                Some(v) => Some(v.clone()),
                None => None,
            }
        },
        None => {
            proof {
                reveal_strlit("$");
                if value@.len() > 0 && value@[0] == '$' {
                    assert(value@.take(1) =~= "$"@);
                }
            }
            Some(value.to_owned())
        },
    }
}

/// The options of a share: the pieces of its third part between commas
/// that are not empty; none without a third part.
pub open spec fn share_options_of(parts: Seq<Seq<char>>) -> Seq<Seq<char>> {
    if parts.len() >= 3 {
        non_empty(split_on(parts[2], ','))
    } else {
        seq![]
    }
}

/// The target of a share: its second part, or its source where it has only
/// one part.
pub open spec fn share_target_of(parts: Seq<Seq<char>>, root_dir: Seq<char>) -> Seq<char> {
    if parts.len() >= 2 {
        parts[1]
    } else {
        abs_path_of(parts[0], root_dir)
    }
}

fn strings_of_non_empty(pieces: &Vec<Vec<char>>) -> (out: Vec<String>)
    ensures
        views(out@) == non_empty(vec_views(pieces@)),
{
    let mut out: Vec<String> = Vec::new();
    let ghost all = vec_views(pieces@);
    let mut i: usize = 0;
    assert(views(out@) =~= non_empty(all.take(0)));
    while i < pieces.len()
        invariant
            i <= pieces.len(),
            all == vec_views(pieces@),
            views(out@) == non_empty(all.take(i as int)),
        decreases pieces.len() - i,
    {
        let ghost before = views(out@);
        assert(all.take(i + 1).drop_last() == all.take(i as int));
        assert(all.take(i + 1).last() == pieces@[i as int]@);
        if pieces[i].len() > 0 {
            out.push(string_of(&pieces[i]));
            assert(views(out@) == before.push(pieces@[i as int]@));
        }
        i += 1;
    }
    assert(all.take(pieces.len() as int) == all);
    out
}

/// The mount for a share `source[:target[:option,...]]`, read-write; a
/// source that is not absolute is seen from `root_dir`.
pub fn parse_share(share: &str, root_dir: &str) -> (r: Option<Mount>)
    ensures
        r matches Some(mount) && {
            let parts = split_on(share@, ':');
            &&& mount.source@ == abs_path_of(parts[0], root_dir@)
            &&& mount.target@ == share_target_of(parts, root_dir@)
            &&& !mount.read_only
            &&& views(mount.options@) == share_options_of(parts)
        },
{
    let chars = chars_of(share);
    let parts = split_chars(&chars, ':');
    let ghost texts = vec_views(parts@);
    assert(texts.len() == parts.len());
    proof {
        crate::text::lemma_first_index(share@, ':');
    }
    assert(parts.len() >= 1);
    assert(texts[0] == parts@[0]@);
    let first = string_of(&parts[0]);
    let source = abs_path(first.as_str(), root_dir);
    if parts.len() == 1 {
        let none: Vec<String> = Vec::new();
        assert(views(none@) =~= Seq::<Seq<char>>::empty());
        return Some(Mount { source: source.clone(), target: source, read_only: false, options: none });
    }
    assert(texts[1] == parts@[1]@);
    let target = string_of(&parts[1]);
    let options = if parts.len() >= 3 {
        assert(texts[2] == parts@[2]@);
        let pieces = split_chars(&parts[2], ',');
        strings_of_non_empty(&pieces)
    } else {
        let none: Vec<String> = Vec::new();
        assert(views(none@) =~= Seq::<Seq<char>>::empty());
        none
    };
    Some(Mount { source, target, read_only: false, options })
}

/// A mount of `path` onto itself, read-write and without options.
pub fn same_path_mount(path: &str) -> (mount: Mount)
    ensures
        mount.source@ == path@,
        mount.target@ == path@,
        !mount.read_only,
        mount.options@.len() == 0,
{
    Mount { source: path.to_owned(), target: path.to_owned(), read_only: false, options: Vec::new() }
}

/// The home directory that the agent makes for the user `user`.
pub open spec fn home_of(user: Seq<char>) -> Seq<char> {
    "/tmp/dr-tmp-home-"@ + user + "/"@ + user
}

/// The home directory that the agent makes for the user `user`.
pub fn build_home(user: &str) -> (home: String)
    ensures
        home@ == home_of(user@),
{
    let mut home = String::new();
    home.append("/tmp/dr-tmp-home-");
    home.append(user);
    home.append("/");
    home.append(user);
    assert(home@ =~= home_of(user@));
    home
}

/// The value of a variable where it is set to something.
pub open spec fn set_to_something(env: Bindings, name: Seq<char>) -> Option<Seq<char>> {
    match lookup(env, name) {
        Some(v) => if v.len() > 0 {
            Some(v)
        } else {
            None
        },
        None => None,
    }
}

/// The caller's name: `USER` where it is set to something, else `LOGNAME`
/// where that is, else the name that the account database has for the
/// caller where it has one, else the caller's number.
pub open spec fn username_of(env: Bindings, account_name: Option<Seq<char>>, uid: u32) -> Seq<
    char,
> {
    match set_to_something(env, "USER"@) {
        Some(name) => name,
        None => match set_to_something(env, "LOGNAME"@) {
            Some(name) => name,
            None => match account_name {
                Some(name) => if name.len() > 0 {
                    name
                } else {
                    decimal_of(uid as nat)
                },
                None => decimal_of(uid as nat),
            },
        },
    }
}

fn set_value(env: &EnvMap, name: &str) -> (r: Option<String>)
    ensures
        opt_text(r) == set_to_something(env@, name@),
{
    match env.get(name) {
        Some(v) => {
            if str_eq(v.as_str(), "") {
                proof {
                    reveal_strlit("");
                }
                None
            } else {
                proof {
                    reveal_strlit("");
                    if v@.len() == 0 {
                        assert(v@ =~= ""@);
                    }
                }
                Some(v.clone())
            }
        },
        None => None,
    }
}

/// The caller's name, given the environment `env` and the name that the
/// account database has for `uid`.
pub fn resolve_username(uid: u32, env: &EnvMap, account_name: &Option<String>) -> (name: String)
    ensures
        name@ == username_of(env@, opt_text(*account_name), uid),
{
    if let Some(name) = set_value(env, "USER") {
        return name;
    }
    if let Some(name) = set_value(env, "LOGNAME") {
        return name;
    }
    if let Some(name) = account_name {
        if !str_eq(name.as_str(), "") {
            proof {
                reveal_strlit("");
                if name@.len() == 0 {
                    assert(name@ =~= ""@);
                }
            }
            return name.clone();
        }
        proof {
            reveal_strlit("");
        }
    }
    decimal(uid as u64)
}

/// Where the environment is to be kept, before links are resolved: the
/// first value of `persist_environment`, seen from the project root.
pub fn persist_candidate(params: &Params, root_dir: &str) -> (r: Option<String>)
    ensures
        opt_text(r) == match first_value(params@, "persist_environment"@) {
            Some(path) => Some(abs_path_of(path, root_dir@)),
            None => None,
        },
{
    match params.first("persist_environment") {
        Some(path) => Some(abs_path(path.as_str(), root_dir)),
        None => None,
    }
}

/// The message for the agent. `user_name` is the caller's name,
/// `persist_path` the place where the environment is kept, if it is, with
/// links resolved.
#[allow(clippy::too_many_arguments)]
pub fn build_internal_spec(
    root_dir: &str,
    workdir: String,
    command: Vec<String>,
    env_overrides: EnvMap,
    params: &Params,
    terminfo: Option<TerminfoSpec>,
    extra_shell: Option<String>,
    uid: u32,
    gid: u32,
    user_name: String,
    persist_path: Option<String>,
) -> (spec: InternalSpec)
    ensures
        spec.protocol_version == INTERNAL_SPEC_VERSION,
        spec.workdir == workdir,
        spec.root_dir@ == root_dir@,
        spec.user.name == user_name,
        spec.user.uid == uid,
        spec.user.gid == gid,
        spec.user.home@ == home_of(user_name@),
        spec.env_overrides == env_overrides,
        match spec.persist_env {
            Some(persist) => persist_path matches Some(path) && persist.path == path
                && persist.restore && persist.save,
            None => persist_path is None,
        },
        spec.terminfo == terminfo,
        spec.command == command,
        spec.shell is None,
        spec.extra_shell == extra_shell,
        views(spec.prefix_cmd@) == values_of(params@, "prefix_cmd"@),
        views(spec.prefix_cmd_quiet@) == values_of(params@, "prefix_cmd_quiet"@),
{
    let user_home = build_home(user_name.as_str());
    let persist_env = match persist_path {
        Some(path) => Some(PersistEnvSpec { path, restore: true, save: true }),
        None => None,
    };
    InternalSpec {
        protocol_version: INTERNAL_SPEC_VERSION,
        workdir,
        root_dir: root_dir.to_owned(),
        user: UserSpec { name: user_name, uid, gid, home: user_home },
        env_overrides,
        persist_env,
        terminfo,
        command,
        shell: None,
        extra_shell,
        prefix_cmd: all_of(params, "prefix_cmd"),
        prefix_cmd_quiet: all_of(params, "prefix_cmd_quiet"),
    }
}

/// Where the project is mounted and where the command starts: the project
/// root and the caller's directory; a configured mount target moves both;
/// a configured start directory moves the second only.
pub fn plan_workdir(params: &Params, root_dir: &str, orig_cwd: &str) -> (r: (String, String))
    ensures
        r.0@ == match first_value(params@, "mount_to"@) {
            Some(target) => target,
            None => root_dir@,
        },
        r.1@ == match first_value(params@, "cd_to"@) {
            Some(dir) => dir,
            None => match first_value(params@, "mount_to"@) {
                Some(target) => target,
                None => orig_cwd@,
            },
        },
{
    let mut mount_target = root_dir.to_owned();
    let mut cd_to = orig_cwd.to_owned();
    if let Some(mount_to) = params.first("mount_to") {
        mount_target = mount_to.clone();
        cd_to = mount_to.clone();
    }
    if let Some(cd_override) = params.first("cd_to") {
        cd_to = cd_override.clone();
    }
    (mount_target, cd_to)
}

/// The bindings after the variables named in `keys` that `env` has are
/// copied over, in order.
pub open spec fn copied_over(acc: Bindings, keys: Seq<Seq<char>>, env: Bindings) -> Bindings
    decreases keys.len(),
{
    if keys.len() == 0 {
        acc
    } else {
        let before = copied_over(acc, keys.drop_last(), env);
        match lookup(env, keys.last()) {
            Some(v) => bind(before, keys.last(), v),
            None => before,
        }
    }
}

/// The variables that the launcher sets for the command: the project root
/// always; the terminal type where the launcher is attached to a terminal
/// and `TERM` is set; and every variable that the configuration names and
/// the caller's environment has.
pub open spec fn host_overrides_of(
    root_dir: Seq<char>,
    tty: bool,
    params: ParamMap,
    env: Bindings,
) -> Bindings {
    let base = bind(seq![], "GW_BUILD_ROOT"@, root_dir);
    let with_term = match lookup(env, "TERM"@) {
        Some(term) => if tty {
            bind(base, "TERM"@, term)
        } else {
            base
        },
        None => base,
    };
    copied_over(with_term, values_of(params, "env_overrides"@), env)
}

/// The variables that the launcher sets for the command.
pub fn host_env_overrides(root_dir: &str, tty: bool, params: &Params, env: &EnvMap) -> (r: EnvMap)
    ensures
        r@ == host_overrides_of(root_dir@, tty, params@, env@),
{
    let mut overrides = EnvMap::new();
    overrides.insert("GW_BUILD_ROOT".to_owned(), root_dir.to_owned());
    if tty {
        if let Some(term) = env.get("TERM") {
            overrides.insert("TERM".to_owned(), term.clone());
        }
    }
    let ghost start = overrides@;
    match params.get("env_overrides") {
        Some(keys) => {
            let ghost ks = views(keys@);
            let mut i: usize = 0;
            while i < keys.len()
                invariant
                    i <= keys.len(),
                    ks == views(keys@),
                    overrides@ == copied_over(start, ks.take(i as int), env@),
                decreases keys.len() - i,
            {
                assert(ks.take(i + 1).drop_last() == ks.take(i as int));
                assert(ks.take(i + 1).last() == keys@[i as int]@);
                if let Some(val) = env.get(keys[i].as_str()) {
                    overrides.insert(keys[i].clone(), val.clone());
                }
                i += 1;
            }
            assert(ks.take(keys.len() as int) == ks);
        },
        None => {},
    }
    overrides
}

/// The mounts for the extra shares `shares`, in order; a share that names
/// a variable which is not set gives none.
pub open spec fn share_sources(shares: Seq<Seq<char>>, env: Bindings) -> Seq<Seq<char>>
    decreases shares.len(),
{
    if shares.len() == 0 {
        seq![]
    } else {
        let before = share_sources(shares.drop_last(), env);
        match share_of(shares.last(), env) {
            Some(share) => before.push(share),
            None => before,
        }
    }
}

/// The shares that the configuration asks for, with the variables that
/// they name replaced by their values.
pub fn expand_shares(params: &Params, env: &EnvMap) -> (r: Vec<String>)
    ensures
        views(r@) == share_sources(values_of(params@, "extra_shares"@), env@),
{
    let mut out: Vec<String> = Vec::new();
    match params.get("extra_shares") {
        Some(shares) => {
            let ghost ss = views(shares@);
            let mut i: usize = 0;
            assert(views(out@) =~= share_sources(ss.take(0), env@));
            while i < shares.len()
                invariant
                    i <= shares.len(),
                    ss == views(shares@),
                    views(out@) == share_sources(ss.take(i as int), env@),
                decreases shares.len() - i,
            {
                let ghost before = views(out@);
                assert(ss.take(i + 1).drop_last() == ss.take(i as int));
                assert(ss.take(i + 1).last() == shares@[i as int]@);
                match expand_share(shares[i].as_str(), env) {
                    Some(share) => {
                        let ghost text = share@;
                        out.push(share);
                        assert(views(out@) == before.push(text));
                    },
                    None => {},
                }
                i += 1;
            }
            assert(ss.take(shares.len() as int) == ss);
        },
        None => {
            assert(views(out@) =~= Seq::<Seq<char>>::empty());
        },
    }
    out
}

/// The mounts of a launch, in the order in which the engine gets them: the
/// project root, the extra shares, the version-control directory where one
/// is shared, the extra shell script, and the agent, read-only, last.
pub fn assemble_mounts(
    root_dir: &str,
    mount_target: &str,
    shares: Vec<Mount>,
    git_mount: Option<Mount>,
    extra_shell: &Option<String>,
    agent_source: String,
    agent_target: String,
) -> (mounts: Vec<Mount>)
    ensures
        mounts@.len() == 1 + shares@.len() + (if git_mount is Some {
            1int
        } else {
            0int
        }) + (if extra_shell is Some {
            1int
        } else {
            0int
        }) + 1,
        mounts@[0].source@ == root_dir@ && mounts@[0].target@ == mount_target@
            && !mounts@[0].read_only && mounts@[0].options@.len() == 0,
        forall|i: int| 0 <= i < shares@.len() ==> mounts@[1 + i] == shares@[i],
        git_mount matches Some(m) ==> mounts@[1 + shares@.len() as int] == m,
        *extra_shell matches Some(path) ==> {
            let m = mounts@[mounts@.len() - 2];
            m.source@ == path@ && m.target@ == path@ && !m.read_only && m.options@.len() == 0
        },
        mounts@.last().source == agent_source && mounts@.last().target == agent_target
            && mounts@.last().read_only && mounts@.last().options@.len() == 0,
{
    let mut mounts: Vec<Mount> = Vec::new();
    mounts.push(
        Mount {
            source: root_dir.to_owned(),
            target: mount_target.to_owned(),
            read_only: false,
            options: Vec::new(),
        },
    );
    let mut shares = shares;
    let ghost listed = shares@;
    mounts.append(&mut shares);
    assert(mounts@ =~= seq![mounts@[0]] + listed);
    match git_mount {
        Some(m) => {
            mounts.push(m);
        },
        None => {},
    }
    match extra_shell {
        Some(path) => {
            mounts.push(same_path_mount(path.as_str()));
        },
        None => {},
    }
    mounts.push(
        Mount { source: agent_source, target: agent_target, read_only: true, options: Vec::new() },
    );
    mounts
}

/// The arguments handed through to the engine: those given by flag, then
/// the configured ones, then those given before the delimiter.
pub fn merge_extra_args(
    cli_extra: &Vec<String>,
    config_extra: &Vec<String>,
    runtime_args: &Vec<String>,
) -> (r: Vec<String>)
    ensures
        views(r@) == views(cli_extra@) + views(config_extra@) + views(runtime_args@),
{
    let mut out = copy_strings(cli_extra);
    let mut second = copy_strings(config_extra);
    let mut third = copy_strings(runtime_args);
    let ghost a = views(out@);
    let ghost b = views(second@);
    let ghost c = views(third@);
    out.append(&mut second);
    assert(views(out@) =~= a + b);
    out.append(&mut third);
    assert(views(out@) =~= a + b + c);
    out
}

/// What the engine is asked to run: the image under the host name made of
/// its name, as root, privileged, with an init process, removed at the end,
/// with standard input open; the agent as entrypoint, told to act as agent;
/// and the message for the agent in its one variable.
pub fn build_container_spec(
    image: String,
    mounts: Vec<Mount>,
    internal_spec_json: String,
    tty: bool,
    params: &Params,
    agent_path: String,
    extra_args: Vec<String>,
) -> (spec: ContainerSpec)
    ensures
        spec.image == image,
        opt_text(spec.hostname) == Some(hostname_of(image@)),
        spec.mounts == mounts,
        spec.env@ == bind(seq![], SPEC_ENV@, internal_spec_json@),
        spec.workdir is None,
        opt_text(spec.user) == Some("root"@),
        views(spec.extra_hosts@) == values_of(params@, "extra_hosts"@),
        spec.privileged && spec.init && spec.remove && spec.interactive,
        spec.tty == tty,
        spec.entrypoint matches Some(words) && words@.len() == 1 && words@[0] == agent_path,
        views(spec.command@) == seq!["agent"@],
        spec.extra_args == extra_args,
{
    let mut env = EnvMap::new();
    env.insert(SPEC_ENV.to_owned(), internal_spec_json);
    let hostname = mkhostname(image.as_str());
    let mut entrypoint: Vec<String> = Vec::new();
    entrypoint.push(agent_path);
    let mut command: Vec<String> = Vec::new();
    command.push("agent".to_owned());
    assert(views(command@) =~= seq!["agent"@]);
    ContainerSpec {
        image,
        hostname: Some(hostname),
        mounts,
        env,
        workdir: None,
        user: Some("root".to_owned()),
        extra_hosts: all_of(params, "extra_hosts"),
        privileged: true,
        init: true,
        remove: true,
        interactive: true,
        tty,
        entrypoint: Some(entrypoint),
        command,
        extra_args,
    }
}

/// The mount for a version-control directory that `git` names in
/// `raw_output`: the directory onto itself, unless it lies under the project
/// root, which is mounted anyway.
pub fn git_dir_mount(raw_output: &str, root_dir: &str) -> (r: Option<Mount>)
    ensures
        match r {
            Some(mount) => !crate::paths::lexically_under(
                abs_path_of(trim(raw_output@), root_dir@),
                root_dir@,
            ) && mount.source@ == abs_path_of(trim(raw_output@), root_dir@) && mount.target@
                == mount.source@ && !mount.read_only && mount.options@.len() == 0,
            None => crate::paths::lexically_under(
                abs_path_of(trim(raw_output@), root_dir@),
                root_dir@,
            ),
        },
{
    let raw = chars_of(raw_output);
    let name = string_of(&trimmed(&raw));
    let git_dir = abs_path(name.as_str(), root_dir);
    if crate::paths::starts_with_path(git_dir.as_str(), root_dir) {
        return None;
    }
    Some(same_path_mount(git_dir.as_str()))
}

/// The hook to run before the launch, if one is configured: a command of at
/// least one word.
pub fn hook_command(params: &Params) -> (r: Option<Vec<String>>)
    ensures
        match r {
            Some(argv) => views(argv@) == values_of(params@, "prelaunch_hook"@) && argv@.len() > 0,
            None => values_of(params@, "prelaunch_hook"@).len() == 0,
        },
{
    let argv = all_of(params, "prelaunch_hook");
    assert(views(argv@).len() == argv.len());
    if argv.len() == 0 {
        None
    } else {
        Some(argv)
    }
}

/// What is reported for a hook that ended with `code`.
pub open spec fn hook_failed_error(code: Option<i32>) -> Seq<char> {
    "Error: prelaunch_hook failed (exit "@ + crate::podman_cli::exit_status_text(code) + ")"@
}

/// What the end of the hook means: success for exit code 0, else the error.
pub fn hook_result(code: Option<i32>) -> (r: Result<(), String>)
    ensures
        match r {
            Ok(()) => code == Some(0i32),
            Err(e) => code != Some(0i32) && e@ == hook_failed_error(code),
        },
{
    match code {
        Some(0) => Ok(()),
        _ => {
            let mut message = String::new();
            message.append("Error: prelaunch_hook failed (exit ");
            message.append(crate::podman_cli::format_exit_status(code).as_str());
            message.append(")");
            Err(message)
        },
    }
}

/// What is reported where the terminal database query ended with `code`.
pub open spec fn terminfo_failed_error(code: Option<i32>) -> Seq<char> {
    "Error: infocmp failed (exit "@ + crate::podman_cli::exit_status_text(code) + ")"@
}

/// The description of the terminal `term`, given how the query of the
/// terminal database ended and what it printed.
pub fn load_terminfo(term: &str, code: Option<i32>, output: Vec<u8>) -> (r: Result<
    TerminfoSpec,
    String,
>)
    ensures
        match r {
            Ok(info) => code == Some(0i32) && info.term@ == term@ && info.data == output,
            Err(e) => code != Some(0i32) && e@ == terminfo_failed_error(code),
        },
{
    match code {
        Some(0) => Ok(TerminfoSpec { term: term.to_owned(), data: output }),
        _ => {
            let mut message = String::new();
            message.append("Error: infocmp failed (exit ");
            message.append(crate::podman_cli::format_exit_status(code).as_str());
            message.append(")");
            Err(message)
        },
    }
}

/// Where the agent goes in the container, and where on the host it is
/// looked for first.
#[derive(Debug, Clone)]
pub struct AgentHint {
    /// The agent's place in the container.
    pub target: String,
    /// The first place to look at on the host.
    pub hint: String,
    /// Whether links in `hint` are to be resolved before it is looked at.
    pub resolve_links: bool,
}

/// Where the agent goes and where it is looked for first: an absolute
/// override is both; a relative one is seen from the mount target for the
/// one and from the project root for the other; without an override both
/// are the default place.
pub fn agent_hint(agent_override: Option<&str>, root_dir: &str, mount_target: &str) -> (r:
    AgentHint)
    ensures
        match agent_override {
            Some(value) => if is_absolute(value@) {
                r.target@ == value@ && r.hint@ == value@ && !r.resolve_links
            } else {
                r.target@ == abs_path_of(value@, mount_target@) && r.hint@ == abs_path_of(
                    value@,
                    root_dir@,
                ) && r.resolve_links
            },
            None => r.target@ == DEFAULT_AGENT_PATH@ && r.hint@ == DEFAULT_AGENT_PATH@
                && !r.resolve_links,
        },
{
    match agent_override {
        Some(value) => {
            let chars = chars_of(value);
            if chars.len() > 0 && char_at(&chars, 0) == '/' {
                AgentHint { target: value.to_owned(), hint: value.to_owned(), resolve_links: false }
            } else {
                AgentHint {
                    target: abs_path(value, mount_target),
                    hint: abs_path(value, root_dir),
                    resolve_links: true,
                }
            }
        },
        None => AgentHint {
            target: DEFAULT_AGENT_PATH.to_owned(),
            hint: DEFAULT_AGENT_PATH.to_owned(),
            resolve_links: false,
        },
    }
}

/// What a search for the agent on the host found.
#[derive(Debug, Clone)]
pub struct AgentSearch {
    /// The hinted place, where it holds a regular file.
    pub hinted: Option<String>,
    /// The binary built for the container's C library, where there is one.
    pub musl: Option<String>,
    /// The binary beside the running launcher, where there is one.
    pub adjacent: Option<String>,
    /// The first binary on the search path, where there is one.
    pub in_path: Option<String>,
}

/// The first of two optional values that is there.
pub open spec fn or_else(a: Option<Seq<char>>, b: Option<Seq<char>>) -> Option<Seq<char>> {
    if a is Some {
        a
    } else {
        b
    }
}

/// The agent binary to mount: with an override the hinted place comes
/// first and the built binary second, without one the other way round; then
/// the binary beside the launcher, then the one on the search path.
pub open spec fn agent_source_of(has_override: bool, found: AgentSearch) -> Option<Seq<char>> {
    let first = if has_override {
        or_else(opt_text(found.hinted), opt_text(found.musl))
    } else {
        or_else(opt_text(found.musl), opt_text(found.hinted))
    };
    or_else(or_else(first, opt_text(found.adjacent)), opt_text(found.in_path))
}

/// What is reported where the agent is nowhere on the host.
pub open spec fn agent_missing_error(hint: Seq<char>) -> Seq<char> {
    "Error: failed to locate giftwrap on host (checked "@ + hint
        + ", musl target, giftwrap-adjacent, and PATH). Build giftwrap (musl) or set gw_agent to a valid host path."@
}

fn pick(a: &Option<String>, b: &Option<String>) -> (r: Option<String>)
    ensures
        opt_text(r) == or_else(opt_text(*a), opt_text(*b)),
{
    match a {
        Some(v) => Some(v.clone()),
        None => match b {
            Some(v) => Some(v.clone()),
            None => None,
        },
    }
}

/// The mount of the agent: the binary found on the host and its place in
/// the container; or the error, which names the hinted place, where the
/// search found nothing.
pub fn resolve_giftwrap_mount(has_override: bool, hint: &AgentHint, found: &AgentSearch) -> (r:
    Result<(String, String), String>)
    ensures
        match r {
            Ok((source, target)) => agent_source_of(has_override, *found) == Some(source@)
                && target@ == hint.target@,
            Err(e) => agent_source_of(has_override, *found) is None && e@ == agent_missing_error(
                hint.hint@,
            ),
        },
{
    let first = if has_override {
        pick(&found.hinted, &found.musl)
    } else {
        pick(&found.musl, &found.hinted)
    };
    let second = pick(&first, &found.adjacent);
    match pick(&second, &found.in_path) {
        Some(source) => Ok((source, hint.target.clone())),
        None => {
            let mut message = String::new();
            message.append("Error: failed to locate giftwrap on host (checked ");
            message.append(hint.hint.as_str());
            message.append(
                ", musl target, giftwrap-adjacent, and PATH). Build giftwrap (musl) or set gw_agent to a valid host path.",
            );
            Err(message)
        },
    }
}

/// The build directory of the preferred target: that of the machine's
/// architecture with the container's C library.
pub open spec fn preferred_target_of(root_dir: Seq<char>, arch: Seq<char>) -> Seq<char> {
    abs_path_of(arch + "-unknown-linux-musl"@, abs_path_of("target"@, root_dir))
}

/// The build directory of the preferred target.
pub fn preferred_target(root_dir: &str, arch: &str) -> (r: String)
    ensures
        r@ == preferred_target_of(root_dir@, arch@),
{
    let target_root = abs_path("target", root_dir);
    let mut name = String::new();
    name.append(arch);
    name.append("-unknown-linux-musl");
    abs_path(name.as_str(), target_root.as_str())
}

/// The binary `binary` in the build directory `target_dir`: the debug
/// build where that is a regular file, else the release build where that
/// is.
pub fn find_musl_binary_in_target(
    target_dir: &str,
    binary: &str,
    debug_is_file: bool,
    release_is_file: bool,
) -> (r: Option<String>)
    ensures
        match r {
            Some(path) => if debug_is_file {
                path@ == abs_path_of(binary@, abs_path_of("debug"@, target_dir@))
            } else {
                release_is_file && path@ == abs_path_of(
                    binary@,
                    abs_path_of("release"@, target_dir@),
                )
            },
            None => !debug_is_file && !release_is_file,
        },
{
    if debug_is_file {
        return Some(abs_path(binary, abs_path("debug", target_dir).as_str()));
    }
    if release_is_file {
        return Some(abs_path(binary, abs_path("release", target_dir).as_str()));
    }
    None
}

/// Whether the build directory `dir` is looked at after the preferred one:
/// its name ends with `linux-musl` and it is not the preferred one.
pub open spec fn is_other_musl_target(dir: Seq<char>, preferred: Seq<char>) -> bool {
    dir != preferred && crate::text::ends_with(file_name_of(dir), "linux-musl"@)
}

/// Whether the build directory `dir` is looked at after the preferred one.
pub fn other_musl_target(dir: &str, preferred: &str) -> (r: bool)
    ensures
        r == is_other_musl_target(dir@, preferred@),
{
    if str_eq(dir, preferred) {
        return false;
    }
    let chars = chars_of(dir);
    let name = file_name(&chars);
    let suffix = chars_of("linux-musl");
    if suffix.len() > name.len() {
        return false;
    }
    let tail = crate::text::slice_of(&name, name.len() - suffix.len(), name.len());
    crate::text::same_chars(&tail, &suffix)
}

/// What the launcher does once the command line, the configuration and the
/// fingerprint are known.
#[derive(Debug, Clone, PartialEq, Eq)]
pub enum Prelude {
    /// Print the line and stop.
    Print(String),
    /// Print the parameters and stop.
    ShowConfig,
    /// Print the help text and stop.
    Help,
    /// Go on to launch.
    Launch {
        /// The image to run.
        image: String,
        /// The hook to run first, if there is one.
        hook: Option<Vec<String>>,
        /// The image to build after the hook, if a build is asked for.
        rebuild: Option<String>,
        /// Whether the invocation is printed in place of being made.
        print_only: bool,
    },
}

/// `Prelude` as a mathematical value.
pub enum PreludeView {
    Print(Seq<char>),
    ShowConfig,
    Help,
    Launch { image: Seq<char>, hook: Option<Seq<Seq<char>>>, rebuild: Option<Seq<char>>, print_only: bool },
}

/// The view of an optional list of strings.
pub open spec fn opt_views(v: Option<Vec<String>>) -> Option<Seq<Seq<char>>> {
    match v {
        Some(list) => Some(views(list@)),
        None => None,
    }
}

impl View for Prelude {
    type V = PreludeView;

    open spec fn view(&self) -> PreludeView {
        match *self {
            Prelude::Print(line) => PreludeView::Print(line@),
            Prelude::ShowConfig => PreludeView::ShowConfig,
            Prelude::Help => PreludeView::Help,
            Prelude::Launch { image, hook, rebuild, print_only } => PreludeView::Launch {
                image: image@,
                hook: opt_views(hook),
                rebuild: opt_text(rebuild),
                print_only,
            },
        }
    }
}

/// The digest that counts: the forced one where one is forced.
pub open spec fn digest_in_force(computed: Option<Seq<char>>, forced: Option<Seq<char>>) -> Option<
    Seq<char>,
> {
    if forced is Some {
        forced
    } else {
        computed
    }
}

/// What the launcher does, in the order in which it decides: a forced
/// digest without a fingerprint is refused; the digest is printed if asked
/// for, and it is an error to ask where there is none; then the image is
/// chosen, and printed if asked for; then the parameters or the help are
/// shown if asked for; else the launch goes on, with the hook and the build
/// that are to come first.
pub open spec fn prelude_of(
    action: crate::cli::CliAction,
    forced: Option<Seq<char>>,
    override_image: Option<Seq<char>>,
    rebuild: bool,
    params: ParamMap,
    computed: Option<Seq<char>>,
) -> Result<PreludeView, Seq<char>> {
    let sha = digest_in_force(computed, forced);
    if forced is Some && computed is None {
        Err(NO_CONTEXT_ERROR@)
    } else if action == crate::cli::CliAction::PrintContext {
        match sha {
            Some(digest) => Ok(PreludeView::Print(digest)),
            None => Err(NO_CONTEXT_ERROR@),
        }
    } else {
        match image_of(params, sha, override_image) {
            None => Err(NO_IMAGE_ERROR@),
            Some(image) => match action {
                crate::cli::CliAction::PrintImage => Ok(PreludeView::Print(image)),
                crate::cli::CliAction::ShowConfig => Ok(PreludeView::ShowConfig),
                crate::cli::CliAction::Help => Ok(PreludeView::Help),
                _ => Ok(
                    PreludeView::Launch {
                        image,
                        hook: if values_of(params, "prelaunch_hook"@).len() > 0 {
                            Some(values_of(params, "prelaunch_hook"@))
                        } else {
                            None
                        },
                        rebuild: if rebuild {
                            Some(image)
                        } else {
                            None
                        },
                        print_only: action == crate::cli::CliAction::PrintCommand,
                    },
                ),
            },
        }
    }
}

/// What the launcher does, given the flags of the command line, the
/// parameters, and the digest of the fingerprint where the configuration
/// has one.
pub fn prelude(options: &crate::cli::CliOptions, params: &Params, computed: Option<String>) -> (r:
    Result<Prelude, String>)
    ensures
        match r {
            Ok(step) => prelude_of(
                options.action,
                opt_text(options.use_ctx),
                opt_text(options.override_image),
                options.rebuild,
                params@,
                opt_text(computed),
            ) == Ok::<PreludeView, Seq<char>>(step@),
            Err(e) => prelude_of(
                options.action,
                opt_text(options.use_ctx),
                opt_text(options.override_image),
                options.rebuild,
                params@,
                opt_text(computed),
            ) == Err::<PreludeView, Seq<char>>(e@),
        },
{
    let sha = match resolve_ctx_sha(computed, &options.use_ctx) {
        Ok(sha) => sha,
        Err(e) => {
            return Err(e);
        },
    };
    if let crate::cli::CliAction::PrintContext = options.action {
        return match context_to_print(&sha) {
            Ok(digest) => Ok(Prelude::Print(digest)),
            Err(e) => Err(e),
        };
    }
    let sha_text: Option<&str> = match &sha {
        Some(digest) => Some(digest.as_str()),
        None => None,
    };
    let override_text: Option<&str> = match &options.override_image {
        Some(image) => Some(image.as_str()),
        None => None,
    };
    let image = match select_image(params, sha_text, override_text) {
        Ok(image) => image,
        Err(e) => {
            return Err(e);
        },
    };
    match options.action {
        crate::cli::CliAction::PrintImage => Ok(Prelude::Print(image)),
        crate::cli::CliAction::ShowConfig => Ok(Prelude::ShowConfig),
        crate::cli::CliAction::Help => Ok(Prelude::Help),
        crate::cli::CliAction::PrintCommand => {
            let rebuild = rebuild_plan(options.rebuild, image.as_str());
            Ok(Prelude::Launch { image, hook: hook_command(params), rebuild, print_only: true })
        },
        _ => {
            let rebuild = rebuild_plan(options.rebuild, image.as_str());
            Ok(Prelude::Launch { image, hook: hook_command(params), rebuild, print_only: false })
        },
    }
}

/// The terminal whose description is handed on: the one that `TERM` names,
/// where the launcher is attached to a terminal.
pub fn terminal_to_describe(tty: bool, env: &EnvMap) -> (r: Option<String>)
    ensures
        opt_text(r) == if tty {
            lookup(env@, "TERM"@)
        } else {
            None
        },
{
    if !tty {
        return None;
    }
    match env.get("TERM") {
        Some(term) => Some(term.clone()),
        None => None,
    }
}

} // verus!
