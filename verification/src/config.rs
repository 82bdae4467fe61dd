//! The configuration: a file of keys with their values, changed by
//! overrides that the environment carries.

use crate::params::Params;
use crate::text::{
    char_at, chars_of, decimal, decimal_of, lines, lines_of, starts_with, string_of, strip_prefix,
    trim, trimmed, vec_views, views,
};
use crate::words::{parse_error_text, shell_words_of, split_words, UNCLOSED_QUOTE};
use vstd::prelude::*;

verus! {

/// The name under which a configuration file is looked for first.
pub const DOT_CONFIG_NAME: &'static str = ".giftwrap";

/// The name under which a configuration file is looked for second.
pub const CONFIG_NAME: &'static str = "giftwrap";

/// How the name of a variable starts that gives a parameter its values.
pub const ENV_SET_PREFIX: &'static str = "GW_USER_OPT_SET_";

/// How the name of a variable starts that adds values to a parameter.
pub const ENV_ADD_PREFIX: &'static str = "GW_USER_OPT_ADD_";

/// How the name of a variable starts that takes a parameter out.
pub const ENV_DEL_PREFIX: &'static str = "GW_USER_OPT_DEL_";

/// What is reported where a configuration sets both kinds of prefix
/// command.
pub const PREFIX_CONFLICT: &'static str =
    "Error: must specify at most one of prefix_cmd and prefix_cmd_quiet";

/// A configuration and where it was found.
#[derive(Debug)]
pub struct Config {
    /// The directory of the configuration file: the project root.
    pub root_dir: String,
    /// The configuration file.
    pub config_path: String,
    /// The parameters, with the overrides of the environment applied.
    pub params: Params,
    /// The identifier that scopes overrides, without its dashes.
    pub uuid: Option<String>,
}

/// Why a configuration was refused.
#[derive(Debug)]
pub struct ConfigError {
    message: String,
}

impl View for ConfigError {
    type V = Seq<char>;

    closed spec fn view(&self) -> Seq<char> {
        self.message@
    }
}

impl ConfigError {
    /// An error with the given message.
    pub fn new(message: &str) -> (r: ConfigError)
        ensures
            r@ == message@,
    {
        ConfigError { message: message.to_owned() }
    }

    /// The message.
    pub fn to_string(&self) -> (r: String)
        ensures
            r@ == self@,
    {
        self.message.clone()
    }
}

/// What an override does to a key.
#[derive(Clone, Copy, Debug, PartialEq, Eq)]
pub enum EnvOpt {
    Replace,
    Append,
    Delete,
}

/// Parameters as a mathematical value.
pub type ParamMap = Map<Seq<char>, Seq<Seq<char>>>;

/// The places where the configuration file of the directory `dir` may be,
/// the preferred one first.
pub fn config_candidates(dir: &str) -> (r: Vec<String>)
    ensures
        r.len() == 2,
        r@[0]@ == crate::paths::abs_path_of(DOT_CONFIG_NAME@, dir@),
        r@[1]@ == crate::paths::abs_path_of(CONFIG_NAME@, dir@),
{
    let mut r: Vec<String> = Vec::new();
    r.push(crate::paths::abs_path(DOT_CONFIG_NAME, dir));
    r.push(crate::paths::abs_path(CONFIG_NAME, dir));
    r
}

/// The parameters after a line of words: the first word is the key, the
/// others are its values; a line without words says nothing.
pub open spec fn with_entry(m: ParamMap, words: Seq<Seq<char>>) -> ParamMap {
    if words.len() == 0 {
        m
    } else {
        m.insert(words[0], words.skip(1))
    }
}

/// Sets the key that a line of words names to the values that follow it.
pub fn set_config_entry(params: &mut Params, words: Vec<String>)
    ensures
        final(params)@ == with_entry(old(params)@, views(words@)),
{
    let mut words = words;
    let ghost all = views(words@);
    assert(all.len() == words.len());
    if words.len() == 0 {
        return ;
    }
    let values = words.split_off(1);
    assert(views(values@) =~= all.skip(1));
    assert(words@[0]@ == all[0]);
    let key = words.remove(0);
    params.insert(key, values);
}

/// What is reported for a line that cannot be split into words; lines are
/// counted from 1.
pub open spec fn config_line_error(number: nat) -> Seq<char> {
    "Error: failed to parse config line "@ + decimal_of(number) + ": "@ + UNCLOSED_QUOTE@
}

/// The parameters that the lines of a configuration file set, or the error
/// for the first line that cannot be split into words. Blank lines and
/// lines that start with `#` say nothing; a key set twice has the later
/// values.
pub open spec fn config_of_lines(all: Seq<Seq<char>>) -> Result<ParamMap, Seq<char>>
    decreases all.len(),
{
    if all.len() == 0 {
        Ok(Map::empty())
    } else {
        match config_of_lines(all.drop_last()) {
            Err(e) => Err(e),
            Ok(m) => {
                let line = trim(all.last());
                if line.len() == 0 || line[0] == '#' {
                    Ok(m)
                } else {
                    match shell_words_of(line) {
                        None => Err(config_line_error(all.len())),
                        Some(words) => Ok(with_entry(m, words)),
                    }
                }
            },
        }
    }
}

/// The parameters that a configuration file with the text `content` sets.
pub open spec fn config_of_text(content: Seq<char>) -> Result<ParamMap, Seq<char>> {
    config_of_lines(lines_of(content))
}

/// Where the first `n` lines are refused, so are all, with the same error.
pub proof fn lemma_config_lines_prefix(all: Seq<Seq<char>>, n: int)
    requires
        0 <= n <= all.len(),
        config_of_lines(all.take(n)) is Err,
    ensures
        config_of_lines(all) == config_of_lines(all.take(n)),
    decreases all.len() - n,
{
    if n < all.len() {
        assert(all.take(n + 1).drop_last() == all.take(n));
        lemma_config_lines_prefix(all, n + 1);
    } else {
        assert(all.take(n) == all);
    }
}

/// Reads the text of a configuration file.
pub fn parse_config(content: &str) -> (r: Result<Params, ConfigError>)
    ensures
        match r {
            Ok(params) => config_of_text(content@) == Ok::<ParamMap, Seq<char>>(params@),
            Err(e) => config_of_text(content@) == Err::<ParamMap, Seq<char>>(e@),
        },
{
    let chars = chars_of(content);
    let all = lines(&chars);
    let ghost texts = vec_views(all@);
    let mut params = Params::new();
    let mut idx: usize = 0;
    assert(texts.len() == all.len());
    while idx < all.len()
        invariant
            idx <= all.len(),
            texts == vec_views(all@),
            texts == lines_of(content@),
            config_of_lines(texts.take(idx as int)) == Ok::<ParamMap, Seq<char>>(params@),
        decreases all.len() - idx,
    {
        assert(texts.take(idx + 1).drop_last() == texts.take(idx as int));
        assert(texts.take(idx + 1).last() == all@[idx as int]@);
        let line = trimmed(&all[idx]);
        if !(line.len() == 0 || char_at(&line, 0) == '#') {
            let text = string_of(&line);
            match split_words(text.as_str()) {
                Ok(words) => {
                    set_config_entry(&mut params, words);
                },
                Err(error) => {
                    let mut message = String::new();
                    message.append("Error: failed to parse config line ");
                    message.append(decimal((idx + 1) as u64).as_str());
                    message.append(": ");
                    message.append(parse_error_text(&error).as_str());
                    proof {
                        assert(config_of_lines(texts.take(idx + 1)) == Err::<
                            ParamMap,
                            Seq<char>,
                        >(message@));
                        lemma_config_lines_prefix(texts, idx + 1);
                    }
                    return Err(ConfigError::new(message.as_str()));
                },
            }
        }
        idx += 1;
    }
    assert(texts.take(all.len() as int) == texts);
    Ok(params)
}

/// What the environment variable `key` asks for: nothing unless its name
/// starts with one of the three override prefixes; else the operation and
/// the parameter that it names. A name that goes on with `UUID_` is scoped:
/// it asks for something only where the configuration has an identifier and
/// the name goes on with that identifier and `_`.
pub open spec fn env_opt_of(key: Seq<char>, uuid: Option<Seq<char>>) -> Option<
    (EnvOpt, Seq<char>),
> {
    if starts_with(key, ENV_SET_PREFIX@) {
        scoped_opt(EnvOpt::Replace, key.skip(ENV_SET_PREFIX@.len() as int), uuid)
    } else if starts_with(key, ENV_ADD_PREFIX@) {
        scoped_opt(EnvOpt::Append, key.skip(ENV_ADD_PREFIX@.len() as int), uuid)
    } else if starts_with(key, ENV_DEL_PREFIX@) {
        scoped_opt(EnvOpt::Delete, key.skip(ENV_DEL_PREFIX@.len() as int), uuid)
    } else {
        None
    }
}

/// The scope mark of an override that holds for the identifier `uuid`.
pub open spec fn scope_mark(uuid: Seq<char>) -> Seq<char> {
    "UUID_"@ + uuid + "_"@
}

/// The second half of `env_opt_of`: `rest` is the name without its prefix.
pub open spec fn scoped_opt(op: EnvOpt, rest: Seq<char>, uuid: Option<Seq<char>>) -> Option<
    (EnvOpt, Seq<char>),
> {
    if !starts_with(rest, "UUID_"@) {
        Some((op, rest))
    } else {
        match uuid {
            None => None,
            Some(id) => if starts_with(rest, scope_mark(id)) {
                Some((op, rest.skip(scope_mark(id).len() as int)))
            } else {
                None
            },
        }
    }
}

/// The text of an optional string slice.
pub open spec fn opt_str(s: Option<&str>) -> Option<Seq<char>> {
    match s {
        Some(text) => Some(text@),
        None => None,
    }
}

/// What the environment variable `key` asks for.
pub fn handle_env_opt(key: &str, uuid: Option<&str>) -> (r: Option<(EnvOpt, String)>)
    ensures
        match r {
            Some((op, opt)) => env_opt_of(key@, opt_str(uuid)) == Some((op, opt@)),
            None => env_opt_of(key@, opt_str(uuid)) is None,
        },
{
    let (op, rest) = if let Some(stripped) = strip_prefix(key, ENV_SET_PREFIX) {
        (EnvOpt::Replace, stripped)
    } else if let Some(stripped) = strip_prefix(key, ENV_ADD_PREFIX) {
        (EnvOpt::Append, stripped)
    } else if let Some(stripped) = strip_prefix(key, ENV_DEL_PREFIX) {
        (EnvOpt::Delete, stripped)
    } else {
        return None;
    };
    assert(env_opt_of(key@, opt_str(uuid)) == scoped_opt(op, rest@, opt_str(uuid)));
    if strip_prefix(rest.as_str(), "UUID_").is_none() {
        return Some((op, rest));
    }
    let id = match uuid {
        Some(id) => id,
        None => {
            return None;
        },
    };
    let mut expected = String::new();
    expected.append("UUID_");
    expected.append(id);
    expected.append("_");
    assert(expected@ =~= scope_mark(id@));
    match strip_prefix(rest.as_str(), expected.as_str()) {
        Some(opt) => Some((op, opt)),
        None => None,
    }
}

/// What is reported where the value of an override cannot be split into
/// words.
pub open spec fn env_override_error(key: Seq<char>) -> Seq<char> {
    "Error: failed to parse env override "@ + key + ": "@ + UNCLOSED_QUOTE@
}

/// The parameters after one override: `Delete` takes the parameter out; `Replace`
/// gives it the words, `Append` appends the words to what it has. `words` is
/// what the value of the variable splits into.
pub open spec fn with_override(m: ParamMap, op: EnvOpt, opt: Seq<char>, words: Seq<Seq<char>>) -> ParamMap {
    match op {
        EnvOpt::Delete => m.remove(opt),
        EnvOpt::Append => m.insert(
            opt,
            if m.contains_key(opt) {
                m[opt] + words
            } else {
                words
            },
        ),
        EnvOpt::Replace => m.insert(opt, words),
    }
}

/// Applies one override to the parameters.
pub fn apply_override(params: &mut Params, op: EnvOpt, opt: String, words: Vec<String>)
    ensures
        final(params)@ == with_override(old(params)@, op, opt@, views(words@)),
{
    match op {
        EnvOpt::Delete => {
            params.remove(opt.as_str());
        },
        EnvOpt::Append => {
            params.extend(opt, words);
        },
        EnvOpt::Replace => {
            params.insert(opt, words);
        },
    }
}

/// The parameters after one variable of the environment, or the error
/// where the variable is an override whose value cannot be split into
/// words. The value of a `Delete` is not read.
pub open spec fn after_variable(
    m: ParamMap,
    uuid: Option<Seq<char>>,
    key: Seq<char>,
    value: Seq<char>,
) -> Result<ParamMap, Seq<char>> {
    match env_opt_of(key, uuid) {
        None => Ok(m),
        Some((op, opt)) => if op == EnvOpt::Delete {
            Ok(with_override(m, op, opt, seq![]))
        } else {
            match shell_words_of(value) {
                None => Err(env_override_error(key)),
                Some(words) => Ok(with_override(m, op, opt, words)),
            }
        },
    }
}

/// The variables of an environment as a mathematical value.
pub open spec fn variables(env: Seq<(String, String)>) -> Seq<(Seq<char>, Seq<char>)> {
    Seq::new(env.len(), |i: int| (env[i].0@, env[i].1@))
}

/// The parameters after the variables of an environment, taken in order,
/// or the error of the first override that is refused.
pub open spec fn after_environment(
    m: ParamMap,
    uuid: Option<Seq<char>>,
    env: Seq<(Seq<char>, Seq<char>)>,
) -> Result<ParamMap, Seq<char>>
    decreases env.len(),
{
    if env.len() == 0 {
        Ok(m)
    } else {
        match after_environment(m, uuid, env.drop_last()) {
            Err(e) => Err(e),
            Ok(before) => after_variable(before, uuid, env.last().0, env.last().1),
        }
    }
}

/// Where the first `n` variables are refused, so are all, with the same
/// error.
pub proof fn lemma_environment_prefix(
    m: ParamMap,
    uuid: Option<Seq<char>>,
    env: Seq<(Seq<char>, Seq<char>)>,
    n: int,
)
    requires
        0 <= n <= env.len(),
        after_environment(m, uuid, env.take(n)) is Err,
    ensures
        after_environment(m, uuid, env) == after_environment(m, uuid, env.take(n)),
    decreases env.len() - n,
{
    if n < env.len() {
        assert(env.take(n + 1).drop_last() == env.take(n));
        lemma_environment_prefix(m, uuid, env, n + 1);
    } else {
        assert(env.take(n) == env);
    }
}

/// The parameters after the variables of the longest beginning of an
/// environment that is not refused: what is left where a variable is
/// refused.
pub open spec fn kept_on_error(
    m: ParamMap,
    uuid: Option<Seq<char>>,
    env: Seq<(Seq<char>, Seq<char>)>,
) -> ParamMap
    decreases env.len(),
{
    if env.len() == 0 {
        m
    } else {
        match after_environment(m, uuid, env) {
            Ok(p) => p,
            Err(_) => kept_on_error(m, uuid, env.drop_last()),
        }
    }
}

/// Where the first `n` variables are accepted and the next one is refused,
/// what is left is what the first `n` made.
pub proof fn lemma_kept_on_error(
    m: ParamMap,
    uuid: Option<Seq<char>>,
    env: Seq<(Seq<char>, Seq<char>)>,
    n: int,
    p: ParamMap,
)
    requires
        0 <= n < env.len(),
        after_environment(m, uuid, env.take(n)) == Ok::<ParamMap, Seq<char>>(p),
        after_environment(m, uuid, env.take(n + 1)) is Err,
    ensures
        kept_on_error(m, uuid, env) == p,
    decreases env.len() - n,
{
    lemma_environment_prefix(m, uuid, env, n + 1);
    let shorter = env.drop_last();
    if env.len() == n + 1 {
        assert(shorter == env.take(n));
    } else {
        assert(shorter.take(n) == env.take(n));
        assert(shorter.take(n + 1) == env.take(n + 1));
        lemma_kept_on_error(m, uuid, shorter, n, p);
    }
}

/// Applies the overrides that the environment `env` carries, in its order.
/// On an error the parameters hold what the overrides before it made.
pub fn apply_env_overrides(
    params: &mut Params,
    uuid: Option<&str>,
    env: &Vec<(String, String)>,
) -> (r: Result<(), ConfigError>)
    ensures
        match r {
            Ok(()) => after_environment(old(params)@, opt_str(uuid), variables(env@)) == Ok::<
                ParamMap,
                Seq<char>,
            >(final(params)@),
            Err(e) => after_environment(old(params)@, opt_str(uuid), variables(env@)) == Err::<
                ParamMap,
                Seq<char>,
            >(e@) && final(params)@ == kept_on_error(
                old(params)@,
                opt_str(uuid),
                variables(env@),
            ),
        },
{
    let ghost vars = variables(env@);
    let ghost start = params@;
    let mut i: usize = 0;
    while i < env.len()
        invariant
            i <= env.len(),
            vars == variables(env@),
            start == old(params)@,
            after_environment(start, opt_str(uuid), vars.take(i as int)) == Ok::<
                ParamMap,
                Seq<char>,
            >(params@),
        decreases env.len() - i,
    {
        assert(vars.take(i + 1).drop_last() == vars.take(i as int));
        assert(vars.take(i + 1).last() == vars[i as int]);
        let key = env[i].0.as_str();
        let value = env[i].1.as_str();
        match handle_env_opt(key, uuid) {
            None => {},
            Some((op, opt)) => {
                match op {
                    EnvOpt::Delete => {
                        let none: Vec<String> = Vec::new();
                        assert(views(none@) =~= Seq::<Seq<char>>::empty());
                        apply_override(params, op, opt, none);
                    },
                    _ => {
                        match split_words(value) {
                            Ok(words) => {
                                apply_override(params, op, opt, words);
                            },
                            Err(error) => {
                                let mut message = String::new();
                                message.append("Error: failed to parse env override ");
                                message.append(key);
                                message.append(": ");
                                message.append(parse_error_text(&error).as_str());
                                proof {
                                    assert(message@ =~= env_override_error(key@));
                                    assert(after_environment(
                                        start,
                                        opt_str(uuid),
                                        vars.take(i + 1),
                                    ) == Err::<ParamMap, Seq<char>>(message@));
                                    lemma_environment_prefix(start, opt_str(uuid), vars, i + 1);
                                    lemma_kept_on_error(
                                        start,
                                        opt_str(uuid),
                                        vars,
                                        i as int,
                                        params@,
                                    );
                                }
                                return Err(ConfigError::new(message.as_str()));
                            },
                        }
                    },
                }
            },
        }
        i += 1;
    }
    assert(vars.take(env.len() as int) == vars);
    Ok(())
}

/// `s` without its dashes.
pub open spec fn without_dashes(s: Seq<char>) -> Seq<char>
    decreases s.len(),
{
    if s.len() == 0 {
        seq![]
    } else if s.last() == '-' {
        without_dashes(s.drop_last())
    } else {
        without_dashes(s.drop_last()).push(s.last())
    }
}

/// `s` without its dashes.
pub fn strip_dashes(s: &str) -> (out: String)
    ensures
        out@ == without_dashes(s@),
{
    let chars = chars_of(s);
    let mut out: Vec<char> = Vec::new();
    let mut i: usize = 0;
    while i < chars.len()
        invariant
            i <= chars.len(),
            out@ == without_dashes(chars@.take(i as int)),
        decreases chars.len() - i,
    {
        assert(chars@.take(i + 1).drop_last() == chars@.take(i as int));
        let c = char_at(&chars, i);
        if c != '-' {
            out.push(c);
        }
        i += 1;
    }
    assert(chars@.take(chars.len() as int) == chars@);
    string_of(&out)
}

/// The identifier of a configuration: the first value of `uuid`, without
/// its dashes.
pub open spec fn uuid_of(m: ParamMap) -> Option<Seq<char>> {
    if m.contains_key("uuid"@) && m["uuid"@].len() > 0 {
        Some(without_dashes(m["uuid"@][0]))
    } else {
        None
    }
}

/// What is reported for a configuration that names no image.
pub open spec fn missing_image_error(config_path: Seq<char>) -> Seq<char> {
    "Error: gw_container must be specified in "@ + config_path
}

/// The configuration that the file at `config_path` with the text
/// `content` gives under the environment `env`: its parameters with the
/// overrides applied, and its identifier as the file states it; or the
/// error. It must name an image, and may set only one kind of prefix
/// command.
pub open spec fn loaded(
    config_path: Seq<char>,
    content: Seq<char>,
    env: Seq<(Seq<char>, Seq<char>)>,
) -> Result<(ParamMap, Option<Seq<char>>), Seq<char>> {
    match config_of_text(content) {
        Err(e) => Err(e),
        Ok(m) => match after_environment(m, uuid_of(m), env) {
            Err(e) => Err(e),
            Ok(p) => if !p.contains_key("gw_container"@) {
                Err(missing_image_error(config_path))
            } else if p.contains_key("prefix_cmd"@) && p.contains_key("prefix_cmd_quiet"@) {
                Err(PREFIX_CONFLICT@)
            } else {
                Ok((p, uuid_of(m)))
            },
        },
    }
}

/// Loads the configuration of the project at `root_dir` from the text of
/// its configuration file, under the environment `env`.
pub fn load_from(root_dir: &str, config_path: &str, content: &str, env: &Vec<(String, String)>) -> (r:
    Result<Config, ConfigError>)
    ensures
        match r {
            Ok(config) => loaded(config_path@, content@, variables(env@)) == Ok::<
                (ParamMap, Option<Seq<char>>),
                Seq<char>,
            >((config.params@, crate::cli::opt_text(config.uuid))) && config.root_dir@
                == root_dir@ && config.config_path@ == config_path@,
            Err(e) => loaded(config_path@, content@, variables(env@)) == Err::<
                (ParamMap, Option<Seq<char>>),
                Seq<char>,
            >(e@),
        },
{
    let mut params = match parse_config(content) {
        Ok(p) => p,
        Err(e) => {
            return Err(e);
        },
    };
    let uuid: Option<String> = match params.first("uuid") {
        Some(v) => Some(strip_dashes(v.as_str())),
        None => None,
    };
    assert(crate::cli::opt_text(uuid) == uuid_of(params@));
    let scoped = match &uuid {
        Some(id) => apply_env_overrides(&mut params, Some(id.as_str()), env),
        None => apply_env_overrides(&mut params, None, env),
    };
    match scoped {
        Ok(()) => {},
        Err(e) => {
            return Err(e);
        },
    }
    if !params.contains_key("gw_container") {
        let mut message = String::new();
        message.append("Error: gw_container must be specified in ");
        message.append(config_path);
        return Err(ConfigError::new(message.as_str()));
    }
    if params.contains_key("prefix_cmd") && params.contains_key("prefix_cmd_quiet") {
        return Err(ConfigError::new(PREFIX_CONFLICT));
    }
    Ok(
        Config {
            root_dir: root_dir.to_owned(),
            config_path: config_path.to_owned(),
            params,
            uuid,
        },
    )
}

} // verus!
