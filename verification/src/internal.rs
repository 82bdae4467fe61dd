//! What the launcher hands on: the invocation for the container engine and
//! the one message for the agent inside the container.

use crate::params::EnvMap;
use vstd::prelude::*;

verus! {

/// The version of the message between launcher and agent.
pub const INTERNAL_SPEC_VERSION: u32 = 1;

/// The variable that carries the message into the container.
pub const SPEC_ENV: &'static str = "GW_INTERNAL_SPEC";

/// What the container engine is asked to run.
#[derive(Debug, Clone, PartialEq, Eq)]
pub struct ContainerSpec {
    pub image: String,
    pub hostname: Option<String>,
    pub mounts: Vec<Mount>,
    pub env: EnvMap,
    pub workdir: Option<String>,
    pub user: Option<String>,
    pub extra_hosts: Vec<String>,
    pub privileged: bool,
    pub init: bool,
    pub remove: bool,
    pub interactive: bool,
    pub tty: bool,
    pub entrypoint: Option<Vec<String>>,
    pub command: Vec<String>,
    pub extra_args: Vec<String>,
}

/// A directory or file of the host made visible in the container.
#[derive(Debug, Clone, PartialEq, Eq)]
pub struct Mount {
    pub source: String,
    pub target: String,
    pub read_only: bool,
    pub options: Vec<String>,
}

/// The message from the launcher to the agent.
#[derive(Debug, Clone, PartialEq, Eq)]
pub struct InternalSpec {
    pub protocol_version: u32,
    pub workdir: String,
    pub root_dir: String,
    pub user: UserSpec,
    pub env_overrides: EnvMap,
    pub persist_env: Option<PersistEnvSpec>,
    pub terminfo: Option<TerminfoSpec>,
    pub command: Vec<String>,
    pub shell: Option<String>,
    pub extra_shell: Option<String>,
    pub prefix_cmd: Vec<String>,
    pub prefix_cmd_quiet: Vec<String>,
}

/// The account that the agent provides in the container.
#[derive(Debug, Clone, PartialEq, Eq)]
pub struct UserSpec {
    pub name: String,
    pub uid: u32,
    pub gid: u32,
    pub home: String,
}

/// Where the environment is kept between runs, and in which direction.
#[derive(Debug, Clone, PartialEq, Eq)]
pub struct PersistEnvSpec {
    pub path: String,
    pub restore: bool,
    pub save: bool,
}

/// The description of the caller's terminal.
#[derive(Debug, Clone, PartialEq, Eq)]
pub struct TerminfoSpec {
    pub term: String,
    pub data: Vec<u8>,
}

} // verus!
