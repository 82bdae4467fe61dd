//! The launcher's view of the container engine.

use crate::internal::ContainerSpec;
use crate::podman_cli::{self, entrypoint_refused, run_args_of, ENGINE};
use crate::text::views;
use vstd::prelude::*;

verus! {

/// Why the container could not be started.
#[derive(Debug)]
pub struct ExecError {
    message: String,
}

impl View for ExecError {
    type V = Seq<char>;

    closed spec fn view(&self) -> Seq<char> {
        self.message@
    }
}

impl ExecError {
    /// An error with the given message.
    pub fn new(message: &str) -> (r: ExecError)
        ensures
            r@ == message@,
    {
        ExecError { message: message.to_owned() }
    }

    /// The message.
    pub fn to_string(&self) -> (r: String)
        ensures
            r@ == self@,
    {
        self.message.clone()
    }
}

/// The command line that builds the image `image` from `context_dir`.
pub fn build_image(image: &str, context_dir: &str) -> (argv: Vec<String>)
    ensures
        views(argv@) == seq![ENGINE@, "build"@, "-t"@, image@, context_dir@],
{
    podman_cli::build_image(image, context_dir)
}

/// The command line that asks whether the image `image` exists.
pub fn image_exists(image: &str) -> (argv: Vec<String>)
    ensures
        views(argv@) == seq![ENGINE@, "image"@, "exists"@, image@],
{
    podman_cli::inspect_image(image)
}

/// What the end of a build means, with the engine adapter's error under
/// this module's type.
pub fn build_outcome(code: Option<i32>) -> (r: Result<(), ExecError>)
    ensures
        match r {
            Ok(()) => code == Some(0i32),
            Err(e) => code != Some(0i32) && e@ == podman_cli::build_failed_error(code),
        },
{
    match podman_cli::build_result(code) {
        Ok(()) => Ok(()),
        Err(e) => Err(ExecError::new(e.to_string().as_str())),
    }
}

/// What the end of the question for an image means, with the engine
/// adapter's error under this module's type.
pub fn image_exists_outcome(code: Option<i32>) -> (r: Result<bool, ExecError>)
    ensures
        match r {
            Ok(exists) => (exists && code == Some(0i32)) || (!exists && code == Some(1i32)),
            Err(e) => code != Some(0i32) && code != Some(1i32) && e@
                == podman_cli::inspect_failed_error(code),
        },
{
    match podman_cli::inspect_result(code) {
        Ok(exists) => Ok(exists),
        Err(e) => Err(ExecError::new(e.to_string().as_str())),
    }
}

/// The command line that starts the container for `spec`, or the error of
/// the engine adapter with its message unchanged.
pub fn run_container(spec: &ContainerSpec) -> (r: Result<Vec<String>, ExecError>)
    ensures
        match r {
            Ok(argv) => !entrypoint_refused(spec.entrypoint) && views(argv@) == seq![ENGINE@]
                + run_args_of(*spec),
            Err(e) => entrypoint_refused(spec.entrypoint) && e@ == podman_cli::ENTRYPOINT_ERROR@,
        },
{
    match podman_cli::exec_run(spec) {
        Ok(argv) => Ok(argv),
        Err(e) => Err(ExecError::new(e.to_string().as_str())),
    }
}

} // verus!
