//! Starting with the user session: the command line registered for it.
use vstd::prelude::*;

use crate::text;

verus! {

/// Why the startup setting could not be read or changed.
#[derive(Debug, Clone, PartialEq, Eq)]
pub enum StartupError {
    Io(String),
    Command(String),
    UnsupportedPlatform,
}

impl StartupError {
    /// The error as shown to a user.
    pub fn message(&self) -> (m: String)
        ensures
            m@ == match *self {
                StartupError::Io(e) => "io error: "@ + e@,
                StartupError::Command(e) => "command error: "@ + e@,
                StartupError::UnsupportedPlatform => "unsupported platform"@,
            },
    {
        match self {
            StartupError::Io(e) => text::concat("io error: ", e.as_str()),
            StartupError::Command(e) => text::concat("command error: ", e.as_str()),
            StartupError::UnsupportedPlatform => text::owned("unsupported platform"),
        }
    }
}

/// The argument that starts the runtime in the background.
pub const STARTUP_ARG: &'static str = "--background";

/// The startup command for an executable: the quoted path and the background
/// flag. The path must be non-empty and name an existing file (`exists` and
/// `is_file`, as the caller found them).
pub open spec fn startup_command(path: Seq<char>, exists: bool, is_file: bool) -> Result<Seq<char>, Seq<char>> {
    if path.len() == 0 {
        Err("executable path is empty"@)
    } else if !exists {
        Err("executable path does not exist: "@ + path)
    } else if !is_file {
        Err("executable path is not a file: "@ + path)
    } else {
        Ok(seq!['"'] + path + "\" --background"@)
    }
}

pub fn startup_command_for_executable(executable_path: &str, exists: bool, is_file: bool) -> (r: Result<String, StartupError>)
    ensures
        match r {
            Ok(c) => startup_command(executable_path@, exists, is_file) == Ok::<Seq<char>, Seq<char>>(c@),
            Err(StartupError::Command(m)) => startup_command(executable_path@, exists, is_file) == Err::<
                Seq<char>,
                Seq<char>,
            >(m@),
            Err(_) => false,
        },
{
    if executable_path.unicode_len() == 0 {
        return Err(StartupError::Command(text::owned("executable path is empty")));
    }
    if !exists {
        return Err(StartupError::Command(text::concat("executable path does not exist: ", executable_path)));
    }
    if !is_file {
        return Err(StartupError::Command(text::concat("executable path is not a file: ", executable_path)));
    }
    let mut out = String::new();
    text::push_char(&mut out, '"');
    text::push_str(&mut out, executable_path);
    text::push_str(&mut out, "\" --background");
    proof {
        assert(out@ =~= seq!['"'] + executable_path@ + "\" --background"@);
    }
    Ok(out)
}

/// A registry error as a startup error.
pub fn registry_error(action: &str, status: u32) -> (e: StartupError)
    ensures
        e matches StartupError::Command(m) && m@ == action@ + " failed with code "@ + crate::settings::decimal(status as nat),
{
    let mut m = text::concat(action, " failed with code ");
    let d = crate::settings::decimal_u64(status as u64);
    let ds = text::string_of(&d);
    text::push_str(&mut m, ds.as_str());
    StartupError::Command(m)
}

/// Whether the application starts with the user session. The registration
/// lives in the Windows registry, which this library does not read: the
/// answer is always `UnsupportedPlatform`.
pub fn is_enabled() -> (r: Result<bool, StartupError>)
    ensures
        r == Err::<bool, StartupError>(StartupError::UnsupportedPlatform),
{
    Err(StartupError::UnsupportedPlatform)
}

/// Registers or removes the startup command for `executable_path`. The
/// registration lives in the Windows registry, which this library does not
/// write: the answer is always `UnsupportedPlatform`.
pub fn set_enabled(enabled: bool, executable_path: &str) -> (r: Result<(), StartupError>)
    ensures
        r == Err::<(), StartupError>(StartupError::UnsupportedPlatform),
{
    Err(StartupError::UnsupportedPlatform)
}

} // verus!
