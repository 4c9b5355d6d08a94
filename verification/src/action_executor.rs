//! What a launch request is checked against before anything is opened.
use vstd::prelude::*;

use crate::text;

verus! {

/// Why a launch did not happen.
#[derive(Debug, Clone, PartialEq, Eq)]
pub enum LaunchError {
    EmptyPath,
    MissingPath(String),
    LaunchFailed { message: String, code: Option<i32> },
}

/// The decimal text of a signed 32-bit code.
pub open spec fn code_text(code: int) -> Seq<char> {
    crate::clipboard_history::signed_decimal(code)
}

/// How a launch error is shown to a user.
pub open spec fn launch_error_text(e: LaunchError) -> Seq<char> {
    match e {
        LaunchError::EmptyPath => "empty path"@,
        LaunchError::MissingPath(p) => "path does not exist: "@ + p@,
        LaunchError::LaunchFailed { message, code } => match code {
            Some(c) => "launch failed: "@ + message@ + " (code "@ + code_text(c as int) + ")"@,
            None => "launch failed: "@ + message@,
        },
    }
}

impl LaunchError {
    pub fn message(&self) -> (m: String)
        ensures
            m@ == launch_error_text(*self),
    {
        match self {
            LaunchError::EmptyPath => text::owned("empty path"),
            LaunchError::MissingPath(p) => text::concat("path does not exist: ", p.as_str()),
            LaunchError::LaunchFailed { message, code } => {
                let mut m = text::concat("launch failed: ", message.as_str());
                match code {
                    Some(c) => {
                        text::push_str(&mut m, " (code ");
                        let d = crate::clipboard_history::signed_decimal_text(*c as i64);
                        text::push_str(&mut m, d.as_str());
                        text::push_str(&mut m, ")");
                    },
                    None => {},
                }
                m
            },
        }
    }
}

/// The target a launch opens: the trimmed text, which must not be empty.
pub open spec fn launch_target_of(target: Seq<char>) -> Result<Seq<char>, LaunchError> {
    let t = text::trim(target);
    if t.len() == 0 { Err(LaunchError::EmptyPath) } else { Ok(t) }
}

/// Checks an open target (a path, URL or shell target): blank targets are
/// refused, others are trimmed; the trimmed text is what gets opened.
pub fn launch_open_target(target: &str) -> (r: Result<String, LaunchError>)
    ensures
        match r {
            Ok(t) => launch_target_of(target@) == Ok::<Seq<char>, LaunchError>(t@),
            Err(e) => launch_target_of(target@) == Err::<Seq<char>, LaunchError>(e),
        },
{
    let t = text::trim_str(target);
    if t.as_str().unicode_len() == 0 {
        Err(LaunchError::EmptyPath)
    } else {
        Ok(t)
    }
}

/// Checks a path to launch: a blank path is refused, and so is one that does
/// not exist (`exists` says whether the trimmed path exists on disk); the
/// trimmed path is what gets opened.
pub fn launch_path(path: &str, exists: bool) -> (r: Result<String, LaunchError>)
    ensures
        text::trim(path@).len() == 0 ==> r == Err::<String, LaunchError>(LaunchError::EmptyPath),
        text::trim(path@).len() > 0 && !exists ==> (r matches Err(LaunchError::MissingPath(p)) && p@ == text::trim(path@)),
        text::trim(path@).len() > 0 && exists ==> (r matches Ok(t) && t@ == text::trim(path@)),
{
    match launch_open_target(path) {
        Ok(t) => {
            if exists {
                Ok(t)
            } else {
                Err(LaunchError::MissingPath(t))
            }
        },
        Err(e) => Err(e),
    }
}

/// Checks a browser-default web search: the query must not be blank, and a
/// non-blank fallback URL is required; the trimmed URL is what gets opened.
pub fn launch_browser_default_search(query: &str, fallback_url: Option<&str>) -> (r: Result<String, LaunchError>)
    ensures
        text::trim(query@).len() == 0 ==> r == Err::<String, LaunchError>(LaunchError::EmptyPath),
        text::trim(query@).len() > 0 ==> match fallback_url {
            Some(u) if text::trim(u@).len() > 0 => r matches Ok(t) && t@ == text::trim(u@),
            _ => r matches Err(LaunchError::LaunchFailed { message, code }) && message@
                == "missing fallback web search URL"@ && code is None,
        },
{
    let q = text::trimmed_chars(query);
    if q.len() == 0 {
        return Err(LaunchError::EmptyPath);
    }
    match fallback_url {
        Some(u) => {
            let t = text::trim_str(u);
            if t.as_str().unicode_len() > 0 {
                return Ok(t);
            }
        },
        None => {},
    }
    Err(LaunchError::LaunchFailed { message: text::owned("missing fallback web search URL"), code: None })
}

} // verus!
