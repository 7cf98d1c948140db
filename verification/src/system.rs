//! Who runs the program, and on what.

use vstd::prelude::*;
use crate::env::{Binding, EnvMap};
use crate::keyed::value_at_key;
use crate::text::same_text;

verus! {

/// The value of a variable if it is set and not empty.
pub open spec fn nonempty_value(system: Seq<Binding>, name: Seq<char>) -> Option<Seq<char>> {
    match value_at_key(system, name) {
        Some(v) => if v.len() > 0 {
            Some(v)
        } else {
            None
        },
        None => None,
    }
}

/// The name of the user: the first of `USERNAME`, `USER` and `LOGNAME`
/// that is set and not empty, and `Guest` if none is.
pub open spec fn username_of(system: Seq<Binding>) -> Seq<char> {
    match nonempty_value(system, "USERNAME"@) {
        Some(v) => v,
        None => match nonempty_value(system, "USER"@) {
            Some(v) => v,
            None => match nonempty_value(system, "LOGNAME"@) {
                Some(v) => v,
                None => "Guest"@,
            },
        },
    }
}

/// The short name of a platform, by the name of its operating system.
pub open spec fn platform_of(os: Seq<char>) -> Seq<char> {
    if os == "windows"@ {
        "win"@
    } else if os == "macos"@ {
        "mac"@
    } else if os == "linux"@ {
        "linux"@
    } else {
        "unknown"@
    }
}

fn nonempty(system: &EnvMap, name: &str) -> (r: Option<String>)
    ensures
        r.deep_view() == nonempty_value(system@, name@),
{
    match system.get(name) {
        Some(v) => if v.as_str().is_empty() {
            None
        } else {
            Some(v.clone())
        },
        None => None,
    }
}

/// The name of the user, or `Guest`.
pub fn get_os_username(system: &EnvMap) -> (r: String)
    ensures
        r@ == username_of(system@),
{
    match nonempty(system, "USERNAME") {
        Some(v) => v,
        None => match nonempty(system, "USER") {
            Some(v) => v,
            None => match nonempty(system, "LOGNAME") {
                Some(v) => v,
                None => "Guest".to_string(),
            },
        },
    }
}

/// The short name of the platform whose operating system is `os`: `win`,
/// `mac`, `linux` or `unknown`.
pub fn get_platform(os: &str) -> (r: String)
    ensures
        r@ == platform_of(os@),
{
    if same_text(os, "windows") {
        "win".to_string()
    } else if same_text(os, "macos") {
        "mac".to_string()
    } else if same_text(os, "linux") {
        "linux".to_string()
    } else {
        "unknown".to_string()
    }
}

/// The user and the platform, found once at the start.
#[derive(Debug, PartialEq, Eq)]
pub struct SystemInfo {
    pub username: String,
    pub platform: String,
}

impl Clone for SystemInfo {
    fn clone(&self) -> (r: Self)
        ensures
            r.username@ == self.username@,
            r.platform@ == self.platform@,
    {
        SystemInfo { username: self.username.clone(), platform: self.platform.clone() }
    }
}

impl SystemInfo {
    /// Finds the user in the system environment and the platform by the
    /// name of the operating system.
    pub fn collect(system: &EnvMap, os: &str) -> (r: Self)
        ensures
            r.username@ == username_of(system@),
            r.platform@ == platform_of(os@),
    {
        SystemInfo { username: get_os_username(system), platform: get_platform(os) }
    }

    /// The name of the user.
    pub fn get_username(&self) -> (r: &str)
        ensures
            r@ == self.username@,
    {
        self.username.as_str()
    }

    /// The short name of the platform.
    pub fn get_platform(&self) -> (r: &str)
        ensures
            r@ == self.platform@,
    {
        self.platform.as_str()
    }
}

} // verus!
