//! What the program decides before it serves: which files it looks for, and
//! which process a PID file names.
use vstd::prelude::*;
use vstd::string::StringExecFns;

use crate::number;
use crate::number::{decimal_text, parse_i32};
use crate::text;
use crate::text::{chars_of, trimmed};

verus! {

/// A file in a directory.
pub open spec fn in_directory(directory: Seq<char>, file: Seq<char>) -> Seq<char> {
    if directory.len() == 0 {
        file
    } else if directory.last() == '/' {
        directory + file
    } else {
        directory + "/"@ + file
    }
}

/// The configuration files that are looked for, the first that exists being
/// read: the one that was asked for and no other, or else one in the working
/// directory, in the home directory or in that of the system.
pub open spec fn config_paths(asked: Option<Seq<char>>, home: Option<Seq<char>>) -> Seq<
    Seq<char>,
> {
    match asked {
        Some(path) => seq![path],
        None => match home {
            Some(directory) => seq![
                "anthropic-proxy.json"@,
                in_directory(directory, ".anthropic-proxy.json"@),
                "/etc/anthropic-proxy/config.json"@,
            ],
            None => seq!["anthropic-proxy.json"@, "/etc/anthropic-proxy/config.json"@],
        },
    }
}

/// The files with environment variables that are looked for after the one that
/// was asked for and that of the working directory.
pub open spec fn dotenv_paths(home: Option<Seq<char>>) -> Seq<Seq<char>> {
    match home {
        Some(directory) => seq![
            in_directory(directory, ".anthropic-proxy.env"@),
            "/etc/anthropic-proxy/.env"@,
        ],
        None => seq!["/etc/anthropic-proxy/.env"@],
    }
}

/// A file that was asked for is the only one that is looked for.
pub proof fn asked_file_is_the_only_one(path: Seq<char>, home: Option<Seq<char>>)
    ensures
        config_paths(Some(path), home) == seq![path],
{
}

/// A file in a directory, as `Path::join` writes it for a relative file.
pub fn path_in(directory: &str, file: &str) -> (r: String)
    ensures
        r@ == in_directory(directory@, file@),
{
    let chars = chars_of(directory);
    if chars.len() == 0 {
        file.to_owned()
    } else if chars[chars.len() - 1] == '/' {
        directory.to_owned().concat(file)
    } else {
        directory.to_owned().concat("/").concat(file)
    }
}

/// The configuration files that are looked for.
pub fn config_file_candidates(asked: &Option<String>, home: &Option<String>) -> (r: Vec<String>)
    ensures
        text::texts(r@) == config_paths(text::text_option(*asked), text::text_option(*home)),
{
    let mut r: Vec<String> = Vec::new();
    match asked {
        Some(path) => r.push(path.clone()),
        None => {
            r.push("anthropic-proxy.json".to_owned());
            if let Some(directory) = home {
                r.push(path_in(directory, ".anthropic-proxy.json"));
            }
            r.push("/etc/anthropic-proxy/config.json".to_owned());
        },
    }
    assert(text::texts(r@) == config_paths(text::text_option(*asked), text::text_option(*home)));
    r
}

/// The files with environment variables that are looked for after the one that
/// was asked for and that of the working directory.
pub fn dotenv_file_candidates(home: &Option<String>) -> (r: Vec<String>)
    ensures
        text::texts(r@) == dotenv_paths(text::text_option(*home)),
{
    let mut r: Vec<String> = Vec::new();
    if let Some(directory) = home {
        r.push(path_in(directory, ".anthropic-proxy.env"));
    }
    r.push("/etc/anthropic-proxy/.env".to_owned());
    assert(text::texts(r@) == dotenv_paths(text::text_option(*home)));
    r
}

/// The address on which the proxy listens.
pub fn listen_address(port: u16) -> (r: String)
    ensures
        r@ == "0.0.0.0:"@ + number::decimal(port as nat),
{
    "0.0.0.0:".to_owned().concat(&decimal_text(port as u32))
}

/// The text of a PID file that names no process.
#[derive(Debug, Clone)]
pub struct PidError {
    pub text: String,
}

impl PidError {
    /// What is said of the error.
    pub fn message(&self) -> (r: String)
        ensures
            r@ == "Invalid PID in file: "@ + self.text@,
    {
        "Invalid PID in file: ".to_owned().concat(&self.text)
    }
}

/// The process that a PID file names: a number with white space around it.
pub fn parse_pid(text: &str) -> (r: Result<i32, PidError>)
    ensures
        match r {
            Ok(pid) => number::i32_value(text::trim(text@)) == Some(pid as int),
            Err(error) => number::i32_value(text::trim(text@)) is None && error.text@ == text@,
        },
{
    let digits = trimmed(text);
    match parse_i32(&digits) {
        Some(pid) => Ok(pid),
        None => Err(PidError { text: text.to_owned() }),
    }
}

} // verus!
