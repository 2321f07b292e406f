//! Laws of what is looked for at the start.
use vstd::prelude::*;

use crate::startup;

verus! {

/// A file in a directory is written with one slash between them.
pub proof fn files_are_in_directories(directory: Seq<char>, file: Seq<char>)
    ensures
        startup::in_directory(Seq::empty(), file) == file,
        directory.len() > 0 && directory.last() != '/' ==> startup::in_directory(directory, file)
            == directory.push('/') + file,
        startup::in_directory(directory.push('/'), file) == directory.push('/') + file,
{
    reveal_strlit("/");
    assert(directory + "/"@ == directory.push('/'));
}

/// Without a file that was asked for, three places are looked at, in this order;
/// the second only where there is a home directory.
pub proof fn configuration_files_have_places(home: Seq<char>, path: Seq<char>)
    ensures
        ({
            let all = startup::config_paths(None, Some(home));
            &&& all.len() == 3
            &&& all[0] == "anthropic-proxy.json"@
            &&& all[1] == startup::in_directory(home, ".anthropic-proxy.json"@)
            &&& all[2] == "/etc/anthropic-proxy/config.json"@
        }),
        ({
            let all = startup::config_paths(None, None);
            &&& all.len() == 2
            &&& all[0] == "anthropic-proxy.json"@
            &&& all[1] == "/etc/anthropic-proxy/config.json"@
        }),
        forall|any: Option<Seq<char>>|
            #![trigger startup::config_paths(Some(path), any)]
            startup::config_paths(Some(path), any).len() == 1 && startup::config_paths(
                Some(path),
                any,
            )[0] == path,
{
}

/// Files with environment variables are looked for in the home directory and
/// then in that of the system.
pub proof fn environment_files_have_places(home: Seq<char>)
    ensures
        ({
            let all = startup::dotenv_paths(Some(home));
            &&& all.len() == 2
            &&& all[0] == startup::in_directory(home, ".anthropic-proxy.env"@)
            &&& all[1] == "/etc/anthropic-proxy/.env"@
        }),
        startup::dotenv_paths(None).len() == 1,
        startup::dotenv_paths(None)[0] == "/etc/anthropic-proxy/.env"@,
{
}

} // verus!
