//! Resolution of the configuration-file path and of the diagnostic-log path.
//!
//! Paths are plain `/`-separated strings here; the surrounding application
//! turns them into filesystem paths. The default configuration location is a
//! pure function of the operating-system name and of the user and home values
//! taken from the host environment, so it can be tested deterministically.
use vstd::prelude::*;
use vstd::string::*;
use crate::text::{last_index_of, rfind_char_in, str_eq};

verus! {

/// The characters of an optional string, when it is there.
pub open spec fn opt_view(p: Option<&String>) -> Option<Seq<char>> {
    match p {
        Some(t) => Some(t@),
        None => None,
    }
}

/// The default configuration-file path for a host: under the user's
/// development directory on macOS, under the home directory on Linux, and the
/// bare relative name anywhere else. A missing user or home value falls back
/// to a fixed placeholder.
pub open spec fn default_env_path(
    os: Seq<char>,
    user: Option<Seq<char>>,
    home: Option<Seq<char>>,
) -> Seq<char> {
    if os == "macos"@ {
        let u = match user {
            Some(t) => t,
            None => "unknown"@,
        };
        "/Users/"@ + u + "/Developer/discolaire/.env"@
    } else if os == "linux"@ {
        let h = match home {
            Some(t) => t,
            None => "/home/unknown"@,
        };
        h + "/discolaire/.env"@
    } else {
        ".env"@
    }
}

/// The default configuration-file path for the host named `os`, given the
/// `USER` and `HOME` values of its environment.
pub fn resolve_env_path(os: &str, user: Option<&String>, home: Option<&String>) -> (r: String)
    ensures
        r@ == default_env_path(os@, opt_view(user), opt_view(home)),
{
    if str_eq(os, "macos") {
        let mut out = String::from_str("/Users/");
        match user {
            Some(u) => out.append(u.as_str()),
            None => out.append("unknown"),
        }
        out.append("/Developer/discolaire/.env");
        proof {
            assert(out@ =~= default_env_path(os@, opt_view(user), opt_view(home)));
        }
        out
    } else if str_eq(os, "linux") {
        let mut out = match home {
            Some(h) => h.clone(),
            None => String::from_str("/home/unknown"),
        };
        out.append("/discolaire/.env");
        out
    } else {
        String::from_str(".env")
    }
}

/// The path of the diagnostic log: a fixed file name beside the
/// configuration file, or bare when the configuration path has no directory
/// part.
pub open spec fn log_path_chars(env_path: Seq<char>) -> Seq<char> {
    match last_index_of(env_path, '/') {
        Some(i) => env_path.take(i) + "/env-check.log"@,
        None => "env-check.log"@,
    }
}

/// Where the diagnostic log for the configuration file at `env_path` lives.
pub fn log_file_path(env_path: &str) -> (r: String)
    ensures
        r@ == log_path_chars(env_path@),
{
    match rfind_char_in(env_path, '/') {
        Some(i) => {
            proof {
                crate::text::lemma_last_index_of(env_path@, '/');
            }
            let mut out = String::from_str(env_path.substring_char(0, i));
            out.append("/env-check.log");
            proof {
                assert(env_path@.subrange(0, i as int) =~= env_path@.take(i as int));
            }
            out
        },
        None => String::from_str("env-check.log"),
    }
}

} // verus!
