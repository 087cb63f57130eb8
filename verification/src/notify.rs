//! Construction of the texts the shell shows or logs when configuration is
//! missing or incomplete: the alert and console messages, and the escaping
//! that makes a message safe inside a single-quoted script literal.
use vstd::prelude::*;
use vstd::string::*;
use crate::fmt::join_comma;
use crate::fmt::join_keys;
use crate::text::strings_view;

verus! {

/// How one character appears inside a single-quoted script literal:
/// backslashes, single quotes, line feeds and carriage returns gain an
/// escape, everything else stands as it is.
pub open spec fn escape_char(c: char) -> Seq<char> {
    if c == '\\' {
        seq!['\\', '\\']
    } else if c == '\'' {
        seq!['\\', '\'']
    } else if c == '\n' {
        seq!['\\', 'n']
    } else if c == '\r' {
        seq!['\\', 'r']
    } else {
        seq![c]
    }
}

/// `s` with every character escaped for a single-quoted script literal.
pub open spec fn escape_js(s: Seq<char>) -> Seq<char>
    decreases s.len(),
{
    if s.len() == 0 {
        Seq::empty()
    } else {
        escape_char(s[0]) + escape_js(s.drop_first())
    }
}

/// `value` with backslashes, single quotes, line feeds and carriage returns
/// escaped, safe inside a single-quoted script literal.
pub fn escape_js_string(value: &str) -> (r: String)
    ensures
        r@ == escape_js(value@),
{
    proof {
        reveal_strlit("\\\\");
        reveal_strlit("\\'");
        reveal_strlit("\\n");
        reveal_strlit("\\r");
    }
    let n = value.unicode_len();
    let mut out = String::new();
    let mut i: usize = 0;
    proof {
        assert(value@.skip(0) =~= value@);
    }
    while i < n
        invariant
            n == value@.len(),
            0 <= i <= n,
            out@ + escape_js(value@.skip(i as int)) == escape_js(value@),
        decreases n - i,
    {
        let c = value.get_char(i);
        proof {
            reveal_strlit("\\\\");
            reveal_strlit("\\'");
            reveal_strlit("\\n");
            reveal_strlit("\\r");
            let tail = value@.skip(i as int);
            assert(tail[0] == value@[i as int]);
            assert(tail.drop_first() =~= value@.skip(i as int + 1));
        }
        if c == '\\' {
            proof {
                assert(("\\\\")@ =~= escape_char(c));
            }
            out.append("\\\\");
        } else if c == '\'' {
            proof {
                assert(("\\'")@ =~= escape_char(c));
            }
            out.append("\\'");
        } else if c == '\n' {
            proof {
                assert(("\\n")@ =~= escape_char(c));
            }
            out.append("\\n");
        } else if c == '\r' {
            proof {
                assert(("\\r")@ =~= escape_char(c));
            }
            out.append("\\r");
        } else {
            let piece = value.substring_char(i, i + 1);
            proof {
                assert(piece@ =~= escape_char(c));
            }
            out.append(piece);
        }
        proof {
            assert(out@ + escape_js(value@.skip(i as int + 1)) =~= escape_js(value@));
        }
        i = i + 1;
    }
    proof {
        assert(escape_js(value@.skip(n as int)) =~= Seq::<char>::empty());
        assert(out@ =~= out@ + escape_js(value@.skip(n as int)));
    }
    out
}

/// The script that shows `msg` as an alert in the application window.
pub open spec fn alert_script_chars(msg: Seq<char>) -> Seq<char> {
    "alert('"@ + escape_js(msg) + "')"@
}

/// The script that shows `msg` as an alert in the application window, with
/// the message escaped for its single-quoted literal.
pub fn alert_script(msg: &str) -> (r: String)
    ensures
        r@ == alert_script_chars(msg@),
{
    let mut out = String::from_str("alert('");
    let escaped = escape_js_string(msg);
    out.append(escaped.as_str());
    out.append("')");
    out
}

/// The message shown when the configuration file itself is absent.
pub open spec fn missing_file_message_chars(path: Seq<char>) -> Seq<char> {
    "Missing .env file at "@ + path
}

/// The message shown when the configuration file at `path` is absent.
pub fn missing_file_message(path: &str) -> (r: String)
    ensures
        r@ == missing_file_message_chars(path@),
{
    let mut out = String::from_str("Missing .env file at ");
    out.append(path);
    out
}

/// What the diagnostic log holds when the configuration file is absent.
pub fn missing_file_log_text() -> (r: String)
    ensures
        r@ == "missing .env file\n"@,
{
    String::from_str("missing .env file\n")
}

/// The console line reporting a successful load of the configuration file.
pub open spec fn loaded_message_chars(path: Seq<char>) -> Seq<char> {
    "Loaded .env from "@ + path
}

/// The console line reporting a successful load from `path`.
pub fn loaded_message(path: &str) -> (r: String)
    ensures
        r@ == loaded_message_chars(path@),
{
    let mut out = String::from_str("Loaded .env from ");
    out.append(path);
    out
}

/// The message listing the validation findings for the file at `path`: the
/// missing keys and the keys with blank values, each comma-separated.
pub open spec fn invalid_env_message_chars(
    path: Seq<char>,
    missing: Seq<Seq<char>>,
    empty: Seq<Seq<char>>,
) -> Seq<char> {
    "Invalid env vars in "@ + path + ": missing ["@ + join_comma(missing) + "], empty ["@
        + join_comma(empty) + "]"@
}

/// The message listing the missing keys and the keys with blank values found
/// in the configuration file at `path`.
pub fn invalid_env_message(path: &str, missing: &Vec<String>, empty: &Vec<String>) -> (r: String)
    ensures
        r@ == invalid_env_message_chars(path@, strings_view(missing@), strings_view(empty@)),
{
    let mut out = String::from_str("Invalid env vars in ");
    out.append(path);
    out.append(": missing [");
    let m = join_keys(missing);
    out.append(m.as_str());
    out.append("], empty [");
    let e = join_keys(empty);
    out.append(e.as_str());
    out.append("]");
    out
}

} // verus!
