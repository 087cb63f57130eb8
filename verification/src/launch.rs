//! Resolution of the server entry script and construction of the child
//! process launch plan.
//!
//! The entry script is `server.js` under the server directory, optionally
//! indirected through a one-line pointer file naming a subdirectory; an
//! absent, blank or `.` pointer means no indirection. The plan runs a fixed
//! runtime on that script from the server directory, with a baseline
//! environment (production mode, fixed port) overlaid by every parsed
//! configuration entry; on a key collision the overlay wins. When the entry
//! script does not exist on disk there is nothing to launch, and that is
//! success, not an error.
use vstd::prelude::*;
use vstd::string::*;
use crate::parse::{entries_view, EnvEntry};
use crate::paths::opt_view;
use crate::text::trim_chars;
use crate::text::trim_str;
use crate::validate::{has_key, lookup_last};

verus! {

/// The path of the entry script under `server_dir`, given the text of the
/// pointer file when it exists: straight `server.js` when the pointer is
/// absent, blank or the current-directory marker, otherwise `server.js` under
/// the named subdirectory.
pub open spec fn entry_script_path(server_dir: Seq<char>, pointer: Option<Seq<char>>)
    -> Seq<char> {
    let e = match pointer {
        Some(t) => trim_chars(t),
        None => Seq::<char>::empty(),
    };
    if e.len() == 0 || e == "."@ {
        server_dir + "/server.js"@
    } else {
        server_dir + "/"@ + e + "/server.js"@
    }
}

/// The environment every launch starts from: production mode and the fixed
/// port the bundled server listens on.
pub open spec fn baseline_env() -> Seq<(Seq<char>, Seq<char>)> {
    seq![("NODE_ENV"@, "production"@), ("PORT"@, "1430"@)]
}

/// Everything a spawn call needs: the runtime to run, the script argument,
/// the working directory, and the child environment in override order.
pub struct LaunchPlan {
    pub program: String,
    pub script: String,
    pub working_dir: String,
    pub env: Vec<EnvEntry>,
}

/// The path of the entry script under `server_dir`, given the pointer-file
/// text when that file could be read.
pub fn resolve_entry_script(server_dir: &str, pointer: Option<&String>) -> (r: String)
    ensures
        r@ == entry_script_path(server_dir@, opt_view(pointer)),
{
    let mut out = String::from_str(server_dir);
    match pointer {
        None => {
            out.append("/server.js");
        },
        Some(p) => {
            let e = trim_str(p.as_str());
            let el = e.unicode_len();
            let dot = el == 1 && e.get_char(0) == '.';
            proof {
                reveal_strlit(".");
                if dot {
                    assert(e@ =~= "."@);
                } else if el == 1 {
                    assert(e@[0] != "."@[0]);
                }
            }
            if el == 0 || dot {
                out.append("/server.js");
            } else {
                out.append("/");
                out.append(e);
                out.append("/server.js");
            }
        },
    }
    out
}

/// The plan that launches the entry script at `script` from `server_dir`:
/// the fixed runtime, the baseline environment, and every entry of `vars`
/// after it.
pub fn build_launch_plan(server_dir: &str, script: String, vars: &Vec<EnvEntry>) -> (p: LaunchPlan)
    ensures
        p.program@ == "node"@,
        p.script@ == script@,
        p.working_dir@ == server_dir@,
        entries_view(p.env@) == baseline_env() + entries_view(vars@),
{
    let mut env: Vec<EnvEntry> = Vec::new();
    env.push(EnvEntry { key: String::from_str("NODE_ENV"), value: String::from_str("production") });
    env.push(EnvEntry { key: String::from_str("PORT"), value: String::from_str("1430") });
    proof {
        assert(entries_view(env@) =~= baseline_env());
        assert(entries_view(vars@.take(0)) =~= Seq::<(Seq<char>, Seq<char>)>::empty());
        assert(entries_view(env@) =~= baseline_env() + entries_view(vars@.take(0)));
    }
    let mut i: usize = 0;
    while i < vars.len()
        invariant
            0 <= i <= vars.len(),
            entries_view(env@) == baseline_env() + entries_view(vars@.take(i as int)),
        decreases vars.len() - i,
    {
        let e = vars[i].duplicate();
        proof {
            assert(entries_view(env@.push(vars@[i as int])) =~= entries_view(env@).push(
                vars@[i as int]@,
            ));
            assert(entries_view(vars@.take(i as int + 1)) =~= entries_view(
                vars@.take(i as int),
            ).push(vars@[i as int]@));
            assert(baseline_env() + entries_view(vars@.take(i as int + 1)) =~= (baseline_env()
                + entries_view(vars@.take(i as int))).push(vars@[i as int]@));
        }
        env.push(e);
        i = i + 1;
    }
    proof {
        assert(vars@.take(vars.len() as int) =~= vars@);
    }
    LaunchPlan { program: String::from_str("node"), script, working_dir: String::from_str(
        server_dir,
    ), env }
}

/// What startup does about the server: when the entry script exists, the
/// launch plan for it; when it does not, nothing — a deliberate no-op
/// success, not an error.
pub fn plan_launch(
    server_dir: &str,
    pointer: Option<&String>,
    script_exists: bool,
    vars: &Vec<EnvEntry>,
) -> (r: Option<LaunchPlan>)
    ensures
        r is Some <==> script_exists,
        match r {
            Some(p) => p.program@ == "node"@ && p.script@ == entry_script_path(
                server_dir@,
                opt_view(pointer),
            ) && p.working_dir@ == server_dir@ && entries_view(p.env@) == baseline_env()
                + entries_view(vars@),
            None => true,
        },
{
    if !script_exists {
        return None;
    }
    let script = resolve_entry_script(server_dir, pointer);
    Some(build_launch_plan(server_dir, script, vars))
}

/// Looking a key up in `a + b` finds it in `b` when `b` carries it, and in
/// `a` otherwise: the later entries win.
pub proof fn lemma_lookup_last_concat(
    a: Seq<(Seq<char>, Seq<char>)>,
    b: Seq<(Seq<char>, Seq<char>)>,
    k: Seq<char>,
)
    ensures
        lookup_last(a + b, k) == if has_key(b, k) {
            lookup_last(b, k)
        } else {
            lookup_last(a, k)
        },
    decreases b.len(),
{
    if b.len() == 0 {
        assert(a + b =~= a);
        assert(!has_key(b, k));
    } else {
        assert((a + b).last() == b.last());
        if b.last().0 == k {
            assert(has_key(b, k));
        } else {
            assert((a + b).drop_last() =~= a + b.drop_last());
            lemma_lookup_last_concat(a, b.drop_last(), k);
            if has_key(b, k) {
                let i = choose|i: int| 0 <= i < b.len() && b[i].0 == k;
                assert(b.drop_last()[i] == b[i]);
                assert(has_key(b.drop_last(), k));
            }
            if has_key(b.drop_last(), k) {
                let i = choose|i: int| 0 <= i < b.drop_last().len() && b.drop_last()[i].0 == k;
                assert(b[i] == b.drop_last()[i]);
                assert(has_key(b, k));
            }
        }
    }
}

/// The launch environment always carries the two baseline keys — production
/// mode and the fixed port — and a configuration entry with the same name
/// overrides the baseline value, while any other key resolves exactly as in
/// the configuration.
pub proof fn lemma_baseline_env_overlay(vars: Seq<(Seq<char>, Seq<char>)>, k: Seq<char>)
    ensures
        has_key(vars, k) ==> lookup_last(baseline_env() + vars, k) == lookup_last(vars, k),
        !has_key(vars, k) ==> lookup_last(baseline_env() + vars, k) == lookup_last(
            baseline_env(),
            k,
        ),
        lookup_last(baseline_env(), "NODE_ENV"@) == Some("production"@),
        lookup_last(baseline_env(), "PORT"@) == Some("1430"@),
        has_key(baseline_env() + vars, "NODE_ENV"@),
        has_key(baseline_env() + vars, "PORT"@),
{
    lemma_lookup_last_concat(baseline_env(), vars, k);
    reveal_strlit("NODE_ENV");
    reveal_strlit("PORT");
    assert("NODE_ENV"@.len() == 8 && "PORT"@.len() == 4);
    assert("PORT"@ != "NODE_ENV"@);
    let base = baseline_env();
    assert(base.last() == ("PORT"@, "1430"@));
    assert(base.drop_last() =~= seq![("NODE_ENV"@, "production"@)]);
    assert(lookup_last(base, "PORT"@) == Some("1430"@));
    assert(base.drop_last().last() == ("NODE_ENV"@, "production"@));
    assert(lookup_last(base, "NODE_ENV"@) == lookup_last(base.drop_last(), "NODE_ENV"@));
    assert(lookup_last(base.drop_last(), "NODE_ENV"@) == Some("production"@));
    assert((base + vars)[0] == ("NODE_ENV"@, "production"@));
    assert((base + vars)[1] == ("PORT"@, "1430"@));
}

} // verus!
