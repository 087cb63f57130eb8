//! Composition of the diagnostic log block written beside the configuration
//! file on every load attempt: the resolved path, the count of present keys,
//! the validation findings, and a dump of the entries sorted by key, one key
//! once, the last occurrence winning.
use vstd::prelude::*;
use vstd::string::*;
use crate::fmt::{dec_rep, format_usize, join_comma, join_keys};
use crate::parse::{entries_view, EnvEntry};
use crate::text::{
    lemma_lex_lt_connected, lemma_lex_lt_irreflexive, lemma_lex_lt_transitive, lex_lt, str_lex_lt,
    strings_view,
};
use crate::validate::{has_key, lemma_lookup_last_has_key, lookup_last, ValidationReport};

verus! {

/// Whether no two entries carry the same key.
pub open spec fn keys_distinct(s: Seq<(Seq<char>, Seq<char>)>) -> bool {
    forall|i: int, j: int| 0 <= i < j < s.len() ==> s[i].0 != s[j].0
}

/// Whether the entries stand in strictly increasing key order.
pub open spec fn entry_keys_sorted(s: Seq<(Seq<char>, Seq<char>)>) -> bool {
    forall|i: int, j: int| 0 <= i < j < s.len() ==> lex_lt(s[i].0, s[j].0)
}

/// Strictly increasing keys are pairwise distinct.
pub proof fn lemma_sorted_keys_distinct(s: Seq<(Seq<char>, Seq<char>)>)
    requires
        entry_keys_sorted(s),
    ensures
        keys_distinct(s),
{
    assert forall|i: int, j: int| 0 <= i < j < s.len() implies s[i].0 != s[j].0 by {
        lemma_lex_lt_irreflexive(s[i].0);
        assert(lex_lt(s[i].0, s[j].0));
    }
}

/// With pairwise distinct keys, looking an entry's key up yields that entry's
/// value.
pub proof fn lemma_lookup_at(s: Seq<(Seq<char>, Seq<char>)>, i: int)
    requires
        keys_distinct(s),
        0 <= i < s.len(),
    ensures
        lookup_last(s, s[i].0) == Some(s[i].1),
    decreases s.len(),
{
    if i == s.len() - 1 {
    } else {
        assert(s.last().0 != s[i].0);
        assert(forall|a: int, b: int|
            0 <= a < b < s.drop_last().len() ==> s.drop_last()[a].0 != s.drop_last()[b].0);
        lemma_lookup_at(s.drop_last(), i);
        assert(s.drop_last()[i] == s[i]);
    }
}

/// With pairwise distinct keys, a lookup either names a witness entry or the
/// key is absent.
pub proof fn lemma_lookup_by_witness(s: Seq<(Seq<char>, Seq<char>)>, k: Seq<char>)
    requires
        keys_distinct(s),
    ensures
        has_key(s, k) ==> exists|t: int|
            0 <= t < s.len() && s[t].0 == k && lookup_last(s, k) == Some(s[t].1),
        !has_key(s, k) ==> lookup_last(s, k) is None,
{
    lemma_lookup_last_has_key(s, k);
    if has_key(s, k) {
        let t = choose|t: int| 0 <= t < s.len() && s[t].0 == k;
        lemma_lookup_at(s, t);
    }
}

/// The entries of `entries`, one key once, the last occurrence of a key
/// winning, in strictly increasing key order: what the value dump of the
/// diagnostic log shows, and how many distinct keys are present.
pub fn sorted_unique_env(entries: &Vec<EnvEntry>) -> (r: Vec<EnvEntry>)
    ensures
        entry_keys_sorted(entries_view(r@)),
        forall|k: Seq<char>|
            lookup_last(entries_view(r@), k) == lookup_last(entries_view(entries@), k),
{
    let ghost ev = entries_view(entries@);
    let mut out: Vec<EnvEntry> = Vec::new();
    let mut i: usize = 0;
    proof {
        assert(entries_view(out@) =~= Seq::<(Seq<char>, Seq<char>)>::empty());
        assert(ev.take(0) =~= Seq::<(Seq<char>, Seq<char>)>::empty());
    }
    while i < entries.len()
        invariant
            ev == entries_view(entries@),
            ev.len() == entries.len(),
            0 <= i <= entries.len(),
            entry_keys_sorted(entries_view(out@)),
            forall|k: Seq<char>|
                lookup_last(entries_view(out@), k) == lookup_last(ev.take(i as int), k),
        decreases entries.len() - i,
    {
        let ghost ov = entries_view(out@);
        let ghost ek = ev[i as int].0;
        let ghost evv = ev[i as int].1;
        proof {
            assert(ev[i as int] == entries@[i as int]@);
            lemma_sorted_keys_distinct(ov);
        }
        let e = entries[i].duplicate();
        let mut pos: usize = 0;
        while pos < out.len() && str_lex_lt(out[pos].key.as_str(), e.key.as_str())
            invariant
                ov == entries_view(out@),
                ov.len() == out.len(),
                ek == e.key@,
                evv == e.value@,
                0 <= pos <= out.len(),
                forall|t: int| 0 <= t < pos ==> lex_lt(ov[t].0, ek),
            decreases out.len() - pos,
        {
            proof {
                assert(ov[pos as int].0 == out@[pos as int]@.0);
            }
            pos = pos + 1;
        }
        proof {
            assert(pos < out.len() ==> ov[pos as int].0 == out@[pos as int]@.0);
        }
        if pos < out.len() && out[pos].key == *(&e.key) {
            // The key is already there: the later occurrence replaces it.
            proof {
                assert(ov[pos as int].0 == ek);
            }
            out.set(pos, e);
            proof {
                let ov2 = entries_view(out@);
                assert(ov2 =~= ov.update(pos as int, (ek, evv)));
                assert(forall|t: int| 0 <= t < ov.len() && t != pos ==> ov2[t] == ov[t]);
                assert(forall|t: int| 0 <= t < ov.len() ==> ov2[t].0 == ov[t].0);
                assert(entry_keys_sorted(ov2));
                lemma_sorted_keys_distinct(ov2);
                assert forall|k: Seq<char>|
                    lookup_last(ov2, k) == lookup_last(ev.take(i as int + 1), k) by {
                    let t1 = ev.take(i as int + 1);
                    assert(t1.last() == ev[i as int]);
                    assert(t1.drop_last() =~= ev.take(i as int));
                    if k == ek {
                        lemma_lookup_at(ov2, pos as int);
                    } else {
                        lemma_lookup_by_witness(ov, k);
                        lemma_lookup_by_witness(ov2, k);
                        if has_key(ov, k) {
                            let t = choose|t: int|
                                0 <= t < ov.len() && ov[t].0 == k && lookup_last(ov, k) == Some(
                                    ov[t].1,
                                );
                            assert(ov2[t] == ov[t]);
                            lemma_lookup_at(ov2, t);
                        } else {
                            if has_key(ov2, k) {
                                let t = choose|t: int| 0 <= t < ov2.len() && ov2[t].0 == k;
                                assert(ov[t].0 == k);
                            }
                        }
                    }
                }
            }
        } else {
            // A new key: it goes in at its ordered place.
            proof {
                // The key cannot occur anywhere else in `out` either.
                assert forall|t: int| 0 <= t < ov.len() implies ov[t].0 != ek by {
                    if t < pos {
                        lemma_lex_lt_irreflexive(ek);
                    } else if t == pos {
                        assert(ov[pos as int].0 == out@[pos as int]@.0);
                    } else {
                        if ov[t].0 == ek {
                            if pos < ov.len() && ov[pos as int].0 != ek {
                                lemma_lex_lt_connected(ov[pos as int].0, ek);
                                lemma_lex_lt_transitive(ek, ov[pos as int].0, ov[t].0);
                                lemma_lex_lt_irreflexive(ek);
                            }
                        }
                    }
                }
                // Everything at or after the insertion point comes after the key.
                if pos < ov.len() {
                    lemma_lex_lt_connected(ov[pos as int].0, ek);
                }
                assert forall|t: int| pos <= t < ov.len() implies lex_lt(ek, ov[t].0) by {
                    if t > pos {
                        lemma_lex_lt_transitive(ek, ov[pos as int].0, ov[t].0);
                    }
                }
            }
            out.insert(pos, e);
            proof {
                let ov2 = entries_view(out@);
                ov.insert_ensures(pos as int, (ek, evv));
                assert(ov2 =~= ov.insert(pos as int, (ek, evv)));
                assert(forall|t: int| 0 <= t < pos ==> ov2[t] == ov[t]);
                assert(forall|t: int| pos <= t < ov.len() ==> ov2[t + 1] == ov[t]);
                assert(ov2[pos as int] == (ek, evv));
                assert forall|a: int, b: int| 0 <= a < b < ov2.len() implies lex_lt(
                    ov2[a].0,
                    ov2[b].0,
                ) by {
                    if a < pos && b < pos {
                    } else if a < pos && b == pos {
                    } else if a < pos && b > pos {
                        assert(ov2[b] == ov[b - 1]);
                    } else if a == pos {
                        assert(ov2[b] == ov[b - 1]);
                    } else {
                        assert(ov2[a] == ov[a - 1]);
                        assert(ov2[b] == ov[b - 1]);
                    }
                }
                lemma_sorted_keys_distinct(ov2);
                assert forall|k: Seq<char>|
                    lookup_last(ov2, k) == lookup_last(ev.take(i as int + 1), k) by {
                    let t1 = ev.take(i as int + 1);
                    assert(t1.last() == ev[i as int]);
                    assert(t1.drop_last() =~= ev.take(i as int));
                    if k == ek {
                        lemma_lookup_at(ov2, pos as int);
                    } else {
                        lemma_lookup_by_witness(ov, k);
                        lemma_lookup_by_witness(ov2, k);
                        if has_key(ov, k) {
                            let t = choose|t: int|
                                0 <= t < ov.len() && ov[t].0 == k && lookup_last(ov, k) == Some(
                                    ov[t].1,
                                );
                            if t < pos {
                                assert(ov2[t] == ov[t]);
                                lemma_lookup_at(ov2, t);
                            } else {
                                assert(ov2[t + 1] == ov[t]);
                                lemma_lookup_at(ov2, t + 1);
                            }
                        } else {
                            if has_key(ov2, k) {
                                let t = choose|t: int| 0 <= t < ov2.len() && ov2[t].0 == k;
                                if t < pos {
                                    assert(ov[t].0 == k);
                                } else if t == pos {
                                } else {
                                    assert(ov[t - 1].0 == k);
                                }
                            }
                        }
                    }
                }
            }
        }
        i = i + 1;
    }
    proof {
        assert(ev.take(entries@.len() as int) =~= ev);
    }
    out
}

/// One dump line per entry: two spaces, the key, `=`, the value, a line feed.
pub open spec fn values_block(entries: Seq<(Seq<char>, Seq<char>)>) -> Seq<char>
    decreases entries.len(),
{
    if entries.len() == 0 {
        Seq::empty()
    } else {
        "  "@ + entries[0].0 + "="@ + entries[0].1 + "\n"@ + values_block(entries.drop_first())
    }
}

/// The value dump of the log: one line per entry of `sorted`.
pub fn render_values_block(sorted: &Vec<EnvEntry>) -> (r: String)
    ensures
        r@ == values_block(entries_view(sorted@)),
{
    let ghost sv = entries_view(sorted@);
    let mut out = String::new();
    let mut j: usize = 0;
    proof {
        assert(sv.skip(0) =~= sv);
    }
    while j < sorted.len()
        invariant
            sv == entries_view(sorted@),
            sv.len() == sorted.len(),
            0 <= j <= sorted.len(),
            out@ + values_block(sv.skip(j as int)) == values_block(sv),
        decreases sorted.len() - j,
    {
        out.append("  ");
        out.append(sorted[j].key.as_str());
        out.append("=");
        out.append(sorted[j].value.as_str());
        out.append("\n");
        proof {
            let tail = sv.skip(j as int);
            assert(tail[0] == sv[j as int]);
            assert(sv[j as int] == sorted@[j as int]@);
            assert(tail.drop_first() =~= sv.skip(j as int + 1));
            assert(out@ + values_block(sv.skip(j as int + 1)) =~= values_block(sv));
        }
        j = j + 1;
    }
    proof {
        assert(values_block(sv.skip(sorted@.len() as int)) =~= Seq::<char>::empty());
        assert(out@ =~= out@ + values_block(sv.skip(sorted@.len() as int)));
    }
    out
}

/// The whole diagnostic log block: the path, the count of present keys, the
/// findings when there are any, the sorted value dump, and an `ok` status
/// when there is no finding.
pub open spec fn env_log_text(
    path: Seq<char>,
    missing: Seq<Seq<char>>,
    empty: Seq<Seq<char>>,
    sorted: Seq<(Seq<char>, Seq<char>)>,
) -> Seq<char> {
    let head = "env path: "@ + path + "\npresent keys: "@ + dec_rep(sorted.len() as int) + "\n"@;
    let m = if missing.len() > 0 {
        "missing: "@ + join_comma(missing) + "\n"@
    } else {
        Seq::<char>::empty()
    };
    let e = if empty.len() > 0 {
        "empty: "@ + join_comma(empty) + "\n"@
    } else {
        Seq::<char>::empty()
    };
    let status = if missing.len() == 0 && empty.len() == 0 {
        "status: ok\n"@
    } else {
        Seq::<char>::empty()
    };
    head + m + e + "values:\n"@ + values_block(sorted) + status
}

/// The diagnostic log block for the file at `path`, given the validation
/// findings and the sorted unique entries of its dump.
pub fn build_env_log(path: &str, report: &ValidationReport, sorted: &Vec<EnvEntry>) -> (r: String)
    ensures
        r@ == env_log_text(
            path@,
            strings_view(report.missing@),
            strings_view(report.empty@),
            entries_view(sorted@),
        ),
{
    let mut out = String::from_str("env path: ");
    out.append(path);
    out.append("\npresent keys: ");
    let count = format_usize(sorted.len());
    out.append(count.as_str());
    out.append("\n");
    if report.missing.len() > 0 {
        out.append("missing: ");
        let m = join_keys(&report.missing);
        out.append(m.as_str());
        out.append("\n");
    }
    if report.empty.len() > 0 {
        out.append("empty: ");
        let e = join_keys(&report.empty);
        out.append(e.as_str());
        out.append("\n");
    }
    out.append("values:\n");
    let vals = render_values_block(sorted);
    out.append(vals.as_str());
    if report.missing.len() == 0 && report.empty.len() == 0 {
        out.append("status: ok\n");
    }
    proof {
        assert(out@ =~= env_log_text(
            path@,
            strings_view(report.missing@),
            strings_view(report.empty@),
            entries_view(sorted@),
        ));
    }
    out
}

/// The sorted unique entries of `entries` and the diagnostic log block that
/// dumps them, in one step.
pub fn render_env_log(path: &str, entries: &Vec<EnvEntry>, report: &ValidationReport) -> (r: (
    Vec<EnvEntry>,
    String,
))
    ensures
        entry_keys_sorted(entries_view(r.0@)),
        forall|k: Seq<char>|
            lookup_last(entries_view(r.0@), k) == lookup_last(entries_view(entries@), k),
        r.1@ == env_log_text(
            path@,
            strings_view(report.missing@),
            strings_view(report.empty@),
            entries_view(r.0@),
        ),
{
    let sorted = sorted_unique_env(entries);
    let log = build_env_log(path, report, &sorted);
    (sorted, log)
}

} // verus!
