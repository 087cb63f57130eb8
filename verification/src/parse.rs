//! Parsing of `.env`-style configuration text into key/value entries.
//!
//! The format is line oriented: blank lines and lines whose first non-blank
//! character is `#` carry nothing; a leading `export ` token is stripped; the
//! rest is split at the first `=` into a trimmed key and a trimmed value, and
//! a value wrapped in one matching pair of single or double quotes loses that
//! outer pair. A line whose key trims to nothing is skipped; parsing itself
//! never fails.
use vstd::prelude::*;
use vstd::string::*;
use crate::text::{
    find_char_in, first_index_of, has_prefix, is_env_space, lemma_first_index_of,
    lemma_first_index_of_at, lemma_trim_end_concat, lemma_trim_end_concat_all_space,
    lemma_trim_end_shape, lemma_trim_nonempty, lemma_trim_of_trims, lemma_trim_start_concat,
    lemma_trim_start_shape, str_has_prefix, trim_chars, trim_end_chars, trim_start_chars, trim_str,
};

verus! {

/// One parsed configuration entry: a key and its value.
pub struct EnvEntry {
    pub key: String,
    pub value: String,
}

impl View for EnvEntry {
    type V = (Seq<char>, Seq<char>);

    open spec fn view(&self) -> (Seq<char>, Seq<char>) {
        (self.key@, self.value@)
    }
}

impl EnvEntry {
    /// A copy of this entry with the same key and value.
    pub fn duplicate(&self) -> (r: EnvEntry)
        ensures
            r@ == self@,
    {
        EnvEntry { key: self.key.clone(), value: self.value.clone() }
    }
}

/// The key/value pairs that a sequence of entries holds.
pub open spec fn entries_view(s: Seq<EnvEntry>) -> Seq<(Seq<char>, Seq<char>)> {
    s.map_values(|e: EnvEntry| e@)
}

/// `v` without its outer quote pair when it is wrapped in exactly one
/// matching pair of `"` or `'`; otherwise `v` unchanged.
pub open spec fn unquote_chars(v: Seq<char>) -> Seq<char> {
    if v.len() >= 2 && ((v.first() == '"' && v.last() == '"') || (v.first() == '\''
        && v.last() == '\'')) {
        v.subrange(1, v.len() - 1)
    } else {
        v
    }
}

/// The `export ` token that may precede a key.
pub open spec fn export_token() -> Seq<char> {
    "export "@
}

/// What one line of configuration text contributes: `None` for blank lines,
/// comments and lines without a key, otherwise the trimmed key and the
/// trimmed, unquoted value.
pub open spec fn parse_line(line: Seq<char>) -> Option<(Seq<char>, Seq<char>)> {
    let t = trim_chars(line);
    if t.len() == 0 || t[0] == '#' {
        None
    } else {
        let u = if has_prefix(t, export_token()) {
            trim_chars(t.skip(export_token().len() as int))
        } else {
            t
        };
        let rawk = match first_index_of(u, '=') {
            Some(i) => u.take(i),
            None => u,
        };
        let rawv = match first_index_of(u, '=') {
            Some(i) => u.skip(i + 1),
            None => Seq::<char>::empty(),
        };
        let k = trim_chars(rawk);
        if k.len() == 0 {
            None
        } else {
            Some((k, unquote_chars(trim_chars(rawv))))
        }
    }
}

/// The pieces of `s` between line feeds, in order.
pub open spec fn split_lines(s: Seq<char>) -> Seq<Seq<char>>
    decreases s.len(),
    via split_lines_decreases
{
    match first_index_of(s, '\n') {
        Some(i) => seq![s.take(i)] + split_lines(s.skip(i + 1)),
        None => seq![s],
    }
}

#[via_fn]
proof fn split_lines_decreases(s: Seq<char>) {
    lemma_first_index_of(s, '\n');
}

/// The entries that a sequence of lines contributes, in order.
pub open spec fn parse_lines(lines: Seq<Seq<char>>) -> Seq<(Seq<char>, Seq<char>)>
    decreases lines.len(),
{
    if lines.len() == 0 {
        Seq::empty()
    } else {
        match parse_line(lines[0]) {
            Some(p) => seq![p] + parse_lines(lines.drop_first()),
            None => parse_lines(lines.drop_first()),
        }
    }
}

/// The entries that whole configuration text contributes, in order.
pub open spec fn parse_env_chars(s: Seq<char>) -> Seq<(Seq<char>, Seq<char>)> {
    parse_lines(split_lines(s))
}

/// A line that is blank, or whose first character after trimming is `#`,
/// contributes no entry.
pub proof fn lemma_blank_or_comment_line(line: Seq<char>)
    requires
        trim_chars(line).len() == 0 || trim_chars(line)[0] == '#',
    ensures
        parse_line(line) is None,
{
}

/// A value wrapped in exactly one matching pair of quote characters loses
/// that pair.
pub proof fn lemma_unquote_quoted(v: Seq<char>)
    requires
        v.len() >= 2,
        (v.first() == '"' && v.last() == '"') || (v.first() == '\'' && v.last() == '\''),
    ensures
        unquote_chars(v) == v.subrange(1, v.len() - 1),
{
}

/// A value without a matching outer quote pair stays as it is.
pub proof fn lemma_unquote_unquoted(v: Seq<char>)
    requires
        !(v.len() >= 2 && ((v.first() == '"' && v.last() == '"') || (v.first() == '\''
            && v.last() == '\''))),
    ensures
        unquote_chars(v) == v,
{
}

/// A well-formed `KEY=VALUE` line — a key part without `=` that keeps a
/// character other than `#` after trimming, not opening with the `export `
/// token — contributes exactly one entry: the trimmed key with the trimmed,
/// unquoted value.
pub proof fn lemma_parse_key_value_line(k: Seq<char>, v: Seq<char>)
    requires
        forall|t: int| 0 <= t < k.len() ==> k[t] != '=',
        trim_chars(k).len() > 0,
        trim_chars(k)[0] != '#',
        !has_prefix(trim_chars(k + "="@ + v), export_token()),
    ensures
        parse_line(k + "="@ + v) == Some((trim_chars(k), unquote_chars(trim_chars(v)))),
{
    reveal_strlit("=");
    let eq = "="@;
    assert(eq.len() == 1 && eq[0] == '=');
    let line = k + eq + v;
    lemma_trim_nonempty(k);
    let a = trim_start_chars(k);
    lemma_trim_start_shape(k);
    lemma_trim_start_concat(k, eq + v);
    assert(k + (eq + v) =~= line);
    assert(trim_start_chars(line) == a + (eq + v));
    let w = a + eq;
    assert(w.last() == '=');
    assert(!is_env_space('='));
    lemma_trim_end_shape(v);
    let t = trim_chars(line);
    if trim_end_chars(v).len() > 0 {
        lemma_trim_end_concat(w, v);
        assert(w + v =~= a + (eq + v));
        assert(t == w + trim_end_chars(v));
    } else {
        lemma_trim_end_concat_all_space(w, v);
        assert(w + v =~= a + (eq + v));
        assert(t == w);
        assert(t =~= w + trim_end_chars(v));
    }
    assert(t =~= a + eq + trim_end_chars(v));
    // The line keeps text and no comment marker: the parse reaches the split.
    assert(t.len() > 0);
    assert(t[0] == a[0]);
    assert(trim_chars(k)[0] == a[0]) by {
        lemma_trim_nonempty(k);
    }
    assert(t[0] != '#');
    // The first `=` of the trimmed line closes the key part.
    assert(forall|i: int| 0 <= i < a.len() ==> a[i] == k[k.len() - a.len() + i]);
    assert(forall|i: int| 0 <= i < a.len() ==> a[i] != '=');
    assert(t[a.len() as int] == '=');
    lemma_first_index_of_at(t, '=', a.len() as int);
    assert(first_index_of(t, '=') == Some(a.len() as int));
    let rawk = t.take(a.len() as int);
    let rawv = t.skip(a.len() as int + 1);
    assert(rawk =~= a);
    assert(rawv =~= trim_end_chars(v));
    // Trimming the already half-trimmed parts equals trimming the whole parts.
    lemma_trim_of_trims(k);
    assert(trim_chars(rawk) == trim_chars(k));
    lemma_trim_of_trims(v);
    assert(trim_chars(rawv) == trim_chars(v));
}

/// A line with the `export ` token parses exactly as the line without it,
/// whenever the rest keeps text after trimming, is no comment, and does not
/// itself open with the token.
pub proof fn lemma_export_line(l: Seq<char>)
    requires
        trim_chars(l).len() > 0,
        trim_chars(l)[0] != '#',
        !has_prefix(trim_chars(l), export_token()),
    ensures
        parse_line(export_token() + l) == parse_line(l),
{
    reveal_strlit("export ");
    let ex = export_token();
    assert(ex.len() == 7 && ex[0] == 'e');
    let line = ex + l;
    assert(line[0] == 'e');
    assert(!is_env_space('e'));
    assert(trim_start_chars(line) == line);
    lemma_trim_nonempty(l);
    assert(trim_end_chars(l).len() > 0);
    lemma_trim_end_concat(ex, l);
    let t = trim_chars(line);
    assert(t == ex + trim_end_chars(l));
    assert(t.len() > 0);
    assert(t[0] == 'e');
    assert(t[0] != '#') by {
        reveal_strlit("export ");
    }
    assert(has_prefix(t, ex)) by {
        assert(t.take(ex.len() as int) =~= ex);
    }
    let u = trim_chars(t.skip(ex.len() as int));
    assert(t.skip(ex.len() as int) =~= trim_end_chars(l));
    lemma_trim_of_trims(l);
    assert(u == trim_chars(l));
    // The plain line goes through the same split on the same text.
    assert(parse_line(l) == parse_line_from(trim_chars(l))) by {
        assert(trim_chars(l).len() > 0 && trim_chars(l)[0] != '#');
    }
    assert(parse_line(line) == parse_line_from(u));
}

/// What the parse of a line yields once the trimmed text `u` — nonempty, no
/// comment, the `export ` token already stripped — is in hand.
pub open spec fn parse_line_from(u: Seq<char>) -> Option<(Seq<char>, Seq<char>)> {
    let rawk = match first_index_of(u, '=') {
        Some(i) => u.take(i),
        None => u,
    };
    let rawv = match first_index_of(u, '=') {
        Some(i) => u.skip(i + 1),
        None => Seq::<char>::empty(),
    };
    let k = trim_chars(rawk);
    if k.len() == 0 {
        None
    } else {
        Some((k, unquote_chars(trim_chars(rawv))))
    }
}

/// `value` without its outer quote pair when it is wrapped in exactly one
/// matching pair of `"` or `'`; otherwise `value` unchanged.
pub fn unquote_env_value(value: &str) -> (r: String)
    ensures
        r@ == unquote_chars(value@),
{
    let n = value.unicode_len();
    if n >= 2 {
        let first = value.get_char(0);
        let last = value.get_char(n - 1);
        if (first == '"' && last == '"') || (first == '\'' && last == '\'') {
            return String::from_str(value.substring_char(1, n - 1));
        }
    }
    String::from_str(value)
}

/// The entry that one line of configuration text contributes, if any.
pub fn parse_env_line(line: &str) -> (r: Option<EnvEntry>)
    ensures
        match r {
            Some(e) => parse_line(line@) == Some(e@),
            None => parse_line(line@) is None,
        },
{
    proof {
        reveal_strlit("export ");
        reveal_strlit("");
    }
    let t = trim_str(line);
    let n = t.unicode_len();
    if n == 0 {
        return None;
    }
    if t.get_char(0) == '#' {
        return None;
    }
    let u: &str = if str_has_prefix(t, "export ") {
        let rest = t.substring_char(7, n);
        proof {
            assert(rest@ =~= t@.skip(export_token().len() as int));
        }
        trim_str(rest)
    } else {
        t
    };
    let ghost su = if has_prefix(t@, export_token()) {
        trim_chars(t@.skip(export_token().len() as int))
    } else {
        t@
    };
    assert(u@ == su);
    let m = u.unicode_len();
    let found = find_char_in(u, '=');
    proof {
        lemma_first_index_of(u@, '=');
    }
    let rawk: &str = match found {
        Some(i) => u.substring_char(0, i),
        None => u,
    };
    let rawv: &str = match found {
        Some(i) => u.substring_char(i + 1, m),
        None => "",
    };
    proof {
        match first_index_of(su, '=') {
            Some(i) => {
                assert(rawk@ =~= su.take(i));
                assert(rawv@ =~= su.skip(i + 1));
            },
            None => {
                assert(rawv@ =~= Seq::<char>::empty());
            },
        }
    }
    let k = trim_str(rawk);
    if k.unicode_len() == 0 {
        return None;
    }
    let v0 = trim_str(rawv);
    let v = unquote_env_value(v0);
    let e = EnvEntry { key: String::from_str(k), value: v };
    Some(e)
}

/// The lines of `s`, split at line feeds.
pub fn split_text_lines(s: &str) -> (r: Vec<String>)
    ensures
        r@.map_values(|t: String| t@) == split_lines(s@),
{
    let n = s.unicode_len();
    let mut out: Vec<String> = Vec::new();
    let mut start: usize = 0;
    let mut pos: usize = 0;
    proof {
        assert(s@.skip(0) =~= s@);
    }
    while pos < n
        invariant
            n == s@.len(),
            0 <= start <= pos <= n,
            forall|k: int| start <= k < pos ==> s@[k] != '\n',
            out@.map_values(|t: String| t@) + split_lines(s@.skip(start as int)) =~~= split_lines(
                s@,
            ),
        decreases n - pos,
    {
        if s.get_char(pos) == '\n' {
            let piece = String::from_str(s.substring_char(start, pos));
            proof {
                let tail = s@.skip(start as int);
                assert(forall|k: int| 0 <= k < tail.len() ==> tail[k] == s@[start + k]);
                lemma_first_index_of_at(tail, '\n', pos - start);
                assert(tail.take(pos - start) =~= piece@);
                assert(tail.skip(pos - start + 1) =~= s@.skip(pos + 1));
                assert(split_lines(tail) == seq![piece@] + split_lines(s@.skip(pos + 1)));
                assert((out@.map_values(|t: String| t@)).push(piece@) =~= out@.push(
                    piece,
                ).map_values(|t: String| t@));
            }
            out.push(piece);
            start = pos + 1;
            pos = start;
            proof {
                assert(out@.map_values(|t: String| t@) + split_lines(s@.skip(start as int))
                    =~~= split_lines(s@));
            }
        } else {
            pos = pos + 1;
        }
    }
    let piece = String::from_str(s.substring_char(start, n));
    proof {
        let tail = s@.skip(start as int);
        assert(forall|k: int| 0 <= k < tail.len() ==> tail[k] == s@[start + k]);
        lemma_first_index_of_at(tail, '\n', n - start);
        assert(split_lines(tail) == seq![tail]);
        assert(tail =~= piece@);
        assert(out@.push(piece).map_values(|t: String| t@) =~~= out@.map_values(|t: String| t@)
            + seq![piece@]);
    }
    out.push(piece);
    out
}

/// Every entry that `text` contributes, in order of appearance.
pub fn parse_env_text(text: &str) -> (r: Vec<EnvEntry>)
    ensures
        entries_view(r@) == parse_env_chars(text@),
{
    let lines = split_text_lines(text);
    let ghost lv = lines@.map_values(|t: String| t@);
    let mut out: Vec<EnvEntry> = Vec::new();
    let mut i: usize = 0;
    proof {
        assert(lv.skip(0) =~= lv);
        assert(entries_view(out@) + parse_lines(lv) =~= parse_lines(lv));
    }
    while i < lines.len()
        invariant
            lv == lines@.map_values(|t: String| t@),
            0 <= i <= lines.len(),
            entries_view(out@) + parse_lines(lv.skip(i as int)) =~= parse_env_chars(text@),
        decreases lines.len() - i,
    {
        let parsed = parse_env_line(lines[i].as_str());
        proof {
            let tail = lv.skip(i as int);
            assert(tail[0] == lv[i as int]);
            assert(tail.drop_first() =~= lv.skip(i as int + 1));
            assert(lv[i as int] == lines@[i as int]@);
        }
        match parsed {
            Some(e) => {
                proof {
                    assert(entries_view(out@.push(e)) =~= entries_view(out@).push(e@));
                }
                out.push(e);
            },
            None => {
            },
        }
        i = i + 1;
    }
    proof {
        assert(lv.skip(lines@.len() as int).len() == 0);
        assert(entries_view(out@) + parse_lines(lv.skip(lines@.len() as int)) =~= entries_view(
            out@,
        ));
    }
    out
}

} // verus!
