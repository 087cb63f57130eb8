//! Character-level text utilities shared by the parser, the validator and the
//! log composer: whitespace trimming, prefix tests, character search and a
//! lexicographic order on strings.
use vstd::prelude::*;
use vstd::string::*;

verus! {

/// The character sequences that a sequence of strings holds.
pub open spec fn strings_view(s: Seq<String>) -> Seq<Seq<char>> {
    s.map_values(|t: String| t@)
}

/// The whitespace characters that trimming removes: the ASCII space, tab,
/// carriage return, line feed, vertical tab and form feed.
pub open spec fn is_env_space(c: char) -> bool {
    c == ' ' || c == '\t' || c == '\r' || c == '\n' || c == '\u{b}' || c == '\u{c}'
}

/// `s` with its leading whitespace removed.
pub open spec fn trim_start_chars(s: Seq<char>) -> Seq<char>
    decreases s.len(),
{
    if s.len() > 0 && is_env_space(s[0]) {
        trim_start_chars(s.drop_first())
    } else {
        s
    }
}

/// `s` with its trailing whitespace removed.
pub open spec fn trim_end_chars(s: Seq<char>) -> Seq<char>
    decreases s.len(),
{
    if s.len() > 0 && is_env_space(s.last()) {
        trim_end_chars(s.drop_last())
    } else {
        s
    }
}

/// `s` with both leading and trailing whitespace removed.
pub open spec fn trim_chars(s: Seq<char>) -> Seq<char> {
    trim_end_chars(trim_start_chars(s))
}

/// When the first `i` characters of `s` are whitespace and the one at `i`
/// (if any) is not, trimming the start of `s` drops exactly those `i`.
pub proof fn lemma_trim_start_at(s: Seq<char>, i: int)
    requires
        0 <= i <= s.len(),
        forall|k: int| 0 <= k < i ==> is_env_space(s[k]),
        i < s.len() ==> !is_env_space(s[i]),
    ensures
        trim_start_chars(s) == s.skip(i),
    decreases i,
{
    if i == 0 {
        assert(s.skip(0) =~= s);
    } else {
        lemma_trim_start_at(s.drop_first(), i - 1);
        assert(s.drop_first().skip(i - 1) =~= s.skip(i));
    }
}

/// When every character of `s` from position `j` on is whitespace and the one
/// before `j` (if any) is not, trimming the end of `s` keeps exactly the
/// first `j`.
pub proof fn lemma_trim_end_at(s: Seq<char>, j: int)
    requires
        0 <= j <= s.len(),
        forall|k: int| j <= k < s.len() ==> is_env_space(s[k]),
        j > 0 ==> !is_env_space(s[j - 1]),
    ensures
        trim_end_chars(s) == s.take(j),
    decreases s.len() - j,
{
    if j == s.len() {
        assert(s.take(j) =~= s);
    } else {
        lemma_trim_end_at(s.drop_last(), j);
        assert(s.drop_last().take(j) =~= s.take(j));
    }
}

/// Trimming the start keeps a suffix: whitespace up to the cut, and a
/// non-whitespace character first in what remains.
pub proof fn lemma_trim_start_shape(s: Seq<char>)
    ensures
        trim_start_chars(s).len() <= s.len(),
        trim_start_chars(s) == s.skip(s.len() - trim_start_chars(s).len()),
        forall|k: int| 0 <= k < s.len() - trim_start_chars(s).len() ==> is_env_space(s[k]),
        trim_start_chars(s).len() > 0 ==> !is_env_space(trim_start_chars(s)[0]),
    decreases s.len(),
{
    if s.len() > 0 && is_env_space(s[0]) {
        lemma_trim_start_shape(s.drop_first());
        let r = trim_start_chars(s);
        assert(s.drop_first().skip(s.drop_first().len() - r.len()) =~= s.skip(s.len() - r.len()));
        assert(forall|k: int| 1 <= k < s.len() - r.len() ==> s[k] == s.drop_first()[k - 1]);
    } else {
        assert(s.skip(0) =~= s);
    }
}

/// Trimming the end keeps a prefix: whitespace after the cut, and a
/// non-whitespace character last in what remains.
pub proof fn lemma_trim_end_shape(s: Seq<char>)
    ensures
        trim_end_chars(s).len() <= s.len(),
        trim_end_chars(s) == s.take(trim_end_chars(s).len() as int),
        forall|k: int| trim_end_chars(s).len() <= k < s.len() ==> is_env_space(s[k]),
        trim_end_chars(s).len() > 0 ==> !is_env_space(trim_end_chars(s).last()),
    decreases s.len(),
{
    if s.len() > 0 && is_env_space(s.last()) {
        lemma_trim_end_shape(s.drop_last());
        let r = trim_end_chars(s);
        assert(s.drop_last().take(r.len() as int) =~= s.take(r.len() as int));
        assert(forall|k: int| 0 <= k < s.len() - 1 ==> s[k] == s.drop_last()[k]);
    } else {
        assert(s.take(s.len() as int) =~= s);
    }
}

/// Trimming the start twice trims it once.
pub proof fn lemma_trim_start_idem(s: Seq<char>)
    ensures
        trim_start_chars(trim_start_chars(s)) == trim_start_chars(s),
{
    lemma_trim_start_shape(s);
}

/// Trimming the end twice trims it once.
pub proof fn lemma_trim_end_idem(s: Seq<char>)
    ensures
        trim_end_chars(trim_end_chars(s)) == trim_end_chars(s),
{
    lemma_trim_end_shape(s);
}

/// The two trims commute: start-then-end equals end-then-start.
pub proof fn lemma_trim_commute(s: Seq<char>)
    ensures
        trim_start_chars(trim_end_chars(s)) == trim_end_chars(trim_start_chars(s)),
{
    let a = trim_start_chars(s);
    let b = trim_end_chars(s);
    lemma_trim_start_shape(s);
    lemma_trim_end_shape(s);
    let p = s.len() - a.len();
    if a.len() == 0 {
        // Everything is whitespace, so both trims empty the text.
        if b.len() > 0 {
            assert(is_env_space(b.last()));
        }
        assert(trim_start_chars(b).len() <= b.len()) by {
            lemma_trim_start_shape(b);
        }
        assert(trim_end_chars(a) =~= Seq::<char>::empty());
    } else if b.len() == 0 {
        assert(is_env_space(a[0]));
        lemma_trim_end_shape(a);
        let r = trim_end_chars(a);
        if r.len() > 0 {
            assert(r.last() == a[r.len() - 1]);
            assert(a[r.len() - 1] == s[p + r.len() - 1]);
        }
        assert(trim_start_chars(b) =~= Seq::<char>::empty());
        assert(r =~= Seq::<char>::empty());
    } else {
        // Some character is kept by both trims, so the cuts do not cross.
        assert(!is_env_space(a[0]) && a[0] == s[p]);
        assert(p < b.len());
        lemma_trim_end_shape(a);
        lemma_trim_start_shape(b);
        assert(forall|k: int| 0 <= k < a.len() ==> a[k] == s[p + k]);
        assert(forall|k: int| 0 <= k < b.len() ==> b[k] == s[k]);
        lemma_trim_end_at(a, b.len() - p);
        lemma_trim_start_at(b, p);
        assert(a.take(b.len() - p) =~= s.subrange(p, b.len() as int));
        assert(b.skip(p) =~= s.subrange(p, b.len() as int));
    }
}

/// Trimming both ends of a text whose start is already trimmed only trims
/// the end, and the other way round.
pub proof fn lemma_trim_of_trims(s: Seq<char>)
    ensures
        trim_chars(trim_start_chars(s)) == trim_chars(s),
        trim_chars(trim_end_chars(s)) == trim_chars(s),
{
    lemma_trim_start_idem(s);
    lemma_trim_commute(s);
    lemma_trim_end_idem(s);
    lemma_trim_commute(trim_end_chars(s));
    lemma_trim_end_idem(trim_start_chars(s));
    assert(trim_chars(trim_end_chars(s)) == trim_end_chars(trim_start_chars(trim_end_chars(s))));
    assert(trim_start_chars(trim_end_chars(trim_end_chars(s))) == trim_start_chars(
        trim_end_chars(s),
    ));
}

/// When `a` keeps a character after trimming, trimming the start of `a + b`
/// stops inside `a`.
pub proof fn lemma_trim_start_concat(a: Seq<char>, b: Seq<char>)
    requires
        trim_start_chars(a).len() > 0,
    ensures
        trim_start_chars(a + b) == trim_start_chars(a) + b,
    decreases a.len(),
{
    if a.len() > 0 && is_env_space(a[0]) {
        lemma_trim_start_concat(a.drop_first(), b);
        assert((a + b).drop_first() =~= a.drop_first() + b);
    } else {
        assert(a.len() > 0);
        assert((a + b)[0] == a[0]);
        assert(trim_start_chars(a + b) == a + b);
        assert(trim_start_chars(a) + b =~= a + b);
    }
}

/// When `b` keeps a character after trimming, trimming the end of `a + b`
/// stops inside `b`.
pub proof fn lemma_trim_end_concat(a: Seq<char>, b: Seq<char>)
    requires
        trim_end_chars(b).len() > 0,
    ensures
        trim_end_chars(a + b) == a + trim_end_chars(b),
    decreases b.len(),
{
    if b.len() > 0 && is_env_space(b.last()) {
        lemma_trim_end_concat(a, b.drop_last());
        assert((a + b).drop_last() =~= a + b.drop_last());
        assert((a + b).last() == b.last());
    } else {
        assert(b.len() > 0);
        assert((a + b).last() == b.last());
        assert(trim_end_chars(a + b) == a + b);
        assert(trim_end_chars(b) == b);
    }
}

/// When `b` is all whitespace and `a` ends in something else, trimming the
/// end of `a + b` cuts away exactly `b`.
pub proof fn lemma_trim_end_concat_all_space(a: Seq<char>, b: Seq<char>)
    requires
        trim_end_chars(b).len() == 0,
        a.len() > 0,
        !is_env_space(a.last()),
    ensures
        trim_end_chars(a + b) == a,
    decreases b.len(),
{
    if b.len() == 0 {
        assert(a + b =~= a);
        assert((a + b).last() == a.last());
        assert(trim_end_chars(a + b) == a + b);
    } else {
        assert(is_env_space(b.last())) by {
            lemma_trim_end_shape(b);
        }
        lemma_trim_end_concat_all_space(a, b.drop_last());
        assert((a + b).drop_last() =~= a + b.drop_last());
        assert((a + b).last() == b.last());
    }
}

/// A text keeps a character after a full trim exactly when its end trim
/// keeps one, and exactly when its start trim keeps one.
pub proof fn lemma_trim_nonempty(s: Seq<char>)
    ensures
        trim_chars(s).len() > 0 <==> trim_end_chars(s).len() > 0,
        trim_chars(s).len() > 0 <==> trim_start_chars(s).len() > 0,
        trim_chars(s).len() > 0 ==> trim_chars(s)[0] == trim_start_chars(s)[0],
{
    lemma_trim_start_shape(s);
    lemma_trim_end_shape(s);
    let a = trim_start_chars(s);
    lemma_trim_end_shape(a);
    let t = trim_chars(s);
    let p = s.len() - a.len();
    if a.len() > 0 {
        assert(!is_env_space(a[0]));
        assert(forall|k: int| 0 <= k < a.len() ==> a[k] == s[p + k]);
        lemma_trim_end_at(a, trim_end_chars(a).len() as int);
    }
    if t.len() > 0 {
        assert(t[0] == a[0]);
    }
    if trim_end_chars(s).len() > 0 {
        // The last kept character is not whitespace, so the start trim keeps it.
        let b = trim_end_chars(s);
        assert(!is_env_space(s[b.len() - 1]));
        if a.len() == 0 {
            assert(is_env_space(s[b.len() - 1]));
        }
        lemma_trim_commute(s);
        lemma_trim_start_shape(b);
        if trim_start_chars(b).len() == 0 {
            assert(is_env_space(b[b.len() - 1]));
        }
    }
}

/// Whether `c` is one of the whitespace characters that trimming removes.
pub fn is_space_char(c: char) -> (r: bool)
    ensures
        r == is_env_space(c),
{
    c == ' ' || c == '\t' || c == '\r' || c == '\n' || c == '\u{b}' || c == '\u{c}'
}

/// The slice of `s` with leading and trailing whitespace removed.
pub fn trim_str<'a>(s: &'a str) -> (r: &'a str)
    ensures
        r@ == trim_chars(s@),
{
    let n = s.unicode_len();
    let mut i: usize = 0;
    while i < n && is_space_char(s.get_char(i))
        invariant
            n == s@.len(),
            0 <= i <= n,
            forall|k: int| 0 <= k < i ==> is_env_space(s@[k]),
        decreases n - i,
    {
        i = i + 1;
    }
    let mut j: usize = n;
    while j > i && is_space_char(s.get_char(j - 1))
        invariant
            n == s@.len(),
            0 <= i <= j <= n,
            forall|k: int| 0 <= k < i ==> is_env_space(s@[k]),
            forall|k: int| j <= k < n ==> is_env_space(s@[k]),
        decreases j,
    {
        j = j - 1;
    }
    proof {
        lemma_trim_start_at(s@, i as int);
        let t = s@.skip(i as int);
        lemma_trim_end_at(t, j - i);
        assert(t.take(j - i) =~= s@.subrange(i as int, j as int));
    }
    s.substring_char(i, j)
}

/// Whether `p` is a prefix of `s`.
pub open spec fn has_prefix(s: Seq<char>, p: Seq<char>) -> bool {
    p.len() <= s.len() && s.take(p.len() as int) == p
}

/// Whether `p` is a prefix of `s`.
pub fn str_has_prefix(s: &str, p: &str) -> (r: bool)
    ensures
        r == has_prefix(s@, p@),
{
    let n = s.unicode_len();
    let m = p.unicode_len();
    if m > n {
        assert(!has_prefix(s@, p@));
        return false;
    }
    let mut k: usize = 0;
    while k < m
        invariant
            n == s@.len(),
            m == p@.len(),
            m <= n,
            0 <= k <= m,
            forall|t: int| 0 <= t < k ==> s@[t] == p@[t],
        decreases m - k,
    {
        if s.get_char(k) != p.get_char(k) {
            assert(s@.take(m as int)[k as int] != p@[k as int]);
            return false;
        }
        k = k + 1;
    }
    assert(s@.take(m as int) =~= p@);
    true
}

/// Whether `a` and `b` are the same text.
pub fn str_eq(a: &str, b: &str) -> (r: bool)
    ensures
        r == (a@ == b@),
{
    let n = a.unicode_len();
    let m = b.unicode_len();
    if n != m {
        return false;
    }
    let mut k: usize = 0;
    while k < n
        invariant
            n == a@.len(),
            n == b@.len(),
            0 <= k <= n,
            forall|t: int| 0 <= t < k ==> a@[t] == b@[t],
        decreases n - k,
    {
        if a.get_char(k) != b.get_char(k) {
            return false;
        }
        k = k + 1;
    }
    assert(a@ =~= b@);
    true
}

/// The position of the first occurrence of `c` in `s`, if any.
pub open spec fn first_index_of(s: Seq<char>, c: char) -> Option<int>
    decreases s.len(),
{
    if s.len() == 0 {
        None
    } else if s[0] == c {
        Some(0)
    } else {
        match first_index_of(s.drop_first(), c) {
            Some(i) => Some(i + 1),
            None => None,
        }
    }
}

/// The first occurrence returned by `first_index_of` is a real occurrence,
/// and nothing before it matches; `None` means no occurrence at all.
pub proof fn lemma_first_index_of(s: Seq<char>, c: char)
    ensures
        match first_index_of(s, c) {
            Some(i) => 0 <= i < s.len() && s[i] == c && forall|k: int| 0 <= k < i ==> s[k] != c,
            None => forall|k: int| 0 <= k < s.len() ==> s[k] != c,
        },
    decreases s.len(),
{
    if s.len() > 0 && s[0] != c {
        lemma_first_index_of(s.drop_first(), c);
        assert(forall|k: int| 1 <= k < s.len() ==> s[k] == s.drop_first()[k - 1]);
    }
}

/// When nothing before position `i` matches and the character at `i` (if any)
/// does, `first_index_of` returns exactly `i` (or `None` past the end).
pub proof fn lemma_first_index_of_at(s: Seq<char>, c: char, i: int)
    requires
        0 <= i <= s.len(),
        forall|k: int| 0 <= k < i ==> s[k] != c,
        i < s.len() ==> s[i] == c,
    ensures
        first_index_of(s, c) == if i < s.len() {
            Some(i)
        } else {
            None::<int>
        },
    decreases i,
{
    if i > 0 {
        lemma_first_index_of_at(s.drop_first(), c, i - 1);
    }
}

/// The position of the first occurrence of `c` in `s`, if any.
pub fn find_char_in(s: &str, c: char) -> (r: Option<usize>)
    ensures
        match r {
            Some(i) => first_index_of(s@, c) == Some(i as int),
            None => first_index_of(s@, c) is None,
        },
{
    let n = s.unicode_len();
    let mut i: usize = 0;
    while i < n && s.get_char(i) != c
        invariant
            n == s@.len(),
            0 <= i <= n,
            forall|k: int| 0 <= k < i ==> s@[k] != c,
        decreases n - i,
    {
        i = i + 1;
    }
    proof {
        lemma_first_index_of_at(s@, c, i as int);
    }
    if i < n {
        Some(i)
    } else {
        None
    }
}

/// The position of the last occurrence of `c` in `s`, if any.
pub open spec fn last_index_of(s: Seq<char>, c: char) -> Option<int>
    decreases s.len(),
{
    if s.len() == 0 {
        None
    } else if s.last() == c {
        Some(s.len() - 1)
    } else {
        last_index_of(s.drop_last(), c)
    }
}

/// When nothing at position `j` or later matches and the character before `j`
/// (if any) does, `last_index_of` returns exactly `j - 1` (or `None` at 0).
pub proof fn lemma_last_index_of_at(s: Seq<char>, c: char, j: int)
    requires
        0 <= j <= s.len(),
        forall|k: int| j <= k < s.len() ==> s[k] != c,
        j > 0 ==> s[j - 1] == c,
    ensures
        last_index_of(s, c) == if j > 0 {
            Some(j - 1)
        } else {
            None::<int>
        },
    decreases s.len() - j,
{
    if j < s.len() {
        lemma_last_index_of_at(s.drop_last(), c, j);
    }
}

/// The last occurrence returned by `last_index_of` is a real occurrence, and
/// nothing after it matches; `None` means no occurrence at all.
pub proof fn lemma_last_index_of(s: Seq<char>, c: char)
    ensures
        match last_index_of(s, c) {
            Some(i) => 0 <= i < s.len() && s[i] == c && forall|k: int| i < k < s.len() ==> s[k]
                != c,
            None => forall|k: int| 0 <= k < s.len() ==> s[k] != c,
        },
    decreases s.len(),
{
    if s.len() > 0 && s.last() != c {
        lemma_last_index_of(s.drop_last(), c);
        assert(forall|k: int| 0 <= k < s.len() - 1 ==> s[k] == s.drop_last()[k]);
    }
}

/// The position of the last occurrence of `c` in `s`, if any.
pub fn rfind_char_in(s: &str, c: char) -> (r: Option<usize>)
    ensures
        match r {
            Some(i) => last_index_of(s@, c) == Some(i as int),
            None => last_index_of(s@, c) is None,
        },
{
    let n = s.unicode_len();
    let mut j: usize = n;
    while j > 0 && s.get_char(j - 1) != c
        invariant
            n == s@.len(),
            0 <= j <= n,
            forall|k: int| j <= k < n ==> s@[k] != c,
        decreases j,
    {
        j = j - 1;
    }
    proof {
        lemma_last_index_of_at(s@, c, j as int);
    }
    if j > 0 {
        Some(j - 1)
    } else {
        None
    }
}

/// Strict lexicographic order on character sequences, by code point.
pub open spec fn lex_lt(a: Seq<char>, b: Seq<char>) -> bool
    decreases a.len(),
{
    if b.len() == 0 {
        false
    } else if a.len() == 0 {
        true
    } else if a[0] != b[0] {
        (a[0] as int) < (b[0] as int)
    } else {
        lex_lt(a.drop_first(), b.drop_first())
    }
}

/// Whether `a` comes strictly before `b` in lexicographic order.
pub fn str_lex_lt(a: &str, b: &str) -> (r: bool)
    ensures
        r == lex_lt(a@, b@),
    decreases a@.len(),
{
    let la = a.unicode_len();
    let lb = b.unicode_len();
    let mut k: usize = 0;
    proof {
        assert(a@.skip(0) =~= a@);
        assert(b@.skip(0) =~= b@);
    }
    loop
        invariant
            la == a@.len(),
            lb == b@.len(),
            0 <= k <= la,
            0 <= k <= lb,
            forall|t: int| 0 <= t < k ==> a@[t] == b@[t],
            lex_lt(a@, b@) == lex_lt(a@.skip(k as int), b@.skip(k as int)),
        decreases la - k,
    {
        if k == lb {
            assert(b@.skip(k as int).len() == 0);
            return false;
        }
        if k == la {
            assert(a@.skip(k as int).len() == 0 && b@.skip(k as int).len() > 0);
            return true;
        }
        let ca = a.get_char(k);
        let cb = b.get_char(k);
        if ca != cb {
            assert(a@.skip(k as int)[0] == ca && b@.skip(k as int)[0] == cb);
            return (ca as u32) < (cb as u32);
        }
        proof {
            let sa = a@.skip(k as int);
            let sb = b@.skip(k as int);
            assert(sa.drop_first() =~= a@.skip(k as int + 1));
            assert(sb.drop_first() =~= b@.skip(k as int + 1));
            assert(lex_lt(sa, sb) == lex_lt(sa.drop_first(), sb.drop_first()));
        }
        k = k + 1;
    }
}

/// Lexicographic order is total: of two distinct strings one comes first.
pub proof fn lemma_lex_lt_connected(a: Seq<char>, b: Seq<char>)
    requires
        a != b,
    ensures
        lex_lt(a, b) || lex_lt(b, a),
    decreases a.len(),
{
    if a.len() == 0 && b.len() == 0 {
        assert(a =~= b);
    } else if a.len() > 0 && b.len() > 0 && a[0] == b[0] {
        let ad = a.drop_first();
        let bd = b.drop_first();
        if ad == bd {
            assert(ad.len() == a.len() - 1 && bd.len() == b.len() - 1);
            assert(a.len() == b.len());
            assert forall|i: int| 0 <= i < a.len() implies a[i] == b[i] by {
                if i >= 1 {
                    assert(a[i] == ad[i - 1]);
                    assert(b[i] == bd[i - 1]);
                }
            }
            assert(a =~= b);
        } else {
            lemma_lex_lt_connected(ad, bd);
        }
    } else if a.len() > 0 && b.len() > 0 {
        assert(a[0] != b[0]);
        assert((a[0] as int) != (b[0] as int));
    }
}

/// Nothing comes lexicographically before itself.
pub proof fn lemma_lex_lt_irreflexive(a: Seq<char>)
    ensures
        !lex_lt(a, a),
    decreases a.len(),
{
    if a.len() > 0 {
        lemma_lex_lt_irreflexive(a.drop_first());
    }
}

/// Lexicographic order is transitive.
pub proof fn lemma_lex_lt_transitive(a: Seq<char>, b: Seq<char>, c: Seq<char>)
    requires
        lex_lt(a, b),
        lex_lt(b, c),
    ensures
        lex_lt(a, c),
    decreases a.len(),
{
    if a.len() > 0 && b.len() > 0 && c.len() > 0 && a[0] == b[0] && b[0] == c[0] {
        lemma_lex_lt_transitive(a.drop_first(), b.drop_first(), c.drop_first());
    }
}

} // verus!
