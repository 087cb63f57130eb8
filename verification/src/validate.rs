//! Validation of parsed configuration entries against the keys the bundled
//! server requires.
//!
//! A required key is *missing* when no entry carries it, and *empty* when an
//! entry carries it but its value trims to nothing. When a key appears on
//! several lines the last occurrence wins. Both findings are advisory: they
//! are reported, never fatal.
use vstd::prelude::*;
use vstd::string::*;
use crate::parse::{entries_view, EnvEntry};
use crate::text::{strings_view, trim_chars, trim_str};

verus! {

/// Whether some entry carries the key `k`.
pub open spec fn has_key(entries: Seq<(Seq<char>, Seq<char>)>, k: Seq<char>) -> bool {
    exists|i: int| 0 <= i < entries.len() && entries[i].0 == k
}

/// The value of the last entry that carries `k`, if any.
pub open spec fn lookup_last(entries: Seq<(Seq<char>, Seq<char>)>, k: Seq<char>) -> Option<
    Seq<char>,
>
    decreases entries.len(),
{
    if entries.len() == 0 {
        None
    } else if entries.last().0 == k {
        Some(entries.last().1)
    } else {
        lookup_last(entries.drop_last(), k)
    }
}

/// A key has a last value exactly when some entry carries it.
pub proof fn lemma_lookup_last_has_key(entries: Seq<(Seq<char>, Seq<char>)>, k: Seq<char>)
    ensures
        lookup_last(entries, k) is Some <==> has_key(entries, k),
    decreases entries.len(),
{
    if entries.len() > 0 && entries.last().0 != k {
        lemma_lookup_last_has_key(entries.drop_last(), k);
        if has_key(entries, k) {
            let i = choose|i: int| 0 <= i < entries.len() && entries[i].0 == k;
            assert(entries.drop_last()[i] == entries[i]);
        }
        if has_key(entries.drop_last(), k) {
            let i = choose|i: int|
                0 <= i < entries.drop_last().len() && entries.drop_last()[i].0 == k;
            assert(entries[i] == entries.drop_last()[i]);
        }
    }
}

/// Whether validation finds the key `k` missing from `entries`.
pub open spec fn is_missing(entries: Seq<(Seq<char>, Seq<char>)>, k: Seq<char>) -> bool {
    !has_key(entries, k)
}

/// Whether validation finds the key `k` present in `entries` with a value
/// that trims to nothing.
pub open spec fn is_empty_value(entries: Seq<(Seq<char>, Seq<char>)>, k: Seq<char>) -> bool {
    match lookup_last(entries, k) {
        Some(v) => trim_chars(v).len() == 0,
        None => false,
    }
}

/// The required keys that no entry carries, in required order.
pub open spec fn missing_keys(required: Seq<Seq<char>>, entries: Seq<(Seq<char>, Seq<char>)>)
    -> Seq<Seq<char>> {
    required.filter(|k: Seq<char>| is_missing(entries, k))
}

/// The required keys whose last value trims to nothing, in required order.
pub open spec fn empty_value_keys(required: Seq<Seq<char>>, entries: Seq<(Seq<char>, Seq<char>)>)
    -> Seq<Seq<char>> {
    required.filter(|k: Seq<char>| is_empty_value(entries, k))
}

/// What validation finds: the required keys that are missing, and those whose
/// value is blank. The two lists are disjoint by construction.
pub struct ValidationReport {
    pub missing: Vec<String>,
    pub empty: Vec<String>,
}

/// The value of the last entry whose key equals `key`, if any.
pub fn lookup_env(entries: &Vec<EnvEntry>, key: &String) -> (r: Option<String>)
    ensures
        match r {
            Some(v) => lookup_last(entries_view(entries@), key@) == Some(v@),
            None => lookup_last(entries_view(entries@), key@) is None,
        },
{
    let ghost ev = entries_view(entries@);
    let mut j: usize = entries.len();
    proof {
        assert(ev.take(j as int) =~= ev);
    }
    while j > 0
        invariant
            ev == entries_view(entries@),
            0 <= j <= entries.len(),
            ev.len() == entries.len(),
            lookup_last(ev, key@) == lookup_last(ev.take(j as int), key@),
        decreases j,
    {
        j = j - 1;
        proof {
            let t = ev.take(j as int + 1);
            assert(t.last() == ev[j as int]);
            assert(t.drop_last() =~= ev.take(j as int));
            assert(ev[j as int] == entries@[j as int]@);
        }
        if entries[j].key == *key {
            return Some(entries[j].value.clone());
        }
    }
    proof {
        assert(ev.take(0).len() == 0);
    }
    None
}

/// The required keys that `entries` is missing, and those it carries only
/// with a blank value, each in required order.
pub fn validate_env_vars(required: &Vec<String>, entries: &Vec<EnvEntry>) -> (r: ValidationReport)
    ensures
        strings_view(r.missing@) == missing_keys(strings_view(required@), entries_view(entries@)),
        strings_view(r.empty@) == empty_value_keys(
            strings_view(required@),
            entries_view(entries@),
        ),
{
    let ghost ev = entries_view(entries@);
    let ghost rv = strings_view(required@);
    let ghost miss_pred = |k: Seq<char>| is_missing(ev, k);
    let ghost empty_pred = |k: Seq<char>| is_empty_value(ev, k);
    let mut missing: Vec<String> = Vec::new();
    let mut empty: Vec<String> = Vec::new();
    let mut i: usize = 0;
    proof {
        reveal(Seq::filter);
        assert(rv.take(0) =~= Seq::<Seq<char>>::empty());
    }
    while i < required.len()
        invariant
            ev == entries_view(entries@),
            rv == strings_view(required@),
            miss_pred == (|k: Seq<char>| is_missing(ev, k)),
            empty_pred == (|k: Seq<char>| is_empty_value(ev, k)),
            rv.len() == required.len(),
            0 <= i <= required.len(),
            strings_view(missing@) == rv.take(i as int).filter(miss_pred),
            strings_view(empty@) == rv.take(i as int).filter(empty_pred),
        decreases required.len() - i,
    {
        let key = &required[i];
        proof {
            assert(rv[i as int] == required@[i as int]@);
            lemma_lookup_last_has_key(ev, key@);
        }
        let found = lookup_env(entries, key);
        match found {
            None => {
                proof {
                    assert(strings_view(missing@.push(required@[i as int])) =~= strings_view(
                        missing@,
                    ).push(rv[i as int]));
                }
                missing.push(key.clone());
            },
            Some(v) => {
                let tv = trim_str(v.as_str());
                if tv.unicode_len() == 0 {
                    proof {
                        assert(strings_view(empty@.push(required@[i as int])) =~= strings_view(
                            empty@,
                        ).push(rv[i as int]));
                    }
                    empty.push(key.clone());
                }
            },
        }
        proof {
            reveal(Seq::filter);
            let t1 = rv.take(i as int + 1);
            assert(t1.drop_last() =~= rv.take(i as int));
            assert(t1.last() == rv[i as int]);
        }
        i = i + 1;
    }
    proof {
        assert(rv.take(required.len() as int) =~= rv);
    }
    ValidationReport { missing, empty }
}

/// The names of the configuration keys the bundled server requires.
pub open spec fn required_key_names() -> Seq<Seq<char>> {
    seq![
        "AUTH_SECRET"@,
        "DATABASE_URL"@,
        "DISCOLAIRE_API_KEY"@,
        "RESEND_API_KEY"@,
        "S3_ACCESS_KEY_ID"@,
        "S3_REGION"@,
        "S3_BUCKET_NAME"@,
        "S3_SECRET_ACCESS_KEY"@,
        "S3_AVATAR_BUCKET_NAME"@,
        "S3_IMAGE_BUCKET_NAME"@,
        "S3_DOCUMENT_BUCKET_NAME"@,
        "WHATSAPP_VERIFY_TOKEN"@,
        "WHATSAPP_API_TOKEN"@,
        "REDIS_URL"@,
        "SUPER_ADMIN_USERNAME"@,
        "NEXT_PUBLIC_MINIO_URL"@,
        "NEXT_PUBLIC_DEPLOYMENT_ENV"@,
    ]
}

/// The configuration keys the bundled server requires, as strings.
pub fn required_keys() -> (r: Vec<String>)
    ensures
        strings_view(r@) == required_key_names(),
{
    let mut v: Vec<String> = Vec::new();
    v.push(String::from_str("AUTH_SECRET"));
    v.push(String::from_str("DATABASE_URL"));
    v.push(String::from_str("DISCOLAIRE_API_KEY"));
    v.push(String::from_str("RESEND_API_KEY"));
    v.push(String::from_str("S3_ACCESS_KEY_ID"));
    v.push(String::from_str("S3_REGION"));
    v.push(String::from_str("S3_BUCKET_NAME"));
    v.push(String::from_str("S3_SECRET_ACCESS_KEY"));
    v.push(String::from_str("S3_AVATAR_BUCKET_NAME"));
    v.push(String::from_str("S3_IMAGE_BUCKET_NAME"));
    v.push(String::from_str("S3_DOCUMENT_BUCKET_NAME"));
    v.push(String::from_str("WHATSAPP_VERIFY_TOKEN"));
    v.push(String::from_str("WHATSAPP_API_TOKEN"));
    v.push(String::from_str("REDIS_URL"));
    v.push(String::from_str("SUPER_ADMIN_USERNAME"));
    v.push(String::from_str("NEXT_PUBLIC_MINIO_URL"));
    v.push(String::from_str("NEXT_PUBLIC_DEPLOYMENT_ENV"));
    proof {
        assert(strings_view(v@) =~= required_key_names());
    }
    v
}

/// With no entries at all, validation finds every required key missing and
/// none blank.
pub proof fn lemma_validate_no_entries(required: Seq<Seq<char>>)
    ensures
        missing_keys(required, Seq::empty()) == required,
        empty_value_keys(required, Seq::empty()) == Seq::<Seq<char>>::empty(),
    decreases required.len(),
{
    reveal(Seq::filter);
    if required.len() == 0 {
        assert(required.filter(|k: Seq<char>| is_missing(Seq::empty(), k)) =~= required);
        assert(required.filter(|k: Seq<char>| is_empty_value(Seq::empty(), k)) =~= Seq::<
            Seq<char>,
        >::empty());
    } else {
        lemma_validate_no_entries(required.drop_last());
        assert(!has_key(Seq::empty(), required.last()));
        assert(missing_keys(required, Seq::empty()) =~= required.drop_last().push(
            required.last(),
        ));
        assert(required.drop_last().push(required.last()) =~= required);
    }
}

} // verus!
