//! Link- and provider-configuration lookup.
//!
//! A configuration is a list of key/value pairs of strings. One recognized key
//! designates the backend connection target; the lookup for that key ignores
//! ASCII case, and the first pair whose key matches wins. When no pair matches,
//! a caller-independent default target is used.

use vstd::prelude::*;

verus! {

/// A byte after ASCII case folding: uppercase letters become lowercase.
pub open spec fn fold_byte(b: u8) -> u8 {
    if 65 <= b && b <= 90 {
        (b + 32) as u8
    } else {
        b
    }
}

/// A byte string after ASCII case folding.
pub open spec fn fold_bytes(s: Seq<u8>) -> Seq<u8> {
    s.map_values(|b: u8| fold_byte(b))
}

/// The UTF-8 encoding of a string.
pub open spec fn bytes_of(s: Seq<char>) -> Seq<u8> {
    vstd::utf8::encode_utf8(s)
}

/// Whether a configuration key names the backend connection target,
/// ignoring ASCII case.
pub open spec fn is_url_key(k: Seq<char>) -> bool {
    fold_bytes(bytes_of(k)) == fold_bytes(bytes_of("URL"@))
}

/// The first value among the pairs whose key names the connection target.
pub open spec fn spec_url_value(pairs: Seq<(String, String)>) -> Option<Seq<char>>
    decreases pairs.len(),
{
    if pairs.len() == 0 {
        None
    } else if is_url_key(pairs[0].0@) {
        Some(pairs[0].1@)
    } else {
        spec_url_value(pairs.drop_first())
    }
}

/// The built-in backend connection target, used when no configuration names one.
pub open spec fn spec_default_url() -> Seq<char> {
    "redis://127.0.0.1:6379/"@
}

fn fold_byte_exec(b: u8) -> (r: u8)
    ensures
        r == fold_byte(b),
{
    if 65 <= b && b <= 90 {
        b + 32
    } else {
        b
    }
}

/// Whether two byte strings are equal after ASCII case folding.
pub fn bytes_eq_fold(a: &[u8], b: &[u8]) -> (r: bool)
    ensures
        r == (fold_bytes(a@) == fold_bytes(b@)),
{
    if a.len() != b.len() {
        proof {
            assert(fold_bytes(a@).len() != fold_bytes(b@).len());
        }
        return false;
    }
    let n = a.len();
    let mut i: usize = 0;
    while i < n
        invariant
            n == a@.len() == b@.len(),
            0 <= i <= n,
            forall|j: int| 0 <= j < i ==> fold_byte(a@[j]) == fold_byte(b@[j]),
        decreases n - i,
    {
        if fold_byte_exec(a[i]) != fold_byte_exec(b[i]) {
            proof {
                assert(fold_bytes(a@)[i as int] != fold_bytes(b@)[i as int]);
            }
            return false;
        }
        i += 1;
    }
    proof {
        assert(fold_bytes(a@) =~= fold_bytes(b@));
    }
    true
}

/// The first value whose key names the connection target, ignoring ASCII case.
pub fn find_url_value(pairs: &Vec<(String, String)>) -> (r: Option<String>)
    ensures
        match r {
            Some(v) => spec_url_value(pairs@) == Some(v@),
            None => spec_url_value(pairs@) is None,
        },
{
    let n = pairs.len();
    let mut i: usize = 0;
    proof {
        assert(pairs@.skip(0) =~= pairs@);
    }
    while i < n
        invariant
            n == pairs@.len(),
            0 <= i <= n,
            spec_url_value(pairs@) == spec_url_value(pairs@.skip(i as int)),
        decreases n - i,
    {
        let matches_key = bytes_eq_fold(pairs[i].0.as_str().as_bytes(), "URL".as_bytes());
        if matches_key {
            proof {
                assert(pairs@.skip(i as int)[0] == pairs@[i as int]);
            }
            return Some(pairs[i].1.clone());
        }
        proof {
            assert(pairs@.skip(i as int)[0] == pairs@[i as int]);
            assert(pairs@.skip(i as int).drop_first() =~= pairs@.skip(i as int + 1));
        }
        i += 1;
    }
    proof {
        assert(pairs@.skip(n as int).len() == 0);
    }
    None
}

/// The backend connection target from provider configuration, with the
/// built-in default when the configuration names none.
pub fn retrieve_default_url(config: &Vec<(String, String)>) -> (r: String)
    ensures
        r@ == (match spec_url_value(config@) {
            Some(v) => v,
            None => spec_default_url(),
        }),
{
    match find_url_value(config) {
        Some(v) => v,
        None => String::from_str("redis://127.0.0.1:6379/"),
    }
}

/// Connection-target lookup ignores the case of configuration keys: two
/// configurations whose keys fold to the same bytes, with equal values in the
/// same order, resolve to the same target.
pub proof fn lemma_url_lookup_case_insensitive(a: Seq<(String, String)>, b: Seq<(String, String)>)
    requires
        a.len() == b.len(),
        forall|i: int|
            0 <= i < a.len() ==> fold_bytes(bytes_of(#[trigger] a[i].0@)) == fold_bytes(
                bytes_of(b[i].0@),
            ),
        forall|i: int| 0 <= i < a.len() ==> #[trigger] a[i].1@ == b[i].1@,
    ensures
        spec_url_value(a) == spec_url_value(b),
    decreases a.len(),
{
    if a.len() > 0 {
        assert(is_url_key(a[0].0@) == is_url_key(b[0].0@));
        if !is_url_key(a[0].0@) {
            lemma_url_lookup_case_insensitive(a.drop_first(), b.drop_first());
        }
    }
}

} // verus!
