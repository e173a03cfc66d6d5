//! Names of the on-disk peer list cache: one directory per network, one file per list.

use vstd::prelude::*;
use vstd::string::*;

use crate::num::{digest_hex, hex_bytes};
use crate::text::chars_of;

verus! {

/// Characters kept as they are in a scope name.
pub open spec fn is_scope_char(c: char) -> bool {
    let u = c as u32;
    ||| 48 <= u <= 57
    ||| 65 <= u <= 90
    ||| 97 <= u <= 122
    ||| c == '-'
    ||| c == '_'
}

pub open spec fn scope_char(c: char) -> char {
    if is_scope_char(c) {
        c
    } else {
        '_'
    }
}

/// A network name made safe for a directory name: each character other than an ASCII letter,
/// digit, `-` or `_` becomes `_`; an empty name becomes `default`.
pub open spec fn sanitize_scope_name_spec(name: Seq<char>) -> Seq<char> {
    if name.len() == 0 {
        "default"@
    } else {
        name.map_values(|c: char| scope_char(c))
    }
}

pub fn sanitize_scope_name(name: &str) -> (r: String)
    ensures
        r@ == sanitize_scope_name_spec(name@),
{
    let v = chars_of(name);
    if v.len() == 0 {
        return String::from_str("default");
    }
    let mut out = String::new();
    let mut i: usize = 0;
    while i < v.len()
        invariant
            v@ == name@,
            i <= v.len(),
            out@ == v@.subrange(0, i as int).map_values(|c: char| scope_char(c)),
        decreases v.len() - i,
    {
        let c = v[i];
        let u = c as u32;
        let keep = (48 <= u && u <= 57) || (65 <= u && u <= 90) || (97 <= u && u <= 122) || c == '-'
            || c == '_';
        out.push(if keep { c } else { '_' });
        i = i + 1;
        assert(v@.subrange(0, i as int).map_values(|c: char| scope_char(c)) =~= v@.subrange(
            0,
            i - 1,
        ).map_values(|c: char| scope_char(c)).push(scope_char(c)));
    }
    assert(v@.subrange(0, v.len() as int) =~= v@);
    out
}

/// A sanitized name is never empty, holds only letters, digits, `-` and `_`, and is its own
/// sanitized form.
pub proof fn lemma_sanitize_scope_name(name: Seq<char>)
    ensures
        sanitize_scope_name_spec(name).len() > 0,
        forall|i: int|
            0 <= i < sanitize_scope_name_spec(name).len() ==> is_scope_char(
                #[trigger] sanitize_scope_name_spec(name)[i],
            ),
        sanitize_scope_name_spec(sanitize_scope_name_spec(name)) == sanitize_scope_name_spec(name),
{
    reveal_strlit("default");
    let s = sanitize_scope_name_spec(name);
    assert forall|i: int| 0 <= i < s.len() implies is_scope_char(#[trigger] s[i]) by {
        if name.len() == 0 {
            assert(s == "default"@);
        }
    };
    assert(s.map_values(|c: char| scope_char(c)) =~= s);
}

/// The cache directory of a network: its sanitized name, `-`, and the hex of its digest.
pub fn scope_dir_name(network_name: &str, network_digest: &[u8]) -> (r: String)
    ensures
        r@ == sanitize_scope_name_spec(network_name@) + seq!['-'] + hex_bytes(network_digest@),
{
    let mut r = sanitize_scope_name(network_name);
    r.push('-');
    let h = digest_hex(network_digest);
    r.append(h.as_str());
    r
}

/// The cache file of a list: the hex of the digest of its source key, then `.txt`.
pub fn cache_file_name(source_digest: &[u8]) -> (r: String)
    ensures
        r@ == hex_bytes(source_digest@) + ".txt"@,
{
    let mut r = digest_hex(source_digest);
    r.append(".txt");
    r
}

/// The path, relative to the store's root, of the cache file of a list: the cache directory,
/// the network's directory, and the list's file.
pub fn scope_file_parts(network_name: &str, network_digest: &[u8], source_digest: &[u8]) -> (r:
    Vec<String>)
    ensures
        r.deep_view() == seq![
            "peer-list-cache"@,
            sanitize_scope_name_spec(network_name@) + seq!['-'] + hex_bytes(network_digest@),
            hex_bytes(source_digest@) + ".txt"@,
        ],
{
    let mut r: Vec<String> = Vec::new();
    r.push(String::from_str("peer-list-cache"));
    r.push(scope_dir_name(network_name, network_digest));
    r.push(cache_file_name(source_digest));
    assert(r.deep_view() =~= seq![
        "peer-list-cache"@,
        sanitize_scope_name_spec(network_name@) + seq!['-'] + hex_bytes(network_digest@),
        hex_bytes(source_digest@) + ".txt"@,
    ]);
    r
}


/// The identity of a network, as far as the cache reads it: its name, its secret, and the
/// digest of its secret where that is known already.
#[derive(Debug)]
pub struct NetworkIdentity {
    pub network_name: String,
    pub network_secret: Option<String>,
    pub network_secret_digest: Option<[u8; 32]>,
}

/// The two strings a network's digest is generated from: its name, and its secret (empty
/// where it has none).
pub fn network_digest_seed(identity: &NetworkIdentity) -> (r: (String, String))
    ensures
        r.0@ == identity.network_name@,
        r.1@ == match identity.network_secret {
            Some(s) => s@,
            None => Seq::<char>::empty(),
        },
{
    let secret = match &identity.network_secret {
        Some(s) => s.clone(),
        None => String::new(),
    };
    (identity.network_name.clone(), secret)
}

/// The two strings a list's cache digest is generated from: the tag `peer-list-cache` and the
/// list's source key.
pub fn source_digest_seed(source_key: &str) -> (r: (String, String))
    ensures
        r.0@ == "peer-list-cache"@,
        r.1@ == source_key@,
{
    (String::from_str("peer-list-cache"), String::from_str(source_key))
}

/// The digest of a network: the stored digest of its secret where there is one, else the
/// digest generated from its seed.
pub fn network_digest_bytes(identity: &NetworkIdentity, generated: &[u8; 32]) -> (r: [u8; 32])
    ensures
        r@ == match identity.network_secret_digest {
            Some(d) => d@,
            None => generated@,
        },
{
    match &identity.network_secret_digest {
        Some(d) => *d,
        None => *generated,
    }
}

/// The digest of a network in hex.
pub fn network_digest_hex(identity: &NetworkIdentity, generated: &[u8; 32]) -> (r: String)
    ensures
        r@ == hex_bytes(
            match identity.network_secret_digest {
                Some(d) => d@,
                None => generated@,
            },
        ),
{
    let d = network_digest_bytes(identity, generated);
    digest_hex(d.as_slice())
}

} // verus!
