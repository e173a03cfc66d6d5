//! The meshtier side of the web console: instance ids derived from ZeroTier node ids, the
//! answers given for an instance, and the decisions taken while bringing one up.

use vstd::prelude::*;
use vstd::string::*;

use crate::num::{
    all_digits, char_digit, dec_nat, digit_char, digits_value, hex_byte, hex_bytes, ipv4_text,
    ipv4_to_text, parse_u64_radix, parse_u64_spec, push_dec_u64, push_hex_byte, unsigned_body,
};
use crate::text::{
    drop_leading, eq_str, lemma_str_lt_irreflexive, lemma_str_lt_transitive, str_less, str_lt,
    trim, trim_start_char, trim_str,
};
use crate::uptime::opt_view;
use crate::urls::{parse_url, url_join, url_join_spec, url_parse_spec};
use crate::uuids::{parse_uuid, uuid_hyphenated, uuid_parse_spec, uuid_to_text};

verus! {

/// The first eight bytes of every meshtier instance id: `meshtier` in ASCII.
pub open spec fn mesh_prefix() -> Seq<u8> {
    seq![109u8, 101u8, 115u8, 104u8, 116u8, 105u8, 101u8, 114u8]
}

/// The last `n` bytes of `v`, most significant first (`u64::to_be_bytes` for `n == 8`).
pub open spec fn be_bytes(v: nat, n: nat) -> Seq<u8>
    decreases n,
{
    if n == 0 {
        Seq::empty()
    } else {
        be_bytes(v / 256, (n - 1) as nat).push((v % 256) as u8)
    }
}

/// The length of `s` in UTF-8 bytes, which `str::len` gives.
pub open spec fn byte_len(s: Seq<char>) -> nat {
    vstd::utf8::encode_utf8(s).len()
}

/// The instance id made from a ZeroTier node id: the prefix, then the id read as a 64-bit
/// hexadecimal number, big-endian. The id must be sixteen bytes long.
pub open spec fn zerotier_to_instance_spec(zt: Seq<char>) -> Result<Seq<u8>, Seq<char>> {
    if byte_len(zt) != 16 {
        Err("invalid ZeroTier id length: expected 16 hex chars, got "@ + dec_nat(byte_len(zt)))
    } else {
        match parse_u64_spec(zt, 16) {
            Some(v) => Ok(mesh_prefix() + be_bytes(v as nat, 8)),
            None => Err("invalid ZeroTier hex id: "@ + zt),
        }
    }
}

/// The ZeroTier node id held in an instance id's text: the id must parse as a UUID that starts
/// with the prefix, and its last eight bytes, in hex, are the node id.
pub open spec fn instance_to_zerotier_spec(text: Seq<char>) -> Result<Seq<char>, Seq<char>> {
    match uuid_parse_spec(text) {
        Err(e) => Err("invalid uuid: "@ + e),
        Ok(b) => if b.subrange(0, 8) != mesh_prefix() {
            Err("uuid is not encoded by meshtier zerotier codec"@)
        } else {
            Ok(hex_bytes(b.subrange(8, 16)))
        },
    }
}

/// Writes `be_bytes(v, n)` into `bytes[end - n..end]` and leaves the rest alone.
fn fill_be(bytes: &mut [u8; 16], end: usize, v: u64, n: usize)
    requires
        n <= end <= 16,
    ensures
        final(bytes)@.subrange(end - n, end as int) == be_bytes(v as nat, n as nat),
        forall|i: int|
            0 <= i < 16 && !(end - n <= i < end) ==> final(bytes)@[i] == old(bytes)@[i],
    decreases n,
{
    if n > 0 {
        bytes[end - 1] = (v % 256) as u8;
        fill_be(bytes, end - 1, v / 256, n - 1);
        assert(final(bytes)@.subrange(end - n, end as int) =~= final(bytes)@.subrange(
            end - n,
            end - 1,
        ).push((v % 256) as u8));
    } else {
        assert(final(bytes)@.subrange(end - n, end as int) =~= Seq::<u8>::empty());
    }
}

/// Whether an instance id starts with the meshtier prefix.
pub fn is_meshtier_instance(inst_id: &[u8; 16]) -> (r: bool)
    ensures
        r == (inst_id@.subrange(0, 8) == mesh_prefix()),
{
    let r = inst_id[0] == 109 && inst_id[1] == 101 && inst_id[2] == 115 && inst_id[3] == 104
        && inst_id[4] == 116 && inst_id[5] == 105 && inst_id[6] == 101 && inst_id[7] == 114;
    if r {
        assert(inst_id@.subrange(0, 8) =~= mesh_prefix());
    } else {
        let ghost head = inst_id@.subrange(0, 8);
        assert(head[0] == inst_id[0] && head[1] == inst_id[1] && head[2] == inst_id[2] && head[3]
            == inst_id[3] && head[4] == inst_id[4] && head[5] == inst_id[5] && head[6]
            == inst_id[6] && head[7] == inst_id[7]);
        assert(head != mesh_prefix());
    }
    r
}

/// The instance id of a ZeroTier node id.
pub fn zerotier_id_to_uuid(zt_id: &str) -> (r: Result<[u8; 16], String>)
    requires
        byte_len(zt_id@) <= usize::MAX,
    ensures
        match r {
            Ok(b) => zerotier_to_instance_spec(zt_id@) == Ok::<Seq<u8>, Seq<char>>(b@),
            Err(e) => zerotier_to_instance_spec(zt_id@) == Err::<Seq<u8>, Seq<char>>(e@),
        },
{
    let n = zt_id.len();
    if n != 16 {
        let mut msg = String::from_str("invalid ZeroTier id length: expected 16 hex chars, got ");
        push_dec_u64(&mut msg, n as u64);
        return Err(msg);
    }
    match parse_u64_radix(zt_id, 16) {
        None => {
            let mut msg = String::from_str("invalid ZeroTier hex id: ");
            msg.append(zt_id);
            Err(msg)
        },
        Some(value) => {
            let mut bytes = [0u8; 16];
            bytes[0] = 109;
            bytes[1] = 101;
            bytes[2] = 115;
            bytes[3] = 104;
            bytes[4] = 116;
            bytes[5] = 105;
            bytes[6] = 101;
            bytes[7] = 114;
            let ghost head = bytes@.subrange(0, 8);
            assert(head =~= mesh_prefix());
            fill_be(&mut bytes, 16, value, 8);
            assert(bytes@ =~= mesh_prefix() + be_bytes(value as nat, 8));
            Ok(bytes)
        },
    }
}

/// The ZeroTier node id held in an instance id's text.
pub fn uuid_to_zerotier_id(instance_id: &str) -> (r: Result<String, String>)
    ensures
        match r {
            Ok(s) => instance_to_zerotier_spec(instance_id@) == Ok::<Seq<char>, Seq<char>>(s@),
            Err(e) => instance_to_zerotier_spec(instance_id@) == Err::<Seq<char>, Seq<char>>(e@),
        },
        forall|b: Seq<u8>|
            b.len() == 16 && instance_id@ == #[trigger] uuid_hyphenated(b) && b.subrange(0, 8)
                == mesh_prefix() ==> r == Ok::<String, String>(r->Ok_0) && r->Ok_0@ == hex_bytes(
                b.subrange(8, 16),
            ),
{
    match parse_uuid(instance_id) {
        Err(e) => {
            let mut msg = String::from_str("invalid uuid: ");
            msg.append(e.as_str());
            Err(msg)
        },
        Ok(bytes) => {
            if !is_meshtier_instance(&bytes) {
                return Err(String::from_str("uuid is not encoded by meshtier zerotier codec"));
            }
            let mut out = String::new();
            let mut i: usize = 8;
            while i < 16
                invariant
                    8 <= i <= 16,
                    out@ == hex_bytes(bytes@.subrange(8, i as int)),
                decreases 16 - i,
            {
                push_hex_byte(&mut out, bytes[i]);
                i = i + 1;
                assert(bytes@.subrange(8, i as int).drop_last() =~= bytes@.subrange(8, i - 1));
            }
            Ok(out)
        },
    }
}

/// A lower-case hexadecimal digit.
pub open spec fn is_lower_hex(c: char) -> bool {
    ('0' <= c <= '9') || ('a' <= c <= 'f')
}

pub open spec fn pow16(n: nat) -> nat
    decreases n,
{
    if n == 0 {
        1
    } else {
        16 * pow16((n - 1) as nat)
    }
}

proof fn lemma_lower_hex_digit(c: char)
    requires
        is_lower_hex(c),
    ensures
        char_digit(c, 16) is Some,
        char_digit(c, 16)->0 < 16,
        digit_char(char_digit(c, 16)->0) == c,
{
    vstd::utf8::char_u32_cast(c, c as u32);
}

proof fn lemma_hex_value_bound(s: Seq<char>)
    requires
        forall|i: int| 0 <= i < s.len() ==> is_lower_hex(#[trigger] s[i]),
    ensures
        digits_value(s, 16) < pow16(s.len()),
    decreases s.len(),
{
    if s.len() > 0 {
        lemma_hex_value_bound(s.drop_last());
        lemma_lower_hex_digit(s.last());
    }
}

/// The bytes of the value of an even number of hex digits, written back in hex, are those
/// digits.
proof fn lemma_hex_be_bytes(s: Seq<char>, n: nat)
    requires
        s.len() == 2 * n,
        forall|i: int| 0 <= i < s.len() ==> is_lower_hex(#[trigger] s[i]),
    ensures
        hex_bytes(be_bytes(digits_value(s, 16), n)) == s,
    decreases n,
{
    if n == 0 {
        assert(s =~= Seq::<char>::empty());
    } else {
        let t = s.subrange(0, s.len() - 2);
        let c1 = s[s.len() - 2];
        let c2 = s[s.len() - 1];
        assert(s.drop_last().drop_last() =~= t);
        assert(s.drop_last().last() == c1);
        lemma_hex_be_bytes(t, (n - 1) as nat);
        lemma_lower_hex_digit(c1);
        lemma_lower_hex_digit(c2);
        let d1 = char_digit(c1, 16)->0;
        let d2 = char_digit(c2, 16)->0;
        let v = digits_value(s, 16);
        assert(s.last() == c2);
        assert(digits_value(s, 16) == digits_value(s.drop_last(), 16) * 16 + d2);
        assert(digits_value(s.drop_last(), 16) == digits_value(t, 16) * 16 + d1);
        assert(v == digits_value(t, 16) * 256 + d1 * 16 + d2);
        assert(v / 256 == digits_value(t, 16));
        assert(v % 256 == d1 * 16 + d2);
        let byte = (v % 256) as u8;
        assert(byte / 16 == d1 && byte % 16 == d2);
        let bb = be_bytes(v, n);
        assert(bb.drop_last() == be_bytes(v / 256, (n - 1) as nat));
        assert(hex_byte(byte) =~= seq![c1, c2]);
        assert(s =~= t + seq![c1, c2]);
    }
}

/// Every ZeroTier id of sixteen lower-case hex digits gives an instance id that carries the
/// meshtier prefix and whose last eight bytes, in hex, are the ZeroTier id again; with
/// `uuid_to_text` and `uuid_to_zerotier_id`, decoding the instance id's text gives the
/// ZeroTier id back.
pub proof fn lemma_zerotier_codec_roundtrip(zt: Seq<char>)
    requires
        zt.len() == 16,
        forall|i: int| 0 <= i < 16 ==> is_lower_hex(#[trigger] zt[i]),
    ensures
        zerotier_to_instance_spec(zt) is Ok,
        zerotier_to_instance_spec(zt)->Ok_0.len() == 16,
        zerotier_to_instance_spec(zt)->Ok_0.subrange(0, 8) == mesh_prefix(),
        hex_bytes(zerotier_to_instance_spec(zt)->Ok_0.subrange(8, 16)) == zt,
{
    assert(vstd::utf8::is_ascii_chars(zt));
    vstd::utf8::is_ascii_chars_encode_utf8(zt);
    assert forall|i: int| 0 <= i < zt.len() implies (#[trigger] char_digit(zt[i], 16)) is Some by {
        lemma_lower_hex_digit(zt[i]);
    };
    assert(unsigned_body(zt) == zt);
    assert(all_digits(zt, 16));
    lemma_hex_value_bound(zt);
    reveal_with_fuel(pow16, 17);
    assert(pow16(16) == 0x1_0000_0000_0000_0000);
    let v = digits_value(zt, 16);
    assert(parse_u64_spec(zt, 16) == Some(v as u64));
    lemma_hex_be_bytes(zt, 8);
    lemma_be_bytes_len(v, 8);
    let b = mesh_prefix() + be_bytes(v, 8);
    assert(b.subrange(0, 8) =~= mesh_prefix());
    assert(b.subrange(8, 16) =~= be_bytes(v, 8));
}

/// Every instance id made from a ZeroTier id is sixteen bytes long and carries the meshtier
/// prefix, so clearing the meshtier instances always covers it.
pub proof fn lemma_zerotier_instances_are_meshtier(zt: Seq<char>)
    requires
        zerotier_to_instance_spec(zt) is Ok,
    ensures
        zerotier_to_instance_spec(zt)->Ok_0.len() == 16,
        zerotier_to_instance_spec(zt)->Ok_0.subrange(0, 8) == mesh_prefix(),
{
    let v = parse_u64_spec(zt, 16)->0;
    lemma_be_bytes_len(v as nat, 8);
    let b = mesh_prefix() + be_bytes(v as nat, 8);
    assert(b.subrange(0, 8) =~= mesh_prefix());
}

proof fn lemma_hex_digit_back(d: nat)
    requires
        d < 16,
    ensures
        is_lower_hex(digit_char(d)),
        char_digit(digit_char(d), 16) == Some(d),
{
}

/// The hex text of some bytes is lower-case hex, and its value, written back as bytes, is
/// those bytes.
proof fn lemma_be_bytes_of_hex(x: Seq<u8>)
    ensures
        hex_bytes(x).len() == 2 * x.len(),
        forall|i: int| 0 <= i < hex_bytes(x).len() ==> is_lower_hex(#[trigger] hex_bytes(x)[i]),
        be_bytes(digits_value(hex_bytes(x), 16), x.len()) == x,
    decreases x.len(),
{
    if x.len() > 0 {
        let y = x.drop_last();
        let b = x.last();
        lemma_be_bytes_of_hex(y);
        let d1 = (b / 16) as nat;
        let d2 = (b % 16) as nat;
        lemma_hex_digit_back(d1);
        lemma_hex_digit_back(d2);
        let h = hex_bytes(x);
        let hy = hex_bytes(y);
        assert(h == hy + hex_byte(b));
        assert(h.drop_last() =~= hy.push(digit_char(d1)));
        assert(h.drop_last().drop_last() =~= hy);
        assert(h.last() == digit_char(d2));
        assert(h.drop_last().last() == digit_char(d1));
        assert(digits_value(h, 16) == digits_value(h.drop_last(), 16) * 16 + d2);
        assert(digits_value(h.drop_last(), 16) == digits_value(hy, 16) * 16 + d1);
        let v = digits_value(h, 16);
        assert(v == digits_value(hy, 16) * 256 + b);
        assert(v / 256 == digits_value(hy, 16));
        assert(v % 256 == b);
        assert forall|i: int| 0 <= i < h.len() implies is_lower_hex(#[trigger] h[i]) by {
            if i < hy.len() {
                assert(h[i] == hy[i]);
            }
        };
        assert(be_bytes(v, x.len()) == be_bytes(v / 256, y.len()).push((v % 256) as u8));
        assert(y.push(b) =~= x);
    }
}

/// Every instance id with the meshtier prefix is the instance id of the ZeroTier id its last
/// eight bytes spell in hex; with `uuid_to_zerotier_id` and `zerotier_id_to_uuid`, an
/// instance id's text decodes to a ZeroTier id that encodes back to the same instance id.
pub proof fn lemma_instance_codec_roundtrip(b: Seq<u8>)
    requires
        b.len() == 16,
        b.subrange(0, 8) == mesh_prefix(),
    ensures
        zerotier_to_instance_spec(hex_bytes(b.subrange(8, 16))) == Ok::<Seq<u8>, Seq<char>>(b),
{
    let x = b.subrange(8, 16);
    let zt = hex_bytes(x);
    lemma_be_bytes_of_hex(x);
    assert(vstd::utf8::is_ascii_chars(zt));
    vstd::utf8::is_ascii_chars_encode_utf8(zt);
    assert forall|i: int| 0 <= i < zt.len() implies (#[trigger] char_digit(zt[i], 16)) is Some by {
        lemma_lower_hex_digit(zt[i]);
    };
    assert(unsigned_body(zt) == zt);
    lemma_hex_value_bound(zt);
    reveal_with_fuel(pow16, 17);
    let v = digits_value(zt, 16);
    assert(parse_u64_spec(zt, 16) == Some(v as u64));
    assert(mesh_prefix() + be_bytes(v, 8) =~= b);
}

proof fn lemma_be_bytes_len(v: nat, n: nat)
    ensures
        be_bytes(v, n).len() == n,
    decreases n,
{
    if n > 0 {
        lemma_be_bytes_len(v / 256, (n - 1) as nat);
    }
}


/// The value of `b` read as one big-endian number. Two ids of the same length compare as
/// `Uuid` does (byte by byte) exactly when their values compare so.
pub open spec fn be_value(b: Seq<u8>) -> nat
    decreases b.len(),
{
    if b.len() == 0 {
        0
    } else {
        be_value(b.drop_last()) * 256 + b.last() as nat
    }
}

pub open spec fn pow256(n: nat) -> nat
    decreases n,
{
    if n == 0 {
        1
    } else {
        256 * pow256((n - 1) as nat)
    }
}

proof fn lemma_be_value_bound(b: Seq<u8>)
    ensures
        be_value(b) < pow256(b.len()),
    decreases b.len(),
{
    if b.len() > 0 {
        lemma_be_value_bound(b.drop_last());
    }
}

proof fn lemma_be_value_injective(a: Seq<u8>, b: Seq<u8>)
    requires
        a.len() == b.len(),
        be_value(a) == be_value(b),
    ensures
        a == b,
    decreases a.len(),
{
    if a.len() > 0 {
        assert(be_value(a) % 256 == a.last() as nat);
        assert(be_value(b) % 256 == b.last() as nat);
        assert(be_value(a) / 256 == be_value(a.drop_last()));
        assert(be_value(b) / 256 == be_value(b.drop_last()));
        lemma_be_value_injective(a.drop_last(), b.drop_last());
        assert(a =~= a.drop_last().push(a.last()));
        assert(b =~= b.drop_last().push(b.last()));
    } else {
        assert(a =~= b);
    }
}

/// The big-endian value of an instance id.
fn id_key(b: &[u8; 16]) -> (k: u128)
    ensures
        k as nat == be_value(b@),
{
    let mut acc: u128 = 0;
    let mut i: usize = 0;
    proof {
        reveal_with_fuel(pow256, 17);
    }
    assert(pow256(16) == 0x1_0000_0000_0000_0000_0000_0000_0000_0000);
    while i < 16
        invariant
            i <= 16,
            acc as nat == be_value(b@.subrange(0, i as int)),
            pow256(16) == 0x1_0000_0000_0000_0000_0000_0000_0000_0000,
        decreases 16 - i,
    {
        proof {
            lemma_be_value_bound(b@.subrange(0, i as int));
            lemma_pow256_mono(i as nat, 15);
        }
        assert(b@.subrange(0, i + 1).drop_last() =~= b@.subrange(0, i as int));
        acc = acc * 256 + b[i] as u128;
        i = i + 1;
    }
    assert(b@.subrange(0, 16) =~= b@);
    acc
}

proof fn lemma_pow256_mono(i: nat, j: nat)
    requires
        i <= j,
    ensures
        pow256(i) <= pow256(j),
    decreases j,
{
    if i < j {
        lemma_pow256_mono(i, (j - 1) as nat);
    }
}

/// Whether some id in `ids` has the bytes `x`.
pub open spec fn holds_id(ids: Seq<[u8; 16]>, x: Seq<u8>) -> bool {
    exists|i: int| 0 <= i < ids.len() && (#[trigger] ids[i])@ == x
}

/// Ids in ascending order, none twice: the contents of a `BTreeSet<Uuid>`.
pub open spec fn ids_ascending(ids: Seq<[u8; 16]>) -> bool {
    forall|i: int, j: int| 0 <= i < j < ids.len() ==> be_value(ids[i]@) < be_value(ids[j]@)
}

spec fn keys_match(ids: Seq<[u8; 16]>, keys: Seq<u128>) -> bool {
    &&& ids.len() == keys.len()
    &&& forall|i: int| 0 <= i < ids.len() ==> keys[i] as nat == be_value(#[trigger] ids[i]@)
}

/// Adds `id` to the ordered set held in `ids`, whose values are in `keys`.
fn insert_id(ids: &mut Vec<[u8; 16]>, keys: &mut Vec<u128>, id: [u8; 16])
    requires
        keys_match(old(ids)@, old(keys)@),
        ids_ascending(old(ids)@),
    ensures
        keys_match(final(ids)@, final(keys)@),
        ids_ascending(final(ids)@),
        forall|x: Seq<u8>|
            #![trigger holds_id(final(ids)@, x)]
            holds_id(final(ids)@, x) <==> (holds_id(old(ids)@, x) || x == id@),
{
    let k = id_key(&id);
    let mut p: usize = 0;
    while p < keys.len() && keys[p] < k
        invariant
            p <= keys.len(),
            keys_match(ids@, keys@),
            ids@ == old(ids)@,
            keys@ == old(keys)@,
            forall|q: int| 0 <= q < p ==> keys[q] < k,
        decreases keys.len() - p,
    {
        p = p + 1;
    }
    if p < keys.len() && keys[p] == k {
        proof {
            lemma_be_value_injective(ids@[p as int]@, id@);
            assert forall|x: Seq<u8>| holds_id(ids@, x) <==> (holds_id(old(ids)@, x) || x
                == id@) by {
                if x == id@ {
                    assert(ids@[p as int]@ == x);
                }
            };
        }
        return;
    }
    ids.insert(p, id);
    keys.insert(p, k);
    proof {
        assert forall|i: int, j: int| 0 <= i < j < ids@.len() implies be_value(ids@[i]@)
            < be_value(ids@[j]@) by {
            if i < p && j > p {
                assert(ids@[j]@ == old(ids)@[j - 1]@);
            }
            if j > p && i > p {
                assert(ids@[i]@ == old(ids)@[i - 1]@);
                assert(ids@[j]@ == old(ids)@[j - 1]@);
            }
            if j > p && i == p {
                assert(ids@[j]@ == old(ids)@[j - 1]@);
                assert(keys@[j] == old(keys)@[j - 1]);
                assert(!(old(keys)@[p as int] < k));
                if j - 1 > p {
                    assert(be_value(old(ids)@[p as int]@) < be_value(old(ids)@[j - 1]@));
                }
            }
        };
        assert forall|x: Seq<u8>| holds_id(ids@, x) <==> (holds_id(old(ids)@, x) || x
            == id@) by {
            if holds_id(old(ids)@, x) {
                let q = choose|q: int| 0 <= q < old(ids)@.len() && (#[trigger] old(ids)@[q])@
                    == x;
                if q < p {
                    assert(ids@[q]@ == x);
                } else {
                    assert(ids@[q + 1]@ == x);
                }
            }
            if x == id@ {
                assert(ids@[p as int]@ == x);
            }
            if holds_id(ids@, x) {
                let q = choose|q: int| 0 <= q < ids@.len() && (#[trigger] ids@[q])@ == x;
                if q < p {
                    assert(old(ids)@[q]@ == x);
                } else if q > p {
                    assert(old(ids)@[q - 1]@ == x);
                }
            }
        };
    }
}

/// Whether `x` is the id that one of `texts` parses to, and carries the meshtier prefix.
pub open spec fn names_meshtier_id(texts: Seq<Seq<char>>, x: Seq<u8>) -> bool {
    &&& x.subrange(0, 8) == mesh_prefix()
    &&& exists|i: int|
        0 <= i < texts.len() && uuid_parse_spec(#[trigger] texts[i]) == Ok::<
            Seq<u8>,
            Seq<char>,
        >(x)
}

proof fn lemma_names_step(pre: Seq<Seq<char>>, t: Seq<char>, x: Seq<u8>)
    ensures
        names_meshtier_id(pre.push(t), x) <==> (names_meshtier_id(pre, x) || (x.subrange(0, 8)
            == mesh_prefix() && uuid_parse_spec(t) == Ok::<Seq<u8>, Seq<char>>(x))),
{
    let post = pre.push(t);
    if names_meshtier_id(post, x) {
        let q = choose|q: int|
            0 <= q < post.len() && uuid_parse_spec(#[trigger] post[q]) == Ok::<Seq<u8>, Seq<char>>(
                x,
            );
        if q < pre.len() {
            assert(pre[q] == post[q]);
        }
    }
    if names_meshtier_id(pre, x) {
        let q = choose|q: int|
            0 <= q < pre.len() && uuid_parse_spec(#[trigger] pre[q]) == Ok::<Seq<u8>, Seq<char>>(
                x,
            );
        assert(post[q] == pre[q]);
    }
    if x.subrange(0, 8) == mesh_prefix() && uuid_parse_spec(t) == Ok::<Seq<u8>, Seq<char>>(x) {
        assert(post[pre.len() as int] == t);
    }
}

/// Adds to the ordered set the meshtier ids that `texts` parse to.
fn add_meshtier_ids(texts: &Vec<String>, ids: &mut Vec<[u8; 16]>, keys: &mut Vec<u128>)
    requires
        keys_match(old(ids)@, old(keys)@),
        ids_ascending(old(ids)@),
    ensures
        keys_match(final(ids)@, final(keys)@),
        ids_ascending(final(ids)@),
        forall|x: Seq<u8>|
            #![trigger holds_id(final(ids)@, x)]
            holds_id(final(ids)@, x) <==> (holds_id(old(ids)@, x) || names_meshtier_id(
                texts.deep_view(),
                x,
            )),
{
    let ghost start = ids@;
    let mut i: usize = 0;
    while i < texts.len()
        invariant
            i <= texts.len(),
            keys_match(ids@, keys@),
            ids_ascending(ids@),
            start == old(ids)@,
            forall|x: Seq<u8>|
                #![trigger holds_id(ids@, x)]
                holds_id(ids@, x) <==> (holds_id(start, x) || names_meshtier_id(
                    texts.deep_view().subrange(0, i as int),
                    x,
                )),
        decreases texts.len() - i,
    {
        let ghost before = ids@;
        let ghost pre = texts.deep_view().subrange(0, i as int);
        let ghost t = texts[i as int]@;
        assert(texts.deep_view()[i as int] == t);
        assert(texts.deep_view().subrange(0, i + 1) =~= pre.push(t));
        match parse_uuid(texts[i].as_str()) {
            Ok(b) => {
                let keep = is_meshtier_instance(&b);
                if keep {
                    insert_id(ids, keys, b);
                }
                proof {
                    assert(uuid_parse_spec(t) == Ok::<Seq<u8>, Seq<char>>(b@));
                    assert forall|x: Seq<u8>| holds_id(ids@, x) <==> (holds_id(start, x)
                        || names_meshtier_id(pre.push(t), x)) by {
                        lemma_names_step(pre, t, x);
                        assert(holds_id(before, x) <==> (holds_id(start, x) || names_meshtier_id(
                            pre,
                            x,
                        )));
                        if keep {
                            assert(holds_id(ids@, x) <==> (holds_id(before, x) || x == b@));
                        } else {
                            assert(ids@ == before);
                        }
                    };
                }
            },
            Err(e) => {
                proof {
                    assert(uuid_parse_spec(t) == Err::<Seq<u8>, Seq<char>>(e@));
                    assert forall|x: Seq<u8>| holds_id(ids@, x) <==> (holds_id(start, x)
                        || names_meshtier_id(pre.push(t), x)) by {
                        lemma_names_step(pre, t, x);
                        assert(holds_id(before, x) <==> (holds_id(start, x) || names_meshtier_id(
                            pre,
                            x,
                        )));
                    };
                }
            },
        }
        i = i + 1;
        assert(texts.deep_view().subrange(0, i as int) == pre.push(t));
    }
    assert(texts.deep_view().subrange(0, texts.len() as int) =~= texts.deep_view());
}

/// The meshtier instances to remove before one is created: those of the running instance ids
/// and of the saved network configurations that parse as UUIDs with the meshtier prefix, in
/// ascending order and each once, as a `BTreeSet<Uuid>` holds them; `None` when there is none.
pub fn meshtier_ids_to_clear(running_ids: &Vec<String>, saved_ids: &Vec<String>) -> (r: Option<
    Vec<[u8; 16]>,
>)
    ensures
        match r {
            Some(ids) => {
                &&& ids.len() > 0
                &&& ids_ascending(ids@)
                &&& forall|x: Seq<u8>|
                    holds_id(ids@, x) <==> (names_meshtier_id(running_ids.deep_view(), x)
                        || names_meshtier_id(saved_ids.deep_view(), x))
            },
            None => forall|x: Seq<u8>|
                !names_meshtier_id(running_ids.deep_view(), x) && !names_meshtier_id(
                    saved_ids.deep_view(),
                    x,
                ),
        },
{
    let mut ids: Vec<[u8; 16]> = Vec::new();
    let mut keys: Vec<u128> = Vec::new();
    let ghost empty = ids@;
    assert(forall|x: Seq<u8>| !holds_id(empty, x));
    add_meshtier_ids(running_ids, &mut ids, &mut keys);
    let ghost first = ids@;
    add_meshtier_ids(saved_ids, &mut ids, &mut keys);
    assert forall|x: Seq<u8>|
        holds_id(ids@, x) <==> (names_meshtier_id(running_ids.deep_view(), x) || names_meshtier_id(
            saved_ids.deep_view(),
            x,
        )) by {
        assert(holds_id(first, x) <==> (holds_id(empty, x) || names_meshtier_id(
            running_ids.deep_view(),
            x,
        )));
        assert(holds_id(ids@, x) <==> (holds_id(first, x) || names_meshtier_id(
            saved_ids.deep_view(),
            x,
        )));
    };
    if ids.len() == 0 {
        proof {
            assert forall|x: Seq<u8>|
                !names_meshtier_id(running_ids.deep_view(), x) && !names_meshtier_id(
                    saved_ids.deep_view(),
                    x,
                ) by {
                assert(!holds_id(ids@, x));
            };
        }
        None
    } else {
        Some(ids)
    }
}

/// The state of the ZeroTier side of the mesh.
#[derive(Clone, Copy, Debug, PartialEq, Eq, Structural)]
pub enum MeshStatus {
    Online,
    Offline,
    Reset,
}

/// What the mesh endpoints answer: the instance, its name, its state and its address.
#[derive(Debug, PartialEq, Eq)]
pub struct MeshResponse {
    pub id: String,
    pub name: String,
    pub status: MeshStatus,
    pub ip: Option<String>,
}

pub struct MeshResponseView {
    pub id: Seq<char>,
    pub name: Seq<char>,
    pub status: MeshStatus,
    pub ip: Option<Seq<char>>,
}

impl View for MeshResponse {
    type V = MeshResponseView;

    open spec fn view(&self) -> MeshResponseView {
        MeshResponseView {
            id: self.id@,
            name: self.name@,
            status: self.status,
            ip: match self.ip {
                Some(a) => Some(a@),
                None => None,
            },
        }
    }
}

/// What an EasyTier instance reports of its own node: its host name and the address of its
/// virtual IPv4 interface (big-endian), when it has one.
#[derive(Debug, PartialEq, Eq)]
pub struct MyNodeInfo {
    pub hostname: String,
    pub virtual_ipv4: Option<u32>,
}

/// What an EasyTier instance reports of itself.
#[derive(Debug, PartialEq, Eq)]
pub struct RunningInfo {
    pub running: bool,
    pub error_msg: Option<String>,
    pub my_node_info: Option<MyNodeInfo>,
}

/// An HTTP error answer: its status code and the message of its JSON body.
#[derive(Debug, PartialEq, Eq)]
pub struct HttpError {
    pub status: u16,
    pub message: String,
}

/// The name given for an instance: its node's host name, or `easytier` where it has none
/// but blanks.
pub open spec fn response_name(info: RunningInfo) -> Seq<char> {
    match info.my_node_info {
        Some(n) => if trim(n.hostname@).len() == 0 {
            "easytier"@
        } else {
            n.hostname@
        },
        None => "easytier"@,
    }
}

/// The address given for an instance: its virtual IPv4 address, dotted.
pub open spec fn response_ip(info: RunningInfo) -> Option<Seq<char>> {
    match info.my_node_info {
        Some(n) => match n.virtual_ipv4 {
            Some(a) => Some(ipv4_text(a)),
            None => None,
        },
        None => None,
    }
}

/// The answer for an EasyTier instance: its id, name, state (online while it runs) and
/// address.
pub open spec fn easytier_response_spec(inst_id: Seq<u8>, info: RunningInfo) -> MeshResponseView {
    MeshResponseView {
        id: uuid_hyphenated(inst_id),
        name: response_name(info),
        status: if info.running {
            MeshStatus::Online
        } else {
            MeshStatus::Offline
        },
        ip: response_ip(info),
    }
}

/// The answer for an EasyTier instance.
pub fn build_easytier_response(inst_id: [u8; 16], info: &RunningInfo) -> (r: MeshResponse)
    ensures
        r@ == easytier_response_spec(inst_id@, *info),
{
    let status = if info.running {
        MeshStatus::Online
    } else {
        MeshStatus::Offline
    };
    let (name, ip) = match &info.my_node_info {
        Some(my_node) => {
            let trimmed = trim_str(my_node.hostname.as_str());
            let name = if trimmed.as_str().is_empty() {
                String::from_str("easytier")
            } else {
                my_node.hostname.clone()
            };
            let ip = match my_node.virtual_ipv4 {
                Some(a) => Some(ipv4_to_text(a)),
                None => None,
            };
            (name, ip)
        },
        None => (String::from_str("easytier"), None),
    };
    MeshResponse { id: uuid_to_text(inst_id), name, status, ip }
}

/// The keys of the reported instances, in the order they were walked.
pub open spec fn entry_keys(entries: Seq<(String, RunningInfo)>) -> Seq<Seq<char>> {
    entries.map_values(|e: (String, RunningInfo)| e.0@)
}

/// The first position of `key` in `keys`.
pub open spec fn first_index_of(keys: Seq<Seq<char>>, key: Seq<char>) -> Option<int>
    decreases keys.len(),
{
    if keys.len() == 0 {
        None
    } else {
        match first_index_of(keys.drop_last(), key) {
            Some(k) => Some(k),
            None => if keys.last() == key {
                Some(keys.len() - 1)
            } else {
                None
            },
        }
    }
}

/// Which reported instance answers for `inst_id`: the one reported under its id, or else the
/// first one walked.
pub open spec fn network_entry_spec(entries: Seq<(String, RunningInfo)>, inst_id: Seq<u8>) -> Option<
    int,
> {
    match first_index_of(entry_keys(entries), uuid_hyphenated(inst_id)) {
        Some(k) => Some(k),
        None => if entries.len() > 0 {
            Some(0)
        } else {
            None
        },
    }
}

proof fn lemma_first_index_bound(keys: Seq<Seq<char>>, key: Seq<char>)
    ensures
        first_index_of(keys, key) matches Some(k) ==> 0 <= k < keys.len() && keys[k] == key,
    decreases keys.len(),
{
    if keys.len() > 0 {
        lemma_first_index_bound(keys.drop_last(), key);
    }
}

/// The position of the reported instance that answers for `inst_id`, among the instances
/// reported under their ids in the order the report's map was walked.
pub fn find_network_info(entries: &Vec<(String, RunningInfo)>, inst_id: [u8; 16]) -> (r: Option<
    usize,
>)
    ensures
        r matches Some(k) ==> k < entries.len(),
        network_entry_spec(entries@, inst_id@) matches Some(k) ==> 0 <= k < entries.len(),
        r == match network_entry_spec(entries@, inst_id@) {
            Some(k) => Some(k as usize),
            None => None::<usize>,
        },
{
    let key = uuid_to_text(inst_id);
    let ghost keys = entry_keys(entries@);
    proof {
        lemma_first_index_bound(keys, key@);
    }
    let mut i: usize = 0;
    while i < entries.len()
        invariant
            i <= entries.len(),
            keys == entry_keys(entries@),
            key@ == uuid_hyphenated(inst_id@),
            first_index_of(keys.subrange(0, i as int), key@) is None,
        decreases entries.len() - i,
    {
        assert(keys.subrange(0, i + 1).drop_last() =~= keys.subrange(0, i as int));
        if eq_str(entries[i].0.as_str(), key.as_str()) {
            proof {
                lemma_first_index_prefix(keys, key@, i + 1);
            }
            return Some(i);
        }
        i = i + 1;
    }
    assert(keys.subrange(0, entries.len() as int) =~= keys);
    if entries.len() > 0 {
        Some(0)
    } else {
        None
    }
}

proof fn lemma_first_index_prefix(keys: Seq<Seq<char>>, key: Seq<char>, n: int)
    requires
        0 <= n <= keys.len(),
        first_index_of(keys.subrange(0, n), key) is Some,
    ensures
        first_index_of(keys, key) == first_index_of(keys.subrange(0, n), key),
    decreases keys.len() - n,
{
    if n < keys.len() {
        assert(keys.subrange(0, n + 1).drop_last() =~= keys.subrange(0, n));
        lemma_first_index_prefix(keys, key, n + 1);
    } else {
        assert(keys.subrange(0, n) =~= keys);
    }
}

/// What one look at the reported instances decides while waiting for an instance to come up.
#[derive(Debug, PartialEq, Eq)]
pub enum OnlinePoll {
    /// Look again later.
    Wait,
    /// The instance stopped with an error: answer it.
    Failed(HttpError),
    /// The instance runs: answer this.
    Online(MeshResponse),
}

/// The message of an instance that stopped with an error.
pub open spec fn startup_failure_message(info: RunningInfo) -> Option<Seq<char>> {
    if info.running {
        None
    } else {
        match info.error_msg {
            Some(m) => if trim(m@).len() > 0 {
                Some("easytier instance startup failed: "@ + m@)
            } else {
                None
            },
            None => None,
        }
    }
}

/// One look at the instances the EasyTier core reports (`None` when the report failed or
/// holds no map): wait while the instance is missing, or stopped without an error; fail with
/// its error once it stopped with one; answer for it once it runs.
pub fn online_poll(inst_id: [u8; 16], entries: Option<&Vec<(String, RunningInfo)>>) -> (r:
    OnlinePoll)
    ensures
        match entries {
            None => r is Wait,
            Some(es) => match network_entry_spec(es@, inst_id@) {
                None => r is Wait,
                Some(k) => {
                    let info = es@[k].1;
                    if info.running {
                        r matches OnlinePoll::Online(resp) && resp@ == easytier_response_spec(
                            inst_id@,
                            info,
                        )
                    } else {
                        match startup_failure_message(info) {
                            Some(m) => r matches OnlinePoll::Failed(e) && e.status == 500
                                && e.message@ == m,
                            None => r is Wait,
                        }
                    }
                },
            },
        },
{
    let es = match entries {
        None => {
            return OnlinePoll::Wait;
        },
        Some(es) => es,
    };
    let k = match find_network_info(es, inst_id) {
        None => {
            return OnlinePoll::Wait;
        },
        Some(k) => k,
    };
    let info = &es[k].1;
    if !info.running {
        match &info.error_msg {
            Some(msg) => {
                let t = trim_str(msg.as_str());
                if !t.as_str().is_empty() {
                    let mut m = String::from_str("easytier instance startup failed: ");
                    m.append(msg.as_str());
                    return OnlinePoll::Failed(HttpError { status: 500, message: m });
                }
                return OnlinePoll::Wait;
            },
            None => {
                return OnlinePoll::Wait;
            },
        }
    }
    OnlinePoll::Online(build_easytier_response(inst_id, info))
}

/// What connecting does with the state that ZeroTier reported.
#[derive(Clone, Copy, Debug, PartialEq, Eq, Structural)]
pub enum ConnectPlan {
    /// Keep the reported state and answer it.
    UseCurrent,
    /// Ask ZeroTier to go online.
    RequestOnline,
}

/// Connecting keeps a state that is online or being reset, and asks to go online otherwise,
/// also when the state could not be read (`None`).
pub fn connect_plan(current: Option<MeshStatus>) -> (r: ConnectPlan)
    ensures
        (r is UseCurrent) <==> (current == Some(MeshStatus::Online) || current == Some(
            MeshStatus::Reset,
        )),
{
    match current {
        Some(MeshStatus::Online) | Some(MeshStatus::Reset) => ConnectPlan::UseCurrent,
        _ => ConnectPlan::RequestOnline,
    }
}

/// An EasyTier core session as the client manager lists it.
#[derive(Debug, PartialEq, Eq)]
pub struct SessionInfo {
    pub user_id: i32,
    pub machine_id: [u8; 16],
    pub token: String,
}

pub open spec fn is_admin_session(s: SessionInfo) -> bool {
    s.token@ == "admin"@
}

pub open spec fn machine_text(s: SessionInfo) -> Seq<char> {
    uuid_hyphenated(s.machine_id@)
}

/// Session `k` is the one that comes first among the admin sessions when they are sorted by
/// their machine id's text, the sort keeping the listed order of equals.
pub open spec fn admin_first(sessions: Seq<SessionInfo>, k: int) -> bool {
    &&& 0 <= k < sessions.len()
    &&& is_admin_session(sessions[k])
    &&& forall|j: int|
        0 <= j < sessions.len() && is_admin_session(#[trigger] sessions[j]) ==> !str_lt(
            machine_text(sessions[j]),
            machine_text(sessions[k]),
        ) && (machine_text(sessions[j]) == machine_text(sessions[k]) ==> k <= j)
}

/// The identity (user and machine) of the session with the `admin` token whose machine id
/// comes first; an error with status 503 when no session holds that token.
pub fn pick_admin_identity(sessions: &Vec<SessionInfo>) -> (r: Result<(i32, [u8; 16]), HttpError>)
    ensures
        match r {
            Ok((user_id, machine_id)) => exists|k: int|
                admin_first(sessions@, k) && user_id == sessions@[k].user_id && machine_id@
                    == sessions@[k].machine_id@,
            Err(e) => {
                &&& forall|j: int|
                    0 <= j < sessions.len() ==> !is_admin_session(#[trigger] sessions@[j])
                &&& e.status == 503
                &&& e.message@ == "no online easytier-core session with token 'admin'"@
            },
        },
{
    let mut best: Option<usize> = None;
    let mut best_text = String::new();
    let mut i: usize = 0;
    while i < sessions.len()
        invariant
            i <= sessions.len(),
            match best {
                None => forall|j: int| 0 <= j < i ==> !is_admin_session(#[trigger] sessions@[j]),
                Some(b) => {
                    &&& b < i
                    &&& is_admin_session(sessions@[b as int])
                    &&& best_text@ == machine_text(sessions@[b as int])
                    &&& forall|j: int|
                        0 <= j < i && is_admin_session(#[trigger] sessions@[j]) ==> !str_lt(
                            machine_text(sessions@[j]),
                            machine_text(sessions@[b as int]),
                        ) && (machine_text(sessions@[j]) == machine_text(sessions@[b as int])
                            ==> b <= j)
                },
            },
        decreases sessions.len() - i,
    {
        let s = &sessions[i];
        if eq_str(s.token.as_str(), "admin") {
            let text = uuid_to_text(s.machine_id);
            match best {
                None => {
                    best = Some(i);
                    best_text = text;
                    proof {
                        lemma_str_lt_irreflexive(text@);
                    }
                },
                Some(b) => {
                    if str_less(text.as_str(), best_text.as_str()) {
                        proof {
                            assert forall|j: int|
                                0 <= j < i + 1 && is_admin_session(
                                    #[trigger] sessions@[j],
                                ) implies !str_lt(machine_text(sessions@[j]), text@) && (
                            machine_text(sessions@[j]) == text@ ==> i <= j) by {
                                if j < i {
                                    if str_lt(machine_text(sessions@[j]), text@) {
                                        lemma_str_lt_transitive(
                                            machine_text(sessions@[j]),
                                            text@,
                                            best_text@,
                                        );
                                    }
                                    if machine_text(sessions@[j]) == text@ {
                                        assert(str_lt(machine_text(sessions@[j]), best_text@));
                                    }
                                } else {
                                    lemma_str_lt_irreflexive(text@);
                                }
                            };
                        }
                        best = Some(i);
                        best_text = text;
                    } else {
                        proof {
                            if text@ == best_text@ {
                                assert(b <= i);
                            }
                        }
                    }
                },
            }
        }
        i = i + 1;
    }
    match best {
        Some(b) => {
            assert(admin_first(sessions@, b as int));
            Ok((sessions[b].user_id, sessions[b].machine_id))
        },
        None => Err(
            HttpError {
                status: 503,
                message: String::from_str("no online easytier-core session with token 'admin'"),
            },
        ),
    }
}

/// The name of this machine as the operating system gives it (`gethostname`), read lossily
/// as UTF-8. Nothing is stated of it: it depends on the machine.
#[verifier::external_body]
fn system_hostname() -> (r: String) {
    gethostname::gethostname().to_string_lossy().into_owned()
}

/// The host name of a new instance: the system's host name, trimmed, where it is not blank;
/// else the `HOSTNAME` variable, or `COMPUTERNAME` where `HOSTNAME` is unset, trimmed, where
/// that is not blank; else `mesh-node`.
pub open spec fn hostname_choice(
    system: Seq<char>,
    hostname_var: Option<Seq<char>>,
    computername_var: Option<Seq<char>>,
) -> Seq<char> {
    if trim(system).len() > 0 {
        trim(system)
    } else {
        let v = match hostname_var {
            Some(h) => Some(h),
            None => computername_var,
        };
        match v {
            Some(x) => if trim(x).len() > 0 {
                trim(x)
            } else {
                "mesh-node"@
            },
            None => "mesh-node"@,
        }
    }
}

/// The host name of a new instance, given the system's host name and the two variables.
pub fn pick_hostname(
    system: &str,
    hostname_var: &Option<String>,
    computername_var: &Option<String>,
) -> (r: String)
    ensures
        r@ == hostname_choice(system@, opt_view(*hostname_var), opt_view(*computername_var)),
{
    let t = trim_str(system);
    if !t.as_str().is_empty() {
        return t;
    }
    let v = match hostname_var {
        Some(h) => Some(h),
        None => computername_var.as_ref(),
    };
    match v {
        Some(x) => {
            let tx = trim_str(x.as_str());
            if !tx.as_str().is_empty() {
                tx
            } else {
                String::from_str("mesh-node")
            }
        },
        None => String::from_str("mesh-node"),
    }
}

/// The host name of a new instance: the system's host name, whatever it is, goes through
/// `pick_hostname` with the two variables.
pub fn default_hostname(hostname_var: &Option<String>, computername_var: &Option<String>) -> (r:
    String)
    ensures
        exists|system: Seq<char>|
            r@ == hostname_choice(system, opt_view(*hostname_var), opt_view(*computername_var)),
{
    let system = system_hostname();
    pick_hostname(system.as_str(), hostname_var, computername_var)
}

/// How an instance finds its peers.
#[derive(Clone, Copy, Debug, PartialEq, Eq, Structural)]
pub enum NetworkingMethod {
    PublicServer,
    Manual,
    Standalone,
}

/// The settings of a meshtier instance; every setting not named here keeps its default.
#[derive(Debug, PartialEq, Eq)]
pub struct MeshNetworkConfig {
    pub instance_id: Option<String>,
    pub dhcp: Option<bool>,
    pub virtual_ipv4: Option<String>,
    pub network_length: Option<i32>,
    pub hostname: Option<String>,
    pub network_name: Option<String>,
    pub network_secret: Option<String>,
    pub networking_method: Option<NetworkingMethod>,
    pub peer_urls: Vec<String>,
    pub listener_urls: Vec<String>,
    pub latency_first: Option<bool>,
    pub bind_device: Option<bool>,
    pub multi_thread: Option<bool>,
    pub disable_encryption: Option<bool>,
}

/// The settings of the meshtier instance `instance_id`: DHCP on a /16, the given host name,
/// network name and secret, the public relay as its only peer, listeners for TCP and UDP on
/// port 11010 and WebSocket on 11011, latency first, bound to its device, multi-threaded,
/// without encryption.
pub fn default_mesh_network_config(
    instance_id: [u8; 16],
    network_name: &str,
    network_secret: &str,
    hostname: String,
) -> (r: MeshNetworkConfig)
    ensures
        opt_view(r.instance_id) == Some(uuid_hyphenated(instance_id@)),
        r.dhcp == Some(true),
        opt_view(r.virtual_ipv4) == Some(Seq::<char>::empty()),
        r.network_length == Some(16i32),
        opt_view(r.hostname) == Some(hostname@),
        opt_view(r.network_name) == Some(network_name@),
        opt_view(r.network_secret) == Some(network_secret@),
        r.networking_method == Some(NetworkingMethod::Manual),
        r.peer_urls.deep_view() == seq!["wss://et.icewhale.io"@],
        r.listener_urls.deep_view() == seq![
            "tcp://0.0.0.0:11010"@,
            "udp://0.0.0.0:11010"@,
            "ws://0.0.0.0:11011"@,
        ],
        r.latency_first == Some(true),
        r.bind_device == Some(true),
        r.multi_thread == Some(true),
        r.disable_encryption == Some(true),
{
    let mut peer_urls: Vec<String> = Vec::new();
    peer_urls.push(String::from_str("wss://et.icewhale.io"));
    let mut listener_urls: Vec<String> = Vec::new();
    listener_urls.push(String::from_str("tcp://0.0.0.0:11010"));
    listener_urls.push(String::from_str("udp://0.0.0.0:11010"));
    listener_urls.push(String::from_str("ws://0.0.0.0:11011"));
    assert(peer_urls.deep_view() =~= seq!["wss://et.icewhale.io"@]);
    assert(listener_urls.deep_view() =~= seq![
        "tcp://0.0.0.0:11010"@,
        "udp://0.0.0.0:11010"@,
        "ws://0.0.0.0:11011"@,
    ]);
    MeshNetworkConfig {
        instance_id: Some(uuid_to_text(instance_id)),
        dhcp: Some(true),
        virtual_ipv4: Some(String::new()),
        network_length: Some(16),
        hostname: Some(hostname),
        network_name: Some(String::from_str(network_name)),
        network_secret: Some(String::from_str(network_secret)),
        networking_method: Some(NetworkingMethod::Manual),
        peer_urls,
        listener_urls,
        latency_first: Some(true),
        bind_device: Some(true),
        multi_thread: Some(true),
        disable_encryption: Some(true),
    }
}

/// An answer with status 500 and the given message.
pub fn internal_error(message: String) -> (r: HttpError)
    ensures
        r.status == 500,
        r.message@ == message@,
{
    HttpError { status: 500, message }
}

/// The kinds of failure of a call to an EasyTier core.
#[derive(Clone, Copy, Debug, PartialEq, Eq, Structural)]
pub enum RpcErrorKind {
    Execution,
    Timeout,
    Other,
}

/// A failed call to an EasyTier core: the kind, and the failure as its `Debug` text.
pub fn convert_rpc_error(kind: RpcErrorKind, detail: String) -> (r: HttpError)
    ensures
        r.status == match kind {
            RpcErrorKind::Execution => 400u16,
            RpcErrorKind::Timeout => 504u16,
            RpcErrorKind::Other => 502u16,
        },
        r.message@ == detail@,
{
    let status: u16 = match kind {
        RpcErrorKind::Execution => 400,
        RpcErrorKind::Timeout => 504,
        RpcErrorKind::Other => 502,
    };
    HttpError { status, message: detail }
}

/// How a request to a remote EasyTier core failed.
#[derive(Debug, PartialEq, Eq)]
pub enum RemoteError {
    /// Storage failed; the answer it maps to.
    Persistent(HttpError),
    /// The call failed.
    Rpc(RpcErrorKind, String),
    ClientNotFound,
    NotFound(String),
    Other(String),
}

/// The answer for a failed request to a remote EasyTier core.
pub fn convert_remote_error(err: RemoteError) -> (r: HttpError)
    ensures
        match err {
            RemoteError::Persistent(e) => r.status == e.status && r.message@ == e.message@,
            RemoteError::Rpc(kind, detail) => r.status == match kind {
                RpcErrorKind::Execution => 400u16,
                RpcErrorKind::Timeout => 504u16,
                RpcErrorKind::Other => 502u16,
            } && r.message@ == detail@,
            RemoteError::ClientNotFound => r.status == 404 && r.message@
                == "EasyTier client not found"@,
            RemoteError::NotFound(m) => r.status == 404 && r.message@ == m@,
            RemoteError::Other(m) => r.status == 500 && r.message@ == m@,
        },
{
    match err {
        RemoteError::Persistent(e) => e,
        RemoteError::Rpc(kind, detail) => convert_rpc_error(kind, detail),
        RemoteError::ClientNotFound => HttpError {
            status: 404,
            message: String::from_str("EasyTier client not found"),
        },
        RemoteError::NotFound(m) => HttpError { status: 404, message: m },
        RemoteError::Other(m) => HttpError { status: 500, message: m },
    }
}

/// The ZeroTier service's base URL: the configured text, or `http://localhost/` where none
/// is set, as the `url` crate parses it; an answer with status 500 where it does not parse.
pub fn parse_zerotier_base_url(configured: &Option<String>) -> (r: Result<String, HttpError>)
    ensures
        ({
            let raw = match *configured {
                Some(c) => c@,
                None => "http://localhost/"@,
            };
            match url_parse_spec(raw) {
                Ok(u) => r matches Ok(x) && x@ == u,
                Err(e) => r matches Err(h) && h.status == 500 && h.message@
                    == "Invalid ZEROTIER_SERVICE_URL: "@ + e,
            }
        }),
{
    let parsed = match configured {
        Some(c) => parse_url(c.as_str()),
        None => parse_url("http://localhost/"),
    };
    match parsed {
        Ok(u) => Ok(u),
        Err(e) => {
            let mut m = String::from_str("Invalid ZEROTIER_SERVICE_URL: ");
            m.append(e.as_str());
            Err(internal_error(m))
        },
    }
}

/// The URL of a ZeroTier service endpoint: `path`, without its leading slashes, joined to the
/// base URL.
pub fn zerotier_api_url(base_url: &str, path: &str) -> (r: Result<String, String>)
    ensures
        match url_join_spec(base_url@, drop_leading(path@, '/')) {
            Ok(u) => r matches Ok(x) && x@ == u,
            Err(e) => r matches Err(m) && m@ == "invalid zerotier api url: "@ + e,
        },
{
    let rel = trim_start_char(path, '/');
    match url_join(base_url, rel.as_str()) {
        Ok(u) => Ok(u),
        Err(e) => {
            let mut m = String::from_str("invalid zerotier api url: ");
            m.append(e.as_str());
            Err(m)
        },
    }
}

/// The handlers of the default network routes.
#[derive(Debug)]
pub struct NetworkDefaultApi;

impl NetworkDefaultApi {
    /// The id of the logged-in user; an answer with status 401 when no user is logged in.
    pub fn get_user_id(user_id: Option<i32>) -> (r: Result<i32, HttpError>)
        ensures
            match user_id {
                Some(id) => r == Ok::<i32, HttpError>(id),
                None => r matches Err(e) && e.status == 401 && e.message@ == "No user id found"@,
            },
    {
        match user_id {
            Some(id) => Ok(id),
            None => Err(HttpError { status: 401, message: String::from_str("No user id found") }),
        }
    }
}
} // verus!
