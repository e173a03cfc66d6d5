//! Decimal and hexadecimal text for integers, with exact specifications.

use vstd::prelude::*;

verus! {

/// The digit character for `d < 16`, lower case past nine.
pub open spec fn digit_char(d: nat) -> char {
    if d < 10 {
        (d + 48) as char
    } else {
        (d + 87) as char
    }
}

/// Decimal digits of `n`, without leading zeros.
pub open spec fn dec_nat(n: nat) -> Seq<char>
    decreases n,
{
    if n < 10 {
        seq![digit_char(n)]
    } else {
        dec_nat(n / 10).push(digit_char(n % 10))
    }
}

/// Decimal text of `n`, as `Display` writes it.
pub open spec fn dec_int(n: int) -> Seq<char> {
    if n < 0 {
        seq!['-'] + dec_nat((-n) as nat)
    } else {
        dec_nat(n as nat)
    }
}

pub fn digit(d: u64) -> (c: char)
    requires
        d < 16,
    ensures
        c == digit_char(d as nat),
{
    if d < 10 {
        ((d as u8) + 48u8) as char
    } else {
        ((d as u8) + 87u8) as char
    }
}

/// Appends the decimal digits of `n` to `s`.
pub fn push_dec_u64(s: &mut String, n: u64)
    ensures
        final(s)@ == old(s)@ + dec_nat(n as nat),
    decreases n,
{
    if n >= 10 {
        push_dec_u64(s, n / 10);
    }
    s.push(digit(n % 10));
    proof {
        if n < 10 {
            assert(old(s)@ + dec_nat(n as nat) =~= old(s)@.push(digit_char(n as nat)));
        } else {
            assert(old(s)@ + dec_nat(n as nat) =~= (old(s)@ + dec_nat((n / 10) as nat)).push(
                digit_char((n % 10) as nat),
            ));
        }
    }
}

/// Appends the decimal text of `n` to `s`.
pub fn push_dec_i64(s: &mut String, n: i64)
    ensures
        final(s)@ == old(s)@ + dec_int(n as int),
{
    if n < 0 {
        s.push('-');
        let m: u64 = if n == i64::MIN {
            9223372036854775808u64
        } else {
            (-n) as u64
        };
        push_dec_u64(s, m);
        assert(old(s)@ + dec_int(n as int) =~= old(s)@.push('-') + dec_nat(m as nat));
    } else {
        push_dec_u64(s, n as u64);
    }
}

/// `char::to_digit(radix)`.
pub open spec fn char_digit(c: char, radix: nat) -> Option<nat> {
    let u = c as u32;
    let d: int = if 48 <= u <= 57 {
        u - 48
    } else if 97 <= u <= 122 {
        u - 87
    } else if 65 <= u <= 90 {
        u - 55
    } else {
        99
    };
    if d < radix {
        Some(d as nat)
    } else {
        None
    }
}

/// Whether every character of `s` is a digit in `radix`.
pub open spec fn all_digits(s: Seq<char>, radix: nat) -> bool {
    forall|i: int| 0 <= i < s.len() ==> (#[trigger] char_digit(s[i], radix)) is Some
}

/// The value of the digit string `s` in `radix`.
pub open spec fn digits_value(s: Seq<char>, radix: nat) -> nat
    decreases s.len(),
{
    if s.len() == 0 {
        0
    } else {
        digits_value(s.drop_last(), radix) * radix + match char_digit(s.last(), radix) {
            Some(d) => d,
            None => 0,
        }
    }
}

/// The digits of an unsigned number's text: one leading `+` is dropped.
pub open spec fn unsigned_body(s: Seq<char>) -> Seq<char> {
    if s.len() > 0 && s[0] == '+' {
        s.drop_first()
    } else {
        s
    }
}

/// `u64::from_str_radix(s, radix)`, `Ok` values only.
pub open spec fn parse_u64_spec(s: Seq<char>, radix: nat) -> Option<u64> {
    let d = unsigned_body(s);
    if d.len() > 0 && all_digits(d, radix) && digits_value(d, radix) <= u64::MAX {
        Some(digits_value(d, radix) as u64)
    } else {
        None
    }
}

proof fn lemma_digits_value_mono(s: Seq<char>, radix: nat, k: int)
    requires
        0 <= k <= s.len(),
        radix >= 1,
    ensures
        digits_value(s.subrange(0, k), radix) <= digits_value(s, radix),
    decreases s.len() - k,
{
    if k < s.len() {
        lemma_digits_value_mono(s, radix, k + 1);
        let t = s.subrange(0, k + 1);
        assert(t.drop_last() =~= s.subrange(0, k));
        assert(digits_value(t.drop_last(), radix) * radix >= digits_value(t.drop_last(), radix))
            by (nonlinear_arith)
            requires
                radix >= 1,
        ;
    } else {
        assert(s.subrange(0, k) =~= s);
    }
}

pub fn char_to_digit(c: char, radix: u32) -> (r: Option<u32>)
    requires
        2 <= radix <= 36,
    ensures
        r matches Some(d) ==> char_digit(c, radix as nat) == Some(d as nat),
        r is None ==> char_digit(c, radix as nat) is None,
{
    let u = c as u32;
    let d: u32 = if 48 <= u && u <= 57 {
        u - 48
    } else if 97 <= u && u <= 122 {
        u - 87
    } else if 65 <= u && u <= 90 {
        u - 55
    } else {
        99
    };
    if d < radix {
        Some(d)
    } else {
        None
    }
}

/// `u64::from_str_radix(s, radix).ok()`.
pub fn parse_u64_radix(s: &str, radix: u32) -> (r: Option<u64>)
    requires
        2 <= radix <= 36,
    ensures
        r == parse_u64_spec(s@, radix as nat),
{
    let v = crate::text::chars_of(s);
    let start: usize = if v.len() > 0 && v[0] == '+' {
        1
    } else {
        0
    };
    let ghost d = unsigned_body(s@);
    assert(d =~= v@.subrange(start as int, v.len() as int));
    if start >= v.len() {
        return None;
    }
    let mut acc: u64 = 0;
    let mut i: usize = start;
    while i < v.len()
        invariant
            v@ == s@,
            start <= i <= v.len(),
            d == v@.subrange(start as int, v.len() as int),
            d == unsigned_body(s@),
            2 <= radix <= 36,
            acc as nat == digits_value(v@.subrange(start as int, i as int), radix as nat),
            all_digits(v@.subrange(start as int, i as int), radix as nat),
        decreases v.len() - i,
    {
        let ghost pre = v@.subrange(start as int, i as int);
        let ghost post = v@.subrange(start as int, i + 1);
        assert(post.drop_last() =~= pre);
        match char_to_digit(v[i], radix) {
            None => {
                assert(char_digit(d[i - start], radix as nat) is None);
                assert(!all_digits(d, radix as nat));
                return None;
            },
            Some(dg) => {
                assert(post.last() == v@[i as int]);
                assert(digits_value(post, radix as nat) == acc * radix + dg);
                let m = acc.checked_mul(radix as u64);
                match m {
                    None => {
                        proof {
                            lemma_digits_value_mono(d, radix as nat, i + 1 - start);
                            assert(d.subrange(0, i + 1 - start) =~= post);
                            assert(digits_value(post, radix as nat) >= acc * radix) by (
                            nonlinear_arith)
                                requires
                                    digits_value(post, radix as nat) == acc * radix + dg,
                            ;
                        }
                        return None;
                    },
                    Some(m) => {
                        match m.checked_add(dg as u64) {
                            None => {
                                proof {
                                    lemma_digits_value_mono(d, radix as nat, i + 1 - start);
                                    assert(d.subrange(0, i + 1 - start) =~= post);
                                }
                                return None;
                            },
                            Some(a) => {
                                acc = a;
                                i = i + 1;
                                assert forall|k: int| 0 <= k < post.len() implies (#[trigger] char_digit(
                                    post[k],
                                    radix as nat,
                                )) is Some by {
                                    if k < pre.len() {
                                        assert(post[k] == pre[k]);
                                    }
                                };
                            },
                        }
                    },
                }
            },
        }
    }
    assert(v@.subrange(start as int, v.len() as int) == d);
    Some(acc)
}

/// Lower-case two-digit hexadecimal text of a byte.
pub open spec fn hex_byte(b: u8) -> Seq<char> {
    seq![digit_char((b / 16) as nat), digit_char((b % 16) as nat)]
}

/// Lower-case hexadecimal text of `bytes`, two digits per byte.
pub open spec fn hex_bytes(bytes: Seq<u8>) -> Seq<char>
    decreases bytes.len(),
{
    if bytes.len() == 0 {
        Seq::empty()
    } else {
        hex_bytes(bytes.drop_last()) + hex_byte(bytes.last())
    }
}

/// Appends the two lower-case hex digits of `b`.
pub fn push_hex_byte(s: &mut String, b: u8)
    ensures
        final(s)@ == old(s)@ + hex_byte(b),
{
    s.push(digit((b / 16) as u64));
    s.push(digit((b % 16) as u64));
    assert(final(s)@ =~= old(s)@ + hex_byte(b));
}

/// Lower-case hexadecimal text of `digest`, `{:02x}` per byte.
pub fn digest_hex(digest: &[u8]) -> (r: String)
    ensures
        r@ == hex_bytes(digest@),
        r@.len() == 2 * digest@.len(),
{
    let mut r = String::new();
    let mut i: usize = 0;
    while i < digest.len()
        invariant
            i <= digest@.len(),
            r@ == hex_bytes(digest@.subrange(0, i as int)),
            r@.len() == 2 * i,
        decreases digest.len() - i,
    {
        push_hex_byte(&mut r, digest[i]);
        i = i + 1;
        assert(digest@.subrange(0, i as int).drop_last() =~= digest@.subrange(0, i - 1));
    }
    assert(digest@.subrange(0, digest@.len() as int) =~= digest@);
    r
}


/// `i64::from_str(s)`, `Ok` values only: an optional sign, then decimal digits.
pub open spec fn parse_i64_spec(s: Seq<char>) -> Option<i64> {
    if s.len() > 0 && s[0] == '-' {
        let d = s.drop_first();
        if d.len() > 0 && all_digits(d, 10) && digits_value(d, 10) <= 0x8000_0000_0000_0000 {
            Some((-digits_value(d, 10)) as i64)
        } else {
            None
        }
    } else {
        match parse_u64_spec(s, 10) {
            Some(v) => if v <= i64::MAX {
                Some(v as i64)
            } else {
                None
            },
            None => None,
        }
    }
}

/// The decimal text of `n` is a non-empty string of decimal digits worth `n`.
pub proof fn lemma_dec_nat_digits(n: nat)
    ensures
        dec_nat(n).len() > 0,
        all_digits(dec_nat(n), 10),
        digits_value(dec_nat(n), 10) == n,
        dec_nat(n)[0] != '+',
        dec_nat(n)[0] != '-',
    decreases n,
{
    let s = dec_nat(n);
    let d = n % 10;
    assert(char_digit(digit_char(d), 10) == Some(d));
    if n < 10 {
        assert(s.drop_last() =~= Seq::<char>::empty());
        assert(digits_value(s, 10) == digits_value(s.drop_last(), 10) * 10 + d);
    } else {
        lemma_dec_nat_digits(n / 10);
        let t = dec_nat(n / 10);
        assert(s.drop_last() =~= t);
        assert(s.last() == digit_char(d));
        assert(digits_value(s, 10) == digits_value(t, 10) * 10 + d);
        assert((n / 10) * 10 + n % 10 == n) by (nonlinear_arith);
        assert(s[0] == t[0]);
        assert forall|i: int| 0 <= i < s.len() implies (#[trigger] char_digit(s[i], 10)) is Some by {
            if i < t.len() {
                assert(s[i] == t[i]);
            }
        };
    }
}

/// Parsing the decimal text of a `u64` gives it back.
pub proof fn law_u64_decimal_roundtrip(n: u64)
    ensures
        parse_u64_spec(dec_nat(n as nat), 10) == Some(n),
{
    lemma_dec_nat_digits(n as nat);
}

/// Parsing the decimal text of an `i64` gives it back.
pub proof fn law_i64_decimal_roundtrip(n: i64)
    ensures
        parse_i64_spec(dec_int(n as int)) == Some(n),
{
    if n < 0 {
        let m = (-n) as nat;
        lemma_dec_nat_digits(m);
        assert((seq!['-'] + dec_nat(m)).drop_first() =~= dec_nat(m));
    } else {
        lemma_dec_nat_digits(n as nat);
    }
}

/// `s.parse::<i64>().ok()`.
pub fn parse_i64(s: &str) -> (r: Option<i64>)
    ensures
        r == parse_i64_spec(s@),
{
    let v = crate::text::chars_of(s);
    if v.len() > 0 && v[0] == '-' {
        let rest = crate::text::string_of_range(&v, 1, v.len());
        assert(rest@ =~= s@.drop_first());
        if v.len() > 1 && v[1] == '+' {
            assert(rest@[0] == '+');
            assert(char_digit('+', 10) is None);
            assert(!all_digits(rest@, 10));
            return None;
        }
        match parse_u64_radix(rest.as_str(), 10) {
            Some(m) => {
                assert(unsigned_body(rest@) == rest@);
                if m <= 0x8000_0000_0000_0000u64 {
                    if m == 0x8000_0000_0000_0000u64 {
                        Some(i64::MIN)
                    } else {
                        Some(-(m as i64))
                    }
                } else {
                    None
                }
            },
            None => {
                assert(unsigned_body(rest@) == rest@);
                None
            },
        }
    } else {
        match parse_u64_radix(s, 10) {
            Some(m) => if m <= i64::MAX as u64 {
                Some(m as i64)
            } else {
                None
            },
            None => None,
        }
    }
}


/// Dotted-decimal text of the IPv4 address whose big-endian value is `addr`, as
/// `std::net::Ipv4Addr::from(addr)` displays it.
pub open spec fn ipv4_text(addr: u32) -> Seq<char> {
    dec_nat((addr / 0x100_0000) as nat) + seq!['.'] + dec_nat(((addr / 0x1_0000) % 256) as nat)
        + seq!['.'] + dec_nat(((addr / 0x100) % 256) as nat) + seq!['.'] + dec_nat(
        (addr % 256) as nat,
    )
}

/// The dotted-decimal text of an IPv4 address given by its big-endian value.
pub fn ipv4_to_text(addr: u32) -> (r: String)
    ensures
        r@ == ipv4_text(addr),
{
    let mut r = String::new();
    push_dec_u64(&mut r, (addr / 0x100_0000) as u64);
    r.push('.');
    push_dec_u64(&mut r, ((addr / 0x1_0000) % 256) as u64);
    r.push('.');
    push_dec_u64(&mut r, ((addr / 0x100) % 256) as u64);
    r.push('.');
    push_dec_u64(&mut r, (addr % 256) as u64);
    assert(r@ =~= ipv4_text(addr));
    r
}
} // verus!
