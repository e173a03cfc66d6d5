//! The network of the default gateway: the gateway read from the routing table's text, and
//! the interface network that holds it.

use vstd::prelude::*;
use vstd::string::*;

use crate::num::{dec_nat, ipv4_text, ipv4_to_text, push_dec_u64};
use crate::text::{chars_of, is_whitespace, is_ws, matches_at, occurs_at, split_on, trim, trim_str};

verus! {

/// The words of `s`, as `str::split_whitespace` gives them: the longest runs of characters
/// that are not whitespace.
pub open spec fn ws_words(s: Seq<char>) -> Seq<Seq<char>>
    decreases s.len(),
{
    if s.len() == 0 {
        Seq::empty()
    } else {
        let prev = ws_words(s.drop_last());
        if is_ws(s.last()) {
            prev
        } else if s.len() >= 2 && !is_ws(s[s.len() - 2]) {
            prev.update(prev.len() - 1, prev.last().push(s.last()))
        } else {
            prev.push(seq![s.last()])
        }
    }
}

/// The words of `s`.
pub fn split_whitespace(s: &str) -> (r: Vec<String>)
    ensures
        r.deep_view() == ws_words(s@),
{
    let v = chars_of(s);
    let mut words: Vec<String> = Vec::new();
    let mut cur = String::new();
    let mut in_word = false;
    let mut i: usize = 0;
    while i < v.len()
        invariant
            v@ == s@,
            i <= v.len(),
            in_word == (i > 0 && !is_ws(v@[i - 1])),
            ws_words(v@.subrange(0, i as int)) == if in_word {
                words.deep_view().push(cur@)
            } else {
                words.deep_view()
            },
        decreases v.len() - i,
    {
        let c = v[i];
        let ghost pre = v@.subrange(0, i as int);
        let ghost post = v@.subrange(0, i + 1);
        assert(post.drop_last() =~= pre);
        assert(post.last() == c);
        if is_whitespace(c) {
            if in_word {
                let ghost before = words.deep_view();
                words.push(cur);
                assert(words.deep_view() =~= before.push(cur@));
                cur = String::new();
            }
            in_word = false;
        } else if in_word {
            assert(post[post.len() - 2] == v@[i - 1]);
            let ghost ws = words.deep_view();
            let ghost old_cur = cur@;
            cur.push(c);
            assert(ws.push(old_cur).update(ws.len() as int, old_cur.push(c)) =~= ws.push(cur@));
        } else {
            cur = String::new();
            cur.push(c);
            in_word = true;
            assert(cur@ =~= seq![c]);
        }
        i = i + 1;
    }
    assert(v@.subrange(0, v.len() as int) =~= v@);
    if in_word {
        let ghost before = words.deep_view();
        words.push(cur);
        assert(words.deep_view() =~= before.push(cur@));
    }
    words
}

/// The pieces of `s` between the copies of `c`, as `str::split(c)` gives them.
pub fn split_char(s: &str, c: char) -> (r: Vec<String>)
    ensures
        r.deep_view() == split_on(s@, c),
{
    let v = chars_of(s);
    let mut parts: Vec<String> = Vec::new();
    let mut cur = String::new();
    let mut i: usize = 0;
    while i < v.len()
        invariant
            v@ == s@,
            i <= v.len(),
            split_on(v@.subrange(0, i as int), c) == parts.deep_view().push(cur@),
        decreases v.len() - i,
    {
        let ghost pre = v@.subrange(0, i as int);
        let ghost post = v@.subrange(0, i + 1);
        assert(post.drop_last() =~= pre);
        let ghost ps = parts.deep_view();
        let ghost old_cur = cur@;
        if v[i] == c {
            parts.push(cur);
            cur = String::new();
            assert(parts.deep_view() =~= ps.push(old_cur));
            assert(ps.push(old_cur).push(Seq::empty()) =~= parts.deep_view().push(cur@));
        } else {
            cur.push(v[i]);
            assert(ps.push(old_cur).update(ps.len() as int, old_cur.push(v@[i as int])) =~= ps.push(
                cur@,
            ));
        }
        i = i + 1;
    }
    assert(v@.subrange(0, v.len() as int) =~= v@);
    let ghost ps = parts.deep_view();
    parts.push(cur);
    assert(parts.deep_view() =~= ps.push(cur@));
    parts
}

/// Whether `s` starts with `p`.
fn starts_with(s: &str, p: &str) -> (r: bool)
    ensures
        r == occurs_at(s@, p@, 0),
{
    let v = chars_of(s);
    let pv = chars_of(p);
    matches_at(&v, &pv, 0)
}

/// The gateway named on one line of `ip route show default`: the line, trimmed, starts with
/// `default via` and its third word is the gateway.
pub open spec fn via_gateway(line: Seq<char>) -> Option<Seq<char>> {
    let t = trim(line);
    if occurs_at(t, "default via"@, 0) && ws_words(t).len() > 2 {
        Some(ws_words(t)[2])
    } else {
        None
    }
}

/// The gateway of the first line that names one.
pub open spec fn first_via_gateway(lines: Seq<Seq<char>>) -> Option<Seq<char>>
    decreases lines.len(),
{
    if lines.len() == 0 {
        None
    } else {
        match first_via_gateway(lines.drop_last()) {
            Some(g) => Some(g),
            None => via_gateway(lines.last()),
        }
    }
}

/// The default gateway in the output of `ip route show default` (Linux); `None` where no line
/// names one.
pub fn linux_default_gateway(stdout: &str) -> (r: Option<String>)
    ensures
        r.deep_view() == first_via_gateway(split_on(stdout@, '\n')),
{
    let lines = split_char(stdout, '\n');
    let mut i: usize = 0;
    while i < lines.len()
        invariant
            i <= lines.len(),
            lines.deep_view() == split_on(stdout@, '\n'),
            first_via_gateway(lines.deep_view().subrange(0, i as int)) is None,
        decreases lines.len() - i,
    {
        let ghost pre = lines.deep_view().subrange(0, i as int);
        let ghost post = lines.deep_view().subrange(0, i + 1);
        assert(post.drop_last() =~= pre);
        assert(post.last() == lines[i as int]@);
        let t = trim_str(lines[i].as_str());
        if starts_with(t.as_str(), "default via") {
            let words = split_whitespace(t.as_str());
            if words.len() > 2 {
                let g = words[2].clone();
                proof {
                    lemma_first_some_stays(lines.deep_view(), i + 1);
                }
                return Some(g);
            }
        }
        i = i + 1;
    }
    assert(lines.deep_view().subrange(0, lines.len() as int) =~= lines.deep_view());
    None
}

proof fn lemma_first_some_stays(lines: Seq<Seq<char>>, n: int)
    requires
        0 <= n <= lines.len(),
        first_via_gateway(lines.subrange(0, n)) is Some,
    ensures
        first_via_gateway(lines) == first_via_gateway(lines.subrange(0, n)),
    decreases lines.len() - n,
{
    if n < lines.len() {
        assert(lines.subrange(0, n + 1).drop_last() =~= lines.subrange(0, n));
        lemma_first_some_stays(lines, n + 1);
    } else {
        assert(lines.subrange(0, n) =~= lines);
    }
}

/// The first line of `route -n get default` that, trimmed, starts with `gateway:`, trimmed.
pub open spec fn first_gateway_line(lines: Seq<Seq<char>>) -> Option<Seq<char>>
    decreases lines.len(),
{
    if lines.len() == 0 {
        None
    } else {
        match first_gateway_line(lines.drop_last()) {
            Some(g) => Some(g),
            None => if occurs_at(trim(lines.last()), "gateway:"@, 0) {
                Some(trim(lines.last()))
            } else {
                None
            },
        }
    }
}

/// The default gateway in the output of `route -n get default` (macOS): what follows the
/// first space of the first `gateway:` line, up to the next space.
pub open spec fn macos_gateway_spec(stdout: Seq<char>) -> Result<Seq<char>, Seq<char>> {
    match first_gateway_line(split_on(stdout, '\n')) {
        None => Err("gateway not found"@),
        Some(line) => if split_on(line, ' ').len() > 1 {
            Ok(split_on(line, ' ')[1])
        } else {
            Err("gateway does not ip"@)
        },
    }
}

proof fn lemma_first_line_stays(lines: Seq<Seq<char>>, n: int)
    requires
        0 <= n <= lines.len(),
        first_gateway_line(lines.subrange(0, n)) is Some,
    ensures
        first_gateway_line(lines) == first_gateway_line(lines.subrange(0, n)),
    decreases lines.len() - n,
{
    if n < lines.len() {
        assert(lines.subrange(0, n + 1).drop_last() =~= lines.subrange(0, n));
        lemma_first_line_stays(lines, n + 1);
    } else {
        assert(lines.subrange(0, n) =~= lines);
    }
}

/// The default gateway in the output of `route -n get default` (macOS).
pub fn macos_default_gateway(stdout: &str) -> (r: Result<String, String>)
    ensures
        match macos_gateway_spec(stdout@) {
            Ok(g) => r matches Ok(x) && x@ == g,
            Err(m) => r matches Err(x) && x@ == m,
        },
{
    let lines = split_char(stdout, '\n');
    let mut i: usize = 0;
    while i < lines.len()
        invariant
            i <= lines.len(),
            lines.deep_view() == split_on(stdout@, '\n'),
            first_gateway_line(lines.deep_view().subrange(0, i as int)) is None,
        decreases lines.len() - i,
    {
        let ghost pre = lines.deep_view().subrange(0, i as int);
        let ghost post = lines.deep_view().subrange(0, i + 1);
        assert(post.drop_last() =~= pre);
        assert(post.last() == lines[i as int]@);
        let t = trim_str(lines[i].as_str());
        if starts_with(t.as_str(), "gateway:") {
            proof {
                lemma_first_line_stays(lines.deep_view(), i + 1);
            }
            let parts = split_char(t.as_str(), ' ');
            if parts.len() > 1 {
                return Ok(parts[1].clone());
            }
            return Err(String::from_str("gateway does not ip"));
        }
        i = i + 1;
    }
    assert(lines.deep_view().subrange(0, lines.len() as int) =~= lines.deep_view());
    Err(String::from_str("gateway not found"))
}

/// A network of one of the machine's interfaces: IPv4 by address (big-endian) and prefix
/// length, or IPv6.
#[derive(Debug, PartialEq, Eq)]
pub enum IfaceNet {
    V4 { addr: u32, prefix: u8 },
    V6,
}

pub open spec fn pow2(n: nat) -> nat
    decreases n,
{
    if n == 0 {
        1
    } else {
        2 * pow2((n - 1) as nat)
    }
}

/// The size of an IPv4 network with the given prefix length.
pub open spec fn block_size(prefix: u8) -> nat {
    pow2((32 - prefix) as nat)
}

/// Whether an interface network holds the IPv4 address `ip`: an IPv4 network does when `ip`
/// agrees with its address on the first `prefix` bits (`Ipv4Network::contains`); an IPv6
/// network never does (`IpNetwork::contains`).
pub open spec fn net_contains(net: IfaceNet, ip: u32) -> bool {
    match net {
        IfaceNet::V4 { addr, prefix } => ip as nat / block_size(prefix) == addr as nat
            / block_size(prefix),
        IfaceNet::V6 => false,
    }
}

/// The first interface network that holds `ip`.
pub open spec fn first_containing(nets: Seq<IfaceNet>, ip: u32) -> Option<int>
    decreases nets.len(),
{
    if nets.len() == 0 {
        None
    } else {
        match first_containing(nets.drop_last(), ip) {
            Some(k) => Some(k),
            None => if net_contains(nets.last(), ip) {
                Some(nets.len() - 1)
            } else {
                None
            },
        }
    }
}

/// The network address of an IPv4 network: its address with the bits past the prefix
/// cleared (`Ipv4Network::network`).
pub open spec fn network_addr(addr: u32, prefix: u8) -> nat {
    (addr as nat / block_size(prefix)) * block_size(prefix)
}

/// The CIDR text of the first interface network that holds the gateway: its network
/// address, `/`, and its prefix length.
pub open spec fn default_cidr_spec(nets: Seq<IfaceNet>, gateway: u32) -> Option<Seq<char>> {
    match first_containing(nets, gateway) {
        Some(k) => match nets[k] {
            IfaceNet::V4 { addr, prefix } => Some(
                ipv4_text(network_addr(addr, prefix) as u32) + "/"@ + dec_nat(prefix as nat),
            ),
            IfaceNet::V6 => None,
        },
        None => None,
    }
}

pub open spec fn nets_valid(nets: Seq<IfaceNet>) -> bool {
    forall|i: int|
        0 <= i < nets.len() ==> match #[trigger] nets[i] {
            IfaceNet::V4 { addr, prefix } => prefix <= 32,
            IfaceNet::V6 => true,
        }
}

proof fn lemma_pow2_bound(n: nat)
    requires
        n <= 32,
    ensures
        1 <= pow2(n) <= pow2(32),
{
    lemma_pow2_pos(n);
    lemma_pow2_mono(n, 32);
}

proof fn lemma_pow2_32()
    ensures
        pow2(32) == 0x1_0000_0000,
{
    assert(pow2(4) == 16) by {
        reveal_with_fuel(pow2, 5);
    }
    assert(pow2(8) == 256) by {
        reveal_with_fuel(pow2, 5);
    }
    assert(pow2(12) == 4096) by {
        reveal_with_fuel(pow2, 5);
    }
    assert(pow2(16) == 0x1_0000) by {
        reveal_with_fuel(pow2, 5);
    }
    assert(pow2(20) == 0x10_0000) by {
        reveal_with_fuel(pow2, 5);
    }
    assert(pow2(24) == 0x100_0000) by {
        reveal_with_fuel(pow2, 5);
    }
    assert(pow2(28) == 0x1000_0000) by {
        reveal_with_fuel(pow2, 5);
    }
    assert(pow2(32) == 0x1_0000_0000) by {
        reveal_with_fuel(pow2, 5);
    }
}

proof fn lemma_pow2_pos(n: nat)
    ensures
        1 <= pow2(n),
    decreases n,
{
    if n > 0 {
        lemma_pow2_pos((n - 1) as nat);
    }
}

proof fn lemma_pow2_mono(n: nat, m: nat)
    requires
        n <= m,
    ensures
        pow2(n) <= pow2(m),
    decreases m,
{
    if n < m {
        lemma_pow2_mono(n, (m - 1) as nat);
        lemma_pow2_pos((m - 1) as nat);
    }
}

/// The size of an IPv4 network with the given prefix length.
fn network_block(prefix: u8) -> (r: u64)
    requires
        prefix <= 32,
    ensures
        r as nat == block_size(prefix),
        1 <= r <= 0x1_0000_0000,
{
    let mut r: u64 = 1;
    let mut k: u8 = 0;
    proof {
        lemma_pow2_32();
    }
    while k < 32 - prefix
        invariant
            prefix <= 32,
            k <= 32 - prefix,
            r as nat == pow2(k as nat),
            pow2(32) == 0x1_0000_0000,
        decreases 32 - prefix - k,
    {
        proof {
            lemma_pow2_bound((k + 1) as nat);
        }
        r = r * 2;
        k = k + 1;
    }
    proof {
        lemma_pow2_bound(k as nat);
    }
    r
}

proof fn lemma_first_containing_stays(nets: Seq<IfaceNet>, ip: u32, n: int)
    requires
        0 <= n <= nets.len(),
        first_containing(nets.subrange(0, n), ip) is Some,
    ensures
        first_containing(nets, ip) == first_containing(nets.subrange(0, n), ip),
    decreases nets.len() - n,
{
    if n < nets.len() {
        assert(nets.subrange(0, n + 1).drop_last() =~= nets.subrange(0, n));
        lemma_first_containing_stays(nets, ip, n + 1);
    } else {
        assert(nets.subrange(0, n) =~= nets);
    }
}

proof fn lemma_first_containing_facts(nets: Seq<IfaceNet>, ip: u32)
    ensures
        match first_containing(nets, ip) {
            Some(k) => 0 <= k < nets.len() && net_contains(nets[k], ip) && forall|j: int|
                0 <= j < k ==> !net_contains(#[trigger] nets[j], ip),
            None => forall|j: int| 0 <= j < nets.len() ==> !net_contains(#[trigger] nets[j], ip),
        },
    decreases nets.len(),
{
    if nets.len() > 0 {
        let d = nets.drop_last();
        lemma_first_containing_facts(d, ip);
        match first_containing(d, ip) {
            Some(k) => {
                assert(nets[k] == d[k]);
                assert forall|j: int| 0 <= j < k implies !net_contains(#[trigger] nets[j], ip) by {
                    assert(nets[j] == d[j]);
                };
            },
            None => {
                assert forall|j: int| 0 <= j < d.len() implies !net_contains(#[trigger] nets[j], ip) by {
                    assert(nets[j] == d[j]);
                };
            },
        }
    }
}

/// The default CIDR is that of the first interface network that holds the gateway, which
/// lies within it: the network address with its bits past the prefix cleared, `/`, and the
/// prefix length. There is none where no IPv4 interface network holds the gateway.
pub proof fn law_default_cidr_holds_gateway(nets: Seq<IfaceNet>, gateway: u32)
    requires
        nets_valid(nets),
    ensures
        match default_cidr_spec(nets, gateway) {
            Some(text) => exists|k: int|
                0 <= k < nets.len() && (#[trigger] nets[k] matches IfaceNet::V4 { addr, prefix }
                    && text == ipv4_text(network_addr(addr, prefix) as u32) + "/"@ + dec_nat(
                    prefix as nat,
                ) && network_addr(addr, prefix) <= gateway < network_addr(addr, prefix)
                    + block_size(prefix)) && forall|j: int|
                    0 <= j < k ==> !net_contains(#[trigger] nets[j], gateway),
            None => forall|j: int|
                0 <= j < nets.len() ==> !(#[trigger] nets[j] matches IfaceNet::V4 { addr, prefix }
                    && network_addr(addr, prefix) <= gateway < network_addr(addr, prefix)
                    + block_size(prefix)),
        },
{
    lemma_first_containing_facts(nets, gateway);
    assert forall|j: int| 0 <= j < nets.len() implies (#[trigger] nets[j] matches IfaceNet::V4 {
        addr,
        prefix,
    } ==> (net_contains(nets[j], gateway) <==> network_addr(addr, prefix) <= gateway
        < network_addr(addr, prefix) + block_size(prefix))) by {
        if let IfaceNet::V4 { addr, prefix } = nets[j] {
            let b = block_size(prefix);
            lemma_pow2_pos((32 - prefix) as nat);
            let g = gateway as nat;
            let q = addr as nat / b;
            assert(g == (g / b) * b + g % b && 0 <= g % b < b) by (nonlinear_arith)
                requires
                    b >= 1,
            ;
            if q * b <= g && g < q * b + b {
                assert(g / b == q) by (nonlinear_arith)
                    requires
                        b >= 1,
                        q * b <= g,
                        g < q * b + b,
                ;
            }
            if g / b == q {
                assert(q * b <= g < q * b + b) by (nonlinear_arith)
                    requires
                        b >= 1,
                        g / b == q,
                        g == (g / b) * b + g % b,
                        0 <= g % b < b,
                ;
            }
        }
    };
}

/// The CIDR text of the network of the default gateway, among the machine's interface
/// networks in the order they are listed; `None` where none holds it.
pub fn default_cidr(nets: &Vec<IfaceNet>, gateway: u32) -> (r: Option<String>)
    requires
        nets_valid(nets@),
    ensures
        r.deep_view() == default_cidr_spec(nets@, gateway),
{
    let mut i: usize = 0;
    while i < nets.len()
        invariant
            i <= nets.len(),
            nets_valid(nets@),
            first_containing(nets@.subrange(0, i as int), gateway) is None,
        decreases nets.len() - i,
    {
        let ghost pre = nets@.subrange(0, i as int);
        let ghost post = nets@.subrange(0, i + 1);
        assert(post.drop_last() =~= pre);
        assert(post.last() == nets@[i as int]);
        match &nets[i] {
            IfaceNet::V4 { addr, prefix } => {
                assert(*prefix <= 32);
                let block = network_block(*prefix);
                let a = *addr as u64;
                let g = gateway as u64;
                if g / block == a / block {
                    proof {
                        lemma_first_containing_stays(nets@, gateway, i + 1);
                    }
                    let q = a / block;
                    assert(q * block <= a) by (nonlinear_arith)
                        requires
                            q == a / block,
                            block >= 1,
                    ;
                    let net = q * block;
                    let mut text = ipv4_to_text(net as u32);
                    text.push('/');
                    push_dec_u64(&mut text, *prefix as u64);
                    proof {
                        reveal_strlit("/");
                    }
                    assert(text@ =~= ipv4_text(network_addr(*addr, *prefix) as u32) + "/"@
                        + dec_nat(*prefix as nat));
                    return Some(text);
                }
            },
            IfaceNet::V6 => {},
        }
        i = i + 1;
    }
    assert(nets@.subrange(0, nets.len() as int) =~= nets@);
    None
}

} // verus!
