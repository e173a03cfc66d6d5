//! The web console's servers: the config server's listener URLs, the kind of listener for
//! a URL, the outcome of starting them, and the script that tells the dashboard where its
//! API is.

use vstd::prelude::*;
use vstd::string::*;

use crate::discovery::{scheme_of, uri_scheme};
use crate::num::{dec_nat, digit_char, push_dec_u64};
use crate::text::{ascii_lower, eq_str, join, join_strings, trim, trim_str};
use crate::urls::{parse_url, url_parse_spec};

verus! {

/// The lower-case form that `str::to_lowercase` gives of `s`.
pub uninterp spec fn lowercase_spec(s: Seq<char>) -> Seq<char>;

/// `str::to_lowercase`: the Unicode lower-case mapping of `s`. The contract claims that the
/// outcome is a function of `s`, named `lowercase_spec`, and that text of ASCII characters
/// maps to its ASCII lower case (the Unicode lower-case mapping of an ASCII character is
/// `char::to_ascii_lowercase`).
#[verifier::external_body]
fn to_lowercase(s: &str) -> (r: String)
    ensures
        r@ == lowercase_spec(s@),
        vstd::utf8::is_ascii_chars(s@) ==> r@ == ascii_lower(s@),
{
    s.to_lowercase()
}

/// How serde_json writes one character of a string (`ser.rs`, the `ESCAPE` table and
/// `write_char_escape`): `"` and `\` and the control characters below U+0020 are escaped,
/// the last ones as `\b`, `\t`, `\n`, `\f`, `\r` or `\u00` and two lower-case hex digits;
/// every other character is written as it is.
pub open spec fn json_char_escape(c: char) -> Seq<char> {
    let u = c as u32;
    if c == '"' {
        seq!['\\', '"']
    } else if c == '\\' {
        seq!['\\', '\\']
    } else if u == 8 {
        seq!['\\', 'b']
    } else if u == 9 {
        seq!['\\', 't']
    } else if u == 10 {
        seq!['\\', 'n']
    } else if u == 12 {
        seq!['\\', 'f']
    } else if u == 13 {
        seq!['\\', 'r']
    } else if u < 32 {
        seq!['\\', 'u', '0', '0', digit_char((u / 16) as nat), digit_char((u % 16) as nat)]
    } else {
        seq![c]
    }
}

/// The characters of `s`, each as serde_json writes it.
pub open spec fn json_escaped(s: Seq<char>) -> Seq<char>
    decreases s.len(),
{
    if s.len() == 0 {
        Seq::empty()
    } else {
        json_escaped(s.drop_last()) + json_char_escape(s.last())
    }
}

/// The JSON text that `serde_json::to_string` writes for the string `s`: `s`, escaped, in
/// double quotes.
pub open spec fn json_string_spec(s: Seq<char>) -> Seq<char> {
    seq!['"'] + json_escaped(s) + seq!['"']
}

/// `serde_json::to_string` on a string. Writing a string cannot fail (the crate's
/// `Serializer::serialize_str`); the contract states the text it writes, `json_string_spec`.
#[verifier::external_body]
fn json_string(s: &str) -> (r: String)
    ensures
        r@ == json_string_spec(s@),
{
    serde_json::to_string(s).unwrap_or_default()
}

/// A listener URL that does not parse.
#[derive(Debug, PartialEq, Eq)]
pub enum ListenerError {
    InvalidUrl(String),
}

/// A protocol name in lower case: ASCII names by ASCII case, others by Unicode.
pub open spec fn protocol_lower(p: Seq<char>) -> Seq<char> {
    if vstd::utf8::is_ascii_chars(p) {
        ascii_lower(p)
    } else {
        lowercase_spec(p)
    }
}

/// The listener URLs tried for the config server, as text: both the IPv6 and the IPv4
/// wildcard for TCP and UDP, the IPv4 wildcard alone for any other protocol.
pub open spec fn listener_candidates(protocol: Seq<char>, port: u16) -> Seq<Seq<char>> {
    let p = protocol_lower(trim(protocol));
    let v4 = p + "://0.0.0.0:"@ + dec_nat(port as nat);
    if p == "tcp"@ || p == "udp"@ {
        seq![p + "://[::]:"@ + dec_nat(port as nat), v4]
    } else {
        seq![v4]
    }
}

/// The parsed listener URLs, or the first candidate that does not parse.
pub open spec fn listener_urls_spec(candidates: Seq<Seq<char>>) -> Result<Seq<Seq<char>>, Seq<char>>
    decreases candidates.len(),
{
    if candidates.len() == 0 {
        Ok(Seq::empty())
    } else {
        match listener_urls_spec(candidates.drop_last()) {
            Err(e) => Err(e),
            Ok(prev) => match url_parse_spec(candidates.last()) {
                Ok(u) => Ok(prev.push(u)),
                Err(_) => Err(candidates.last()),
            },
        }
    }
}

/// The URLs the config server listens on, for a protocol name and a port.
pub fn get_listener_urls(protocol: &str, port: u16) -> (r: Result<Vec<String>, ListenerError>)
    ensures
        match listener_urls_spec(listener_candidates(protocol@, port)) {
            Ok(urls) => r matches Ok(v) && v.deep_view() == urls,
            Err(bad) => r matches Err(ListenerError::InvalidUrl(u)) && u@ == bad,
        },
{
    let t = trim_str(protocol);
    let p = to_lowercase(t.as_str());
    let mut candidates: Vec<String> = Vec::new();
    let dual = eq_str(p.as_str(), "tcp") || eq_str(p.as_str(), "udp");
    if dual {
        let mut v6 = String::from_str(p.as_str());
        v6.append("://[::]:");
        push_dec_u64(&mut v6, port as u64);
        candidates.push(v6);
    }
    let mut v4 = String::from_str(p.as_str());
    v4.append("://0.0.0.0:");
    push_dec_u64(&mut v4, port as u64);
    candidates.push(v4);
    assert(candidates.deep_view() =~= listener_candidates(protocol@, port));
    let mut urls: Vec<String> = Vec::new();
    let mut i: usize = 0;
    assert(candidates.deep_view().subrange(0, 0) =~= Seq::<Seq<char>>::empty());
    assert(urls.deep_view() =~= Seq::<Seq<char>>::empty());
    while i < candidates.len()
        invariant
            i <= candidates.len(),
            candidates.deep_view() == listener_candidates(protocol@, port),
            listener_urls_spec(candidates.deep_view().subrange(0, i as int)) == Ok::<
                Seq<Seq<char>>,
                Seq<char>,
            >(urls.deep_view()),
        decreases candidates.len() - i,
    {
        let ghost pre = candidates.deep_view().subrange(0, i as int);
        let ghost post = candidates.deep_view().subrange(0, i + 1);
        assert(post.drop_last() =~= pre);
        assert(post.last() == candidates[i as int]@);
        match parse_url(candidates[i].as_str()) {
            Ok(u) => {
                let ghost before = urls.deep_view();
                urls.push(u);
                assert(urls.deep_view() =~= before.push(u@));
            },
            Err(_) => {
                proof {
                    assert(listener_urls_spec(post) == Err::<Seq<Seq<char>>, Seq<char>>(
                        candidates[i as int]@,
                    ));
                    lemma_listener_urls_err_stays(
                        candidates.deep_view(),
                        i + 1,
                        candidates[i as int]@,
                    );
                }
                return Err(ListenerError::InvalidUrl(candidates[i].clone()));
            },
        }
        i = i + 1;
    }
    assert(candidates.deep_view().subrange(0, candidates.len() as int) =~= candidates.deep_view());
    Ok(urls)
}

proof fn lemma_listener_urls_err_stays(c: Seq<Seq<char>>, n: int, bad: Seq<char>)
    requires
        0 <= n <= c.len(),
        listener_urls_spec(c.subrange(0, n)) == Err::<Seq<Seq<char>>, Seq<char>>(bad),
    ensures
        listener_urls_spec(c) == Err::<Seq<Seq<char>>, Seq<char>>(bad),
    decreases c.len() - n,
{
    if n < c.len() {
        assert(c.subrange(0, n + 1).drop_last() =~= c.subrange(0, n));
        lemma_listener_urls_err_stays(c, n + 1, bad);
    } else {
        assert(c.subrange(0, n) =~= c);
    }
}

/// The kinds of listener the config server runs.
#[derive(Clone, Copy, Debug, PartialEq, Eq, Structural)]
pub enum ListenerKind {
    Tcp,
    Udp,
    WebSocket,
}

/// The kind of listener for a URL, by its scheme; any scheme but `tcp`, `udp` and `ws` is an
/// invalid URL.
pub fn listener_kind(url: &str) -> (r: Result<ListenerKind, ListenerError>)
    ensures
        scheme_of(url@) == "tcp"@ ==> r == Ok::<ListenerKind, ListenerError>(ListenerKind::Tcp),
        scheme_of(url@) == "udp"@ ==> r == Ok::<ListenerKind, ListenerError>(ListenerKind::Udp),
        scheme_of(url@) == "ws"@ ==> r == Ok::<ListenerKind, ListenerError>(
            ListenerKind::WebSocket,
        ),
        !(scheme_of(url@) == "tcp"@ || scheme_of(url@) == "udp"@ || scheme_of(url@) == "ws"@)
            ==> (r matches Err(ListenerError::InvalidUrl(u)) && u@ == url@),
{
    proof {
        reveal_strlit("tcp");
        reveal_strlit("udp");
        reveal_strlit("ws");
        assert("tcp"@[0] != "udp"@[0] && "tcp"@[0] != "ws"@[0] && "udp"@[0] != "ws"@[0]);
    }
    let scheme = uri_scheme(url);
    if eq_str(scheme.as_str(), "tcp") {
        Ok(ListenerKind::Tcp)
    } else if eq_str(scheme.as_str(), "udp") {
        Ok(ListenerKind::Udp)
    } else if eq_str(scheme.as_str(), "ws") {
        Ok(ListenerKind::WebSocket)
    } else {
        Err(ListenerError::InvalidUrl(String::from_str(url)))
    }
}

/// The outcome of starting the config server's listeners: fine while at least one started;
/// else an error that lists each failure, separated by `; `.
pub fn config_listeners_outcome(failures: &Vec<String>, started: usize) -> (r: Result<(), String>)
    ensures
        started > 0 ==> r is Ok,
        started == 0 ==> (r matches Err(m) && m@
            == "all config server listeners failed to start: "@ + join(
            failures.deep_view(),
            "; "@,
        )),
{
    if started > 0 {
        return Ok(());
    }
    let mut m = String::from_str("all config server listeners failed to start: ");
    let joined = join_strings(failures, "; ");
    m.append(joined.as_str());
    Err(m)
}

/// The script that tells the dashboard its API host: the configured host, as JSON, or the
/// page's own origin when none is configured (so that it works behind a gateway prefix).
pub fn api_meta_script(api_host: &Option<String>) -> (r: String)
    ensures
        r@ == match *api_host {
            Some(h) => "window.apiMeta = "@ + "{\"api_host\":"@ + json_string_spec(h@) + "}"@,
            None => "window.apiMeta = { api_host: window.location.origin }"@,
        },
{
    match api_host {
        Some(h) => {
            let mut r = String::from_str("window.apiMeta = ");
            r.append("{\"api_host\":");
            let j = json_string(h.as_str());
            r.append(j.as_str());
            r.append("}");
            r
        },
        None => String::from_str("window.apiMeta = { api_host: window.location.origin }"),
    }
}

} // verus!
