//! The calls into the `url` crate.

use vstd::prelude::*;

verus! {

/// The serialization (`Url::as_str`) of what `url::Url::parse` makes of `input`, or the text
/// of the `ParseError` with which it refuses the input.
pub uninterp spec fn url_parse_spec(input: Seq<char>) -> Result<Seq<char>, Seq<char>>;

/// Calls `url::Url::parse` (which `str::parse::<url::Url>` calls) and hands back the parsed
/// URL's serialization, or the text of the error. The contract claims only that the outcome
/// is a function of the input, named `url_parse_spec`; nothing is stated of what the
/// serialization holds.
#[verifier::external_body]
pub fn parse_url(input: &str) -> (r: Result<String, String>)
    ensures
        r is Ok ==> url_parse_spec(input@) == Ok::<Seq<char>, Seq<char>>(r->Ok_0@),
        r is Err ==> url_parse_spec(input@) == Err::<Seq<char>, Seq<char>>(r->Err_0@),
{
    match url::Url::parse(input) {
        Ok(u) => Ok(u.as_str().to_string()),
        Err(e) => Err(e.to_string()),
    }
}

/// The file path that `url::Url::to_file_path` gives for the URL serialized as `url`, on the
/// target the library is built for; `None` where the URL does not parse or names no local path.
pub uninterp spec fn url_file_path_spec(url: Seq<char>) -> Option<Seq<char>>;

/// Calls `url::Url::to_file_path` on the URL serialized as `url` and hands back the path as
/// text. The contract claims only that the outcome is a function of `url`, named
/// `url_file_path_spec`.
#[verifier::external_body]
pub fn url_file_path(url: &str) -> (r: Option<String>)
    ensures
        r.deep_view() == url_file_path_spec(url@),
{
    url::Url::parse(url).ok().and_then(|u| u.to_file_path().ok()).map(
        |p| p.to_string_lossy().into_owned(),
    )
}


/// The serialization of what `url::Url::join` makes of `input` against the URL serialized as
/// `base`, or the text of the error with which parsing refuses it.
pub uninterp spec fn url_join_spec(base: Seq<char>, input: Seq<char>) -> Result<Seq<char>, Seq<char>>;

/// Calls `url::Url::join` with `input` on the URL serialized as `base` (parsed back with
/// `url::Url::parse`) and hands back the joined URL's serialization, or the text of the
/// error. The contract claims only that the outcome is a function of the two texts, named
/// `url_join_spec`.
#[verifier::external_body]
pub fn url_join(base: &str, input: &str) -> (r: Result<String, String>)
    ensures
        r is Ok ==> url_join_spec(base@, input@) == Ok::<Seq<char>, Seq<char>>(r->Ok_0@),
        r is Err ==> url_join_spec(base@, input@) == Err::<Seq<char>, Seq<char>>(r->Err_0@),
{
    match url::Url::parse(base).and_then(|b| b.join(input)) {
        Ok(u) => Ok(u.as_str().to_string()),
        Err(e) => Err(e.to_string()),
    }
}

} // verus!

verus! {

/// The Unix timestamp, in seconds, of the instant `value` names as an RFC 3339 date-time;
/// `None` where `chrono` refuses it.
pub uninterp spec fn rfc3339_timestamp_spec(value: Seq<char>) -> Option<i64>;

/// Calls `chrono::DateTime::parse_from_rfc3339` and takes the `timestamp` of the instant. The
/// contract claims that the outcome is a function of `value`, and that a timestamp lies within
/// 2^44 seconds of the epoch: `chrono` only represents years -262143 to 262142.
#[verifier::external_body]
pub fn rfc3339_timestamp(value: &str) -> (r: Option<i64>)
    ensures
        r == rfc3339_timestamp_spec(value@),
        r matches Some(t) ==> -0x1000_0000_0000 < t < 0x1000_0000_0000,
{
    chrono::DateTime::parse_from_rfc3339(value).ok().map(
        |v| v.with_timezone(&chrono::Utc).timestamp(),
    )
}

} // verus!

verus! {

/// The host of the URL serialized as `uri`, as `url::Url::host_str` gives it (an opaque host
/// percent-encoded); `None` where the URL does not parse or has no host.
pub uninterp spec fn url_host_spec(uri: Seq<char>) -> Option<Seq<char>>;

/// Calls `url::Url::host_str` on the URL serialized as `uri` (parsed back with
/// `url::Url::parse`). The contract claims only that the outcome is a function of `uri`,
/// named `url_host_spec`.
#[verifier::external_body]
pub fn url_host(uri: &str) -> (r: Option<String>)
    ensures
        r.deep_view() == url_host_spec(uri@),
{
    url::Url::parse(uri).ok().and_then(|u| u.host_str().map(|h| h.to_string()))
}

/// What `url::Host::parse` makes of a host text, written back with `Display`: the host
/// percent-decoded and put to ASCII by IDNA (an IP address in its usual form), or the text of
/// the error with which it refuses the host.
pub uninterp spec fn host_ascii_spec(host: Seq<char>) -> Result<Seq<char>, Seq<char>>;

/// Calls `url::Host::parse` (`host.rs`: percent-decoding, then `idna::domain_to_ascii`) and
/// writes the host back as text. The contract claims only that the outcome is a function of
/// `host`, named `host_ascii_spec`.
#[verifier::external_body]
pub fn host_to_ascii(host: &str) -> (r: Result<String, String>)
    ensures
        r is Ok ==> host_ascii_spec(host@) == Ok::<Seq<char>, Seq<char>>(r->Ok_0@),
        r is Err ==> host_ascii_spec(host@) == Err::<Seq<char>, Seq<char>>(r->Err_0@),
{
    match url::Host::parse(host) {
        Ok(h) => Ok(h.to_string()),
        Err(e) => Err(e.to_string()),
    }
}

/// The serialization of the URL serialized as `uri` once `url::Url::set_host` gave it the
/// host `host`, or the text of the error with which it refuses.
pub uninterp spec fn url_set_host_spec(uri: Seq<char>, host: Seq<char>) -> Result<Seq<char>, Seq<char>>;

/// Calls `url::Url::set_host(Some(host))` on the URL serialized as `uri` (parsed back with
/// `url::Url::parse`) and hands back the new serialization, or the text of the error. The
/// contract claims only that the outcome is a function of the two texts, named
/// `url_set_host_spec`.
#[verifier::external_body]
pub fn url_with_host(uri: &str, host: &str) -> (r: Result<String, String>)
    ensures
        r is Ok ==> url_set_host_spec(uri@, host@) == Ok::<Seq<char>, Seq<char>>(r->Ok_0@),
        r is Err ==> url_set_host_spec(uri@, host@) == Err::<Seq<char>, Seq<char>>(r->Err_0@),
{
    match url::Url::parse(uri) {
        Ok(mut u) => match u.set_host(Some(host)) {
            Ok(()) => Ok(u.as_str().to_string()),
            Err(e) => Err(e.to_string()),
        },
        Err(e) => Err(e.to_string()),
    }
}

} // verus!
