//! Peer URIs with internationalised host names, put to ASCII.

use vstd::prelude::*;
use vstd::string::*;

use crate::text::eq_str;
use crate::urls::{
    host_ascii_spec, host_to_ascii, url_host, url_host_spec, url_set_host_spec, url_with_host,
};

verus! {

/// A peer URI with its host put to ASCII: a URI without a host, or with an empty one, stays as
/// it is; otherwise its host is percent-decoded and put to ASCII by IDNA, and where that
/// changes it, the URI takes the new host. The conversion fails where the host or the new URI
/// is refused.
pub open spec fn idn_ascii_spec(uri: Seq<char>) -> Result<Seq<char>, Seq<char>> {
    match url_host_spec(uri) {
        None => Ok(uri),
        Some(h) => if h.len() == 0 {
            Ok(uri)
        } else {
            match host_ascii_spec(h) {
                Err(e) => Err(e),
                Ok(a) => if a == h {
                    Ok(uri)
                } else {
                    url_set_host_spec(uri, a)
                },
            }
        },
    }
}

/// A peer URI with its host put to ASCII.
pub fn convert_idn_to_ascii(uri: &str) -> (r: Result<String, String>)
    ensures
        r is Ok ==> idn_ascii_spec(uri@) == Ok::<Seq<char>, Seq<char>>(r->Ok_0@),
        r is Err ==> idn_ascii_spec(uri@) == Err::<Seq<char>, Seq<char>>(r->Err_0@),
{
    match url_host(uri) {
        None => Ok(String::from_str(uri)),
        Some(h) => {
            if h.as_str().is_empty() {
                return Ok(String::from_str(uri));
            }
            match host_to_ascii(h.as_str()) {
                Err(e) => Err(e),
                Ok(a) => {
                    if eq_str(a.as_str(), h.as_str()) {
                        Ok(String::from_str(uri))
                    } else {
                        url_with_host(uri, a.as_str())
                    }
                },
            }
        },
    }
}

} // verus!
