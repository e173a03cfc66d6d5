//! Peer references: direct targets and nested peer lists, and the text format of peer lists.

use vstd::prelude::*;
use vstd::string::*;

use crate::text::{
    chars_of, eq_str, lemma_prefix_until_at, lemma_replace_first_absent,
    lemma_replace_first_at_start, occurs_at, prefix_until, replace_first, replace_first_str,
    split_on, str_prefix_until, string_of_range, trim, trim_str,
};
use crate::idn::{convert_idn_to_ascii, idn_ascii_spec};
use crate::urls::{parse_url, url_file_path, url_file_path_spec, url_parse_spec};

verus! {

/// How deep peer lists may nest inside one another.
pub const MAX_DISCOVERY_DEPTH: usize = 8;

/// A configured peer: its URI (a URL serialization) and an optional public key.
#[derive(Debug, PartialEq, Eq)]
pub struct PeerConfig {
    pub uri: String,
    pub peer_public_key: Option<String>,
}

pub struct PeerConfigView {
    pub uri: Seq<char>,
    pub peer_public_key: Option<Seq<char>>,
}

impl View for PeerConfig {
    type V = PeerConfigView;

    open spec fn view(&self) -> PeerConfigView {
        PeerConfigView { uri: self.uri@, peer_public_key: self.peer_public_key.deep_view() }
    }
}

impl DeepView for PeerConfig {
    type V = PeerConfigView;

    open spec fn deep_view(&self) -> PeerConfigView {
        self@
    }
}

pub fn clone_opt_string(o: &Option<String>) -> (r: Option<String>)
    ensures
        r.deep_view() == o.deep_view(),
{
    match o {
        Some(s) => Some(s.clone()),
        None => None,
    }
}

impl Clone for PeerConfig {
    fn clone(&self) -> (r: Self)
        ensures
            r@ == self@,
    {
        PeerConfig { uri: self.uri.clone(), peer_public_key: clone_opt_string(&self.peer_public_key) }
    }
}

impl PeerConfig {
    /// A peer without a public key, whose URI is what the URL parser makes of `uri`.
    pub fn parse(uri: &str) -> (r: Option<PeerConfig>)
        ensures
            r matches Some(p) ==> url_parse_spec(uri@) == Ok::<Seq<char>, Seq<char>>(p@.uri)
                && p@.peer_public_key is None,
            r is None <==> url_parse_spec(uri@) is Err,
    {
        match parse_url(uri) {
            Ok(u) => Some(PeerConfig { uri: u, peer_public_key: None }),
            Err(_) => None,
        }
    }
}

/// The scheme of a URL serialization: what stands before its first `:`.
pub open spec fn scheme_of(uri: Seq<char>) -> Seq<char> {
    prefix_until(uri, ':')
}

/// Whether the cache policy of a list keeps its last good result on disk.
#[derive(Debug, Clone, Copy, PartialEq, Eq, Structural)]
pub enum PeerListCachePolicy {
    Disabled,
    DynamicFile,
}

impl Default for PeerListCachePolicy {
    fn default() -> (r: Self)
        ensures
            r == PeerListCachePolicy::Disabled,
    {
        PeerListCachePolicy::Disabled
    }
}

#[derive(Debug, Clone, Copy, PartialEq, Eq, Structural)]
pub struct PeerListPolicy {
    pub cache: PeerListCachePolicy,
}

impl Default for PeerListPolicy {
    fn default() -> (r: Self)
        ensures
            r.cache == PeerListCachePolicy::Disabled,
    {
        PeerListPolicy { cache: PeerListCachePolicy::Disabled }
    }
}

/// A direct peer to connect to.
#[derive(Debug, PartialEq, Eq)]
pub struct PeerTarget {
    peer: PeerConfig,
}

impl View for PeerTarget {
    type V = PeerConfigView;

    closed spec fn view(&self) -> PeerConfigView {
        self.peer@
    }
}

impl DeepView for PeerTarget {
    type V = PeerConfigView;

    open spec fn deep_view(&self) -> PeerConfigView {
        self@
    }
}

impl Clone for PeerTarget {
    fn clone(&self) -> (r: Self)
        ensures
            r@ == self@,
    {
        PeerTarget { peer: self.peer.clone() }
    }
}

impl PeerTarget {
    pub fn peer(&self) -> (r: &PeerConfig)
        ensures
            r@ == self@,
    {
        &self.peer
    }

    pub fn into_peer(self) -> (r: PeerConfig)
        ensures
            r@ == self@,
    {
        self.peer
    }
}

/// The built-in list of well-known peers.
#[derive(Debug, PartialEq, Eq)]
pub struct BuiltinPeerList {
    peer: PeerConfig,
}

/// A peer list read from a local file.
#[derive(Debug, PartialEq, Eq)]
pub struct FilePeerList {
    peer: PeerConfig,
    path: String,
}

/// A peer list fetched over HTTP(S).
#[derive(Debug, PartialEq, Eq)]
pub struct HttpPeerList {
    peer: PeerConfig,
    target: String,
}

/// The kinds of peer list.
#[derive(Debug, PartialEq, Eq)]
pub enum PeerListSource {
    Builtin(BuiltinPeerList),
    File(FilePeerList),
    Http(HttpPeerList),
}

pub enum PeerListSourceView {
    Builtin { peer: PeerConfigView },
    File { peer: PeerConfigView, path: Seq<char> },
    Http { peer: PeerConfigView, target: Seq<char> },
}

impl PeerListSourceView {
    pub open spec fn peer(self) -> PeerConfigView {
        match self {
            PeerListSourceView::Builtin { peer } => peer,
            PeerListSourceView::File { peer, .. } => peer,
            PeerListSourceView::Http { peer, .. } => peer,
        }
    }

    /// Seconds between refreshes: none for the built-in list, 30 for files, 300 for HTTP.
    pub open spec fn refresh_interval(self) -> Option<u64> {
        match self {
            PeerListSourceView::Builtin { .. } => None,
            PeerListSourceView::File { .. } => Some(30),
            PeerListSourceView::Http { .. } => Some(300),
        }
    }
}

impl View for BuiltinPeerList {
    type V = PeerListSourceView;

    closed spec fn view(&self) -> PeerListSourceView {
        PeerListSourceView::Builtin { peer: self.peer@ }
    }
}

impl View for FilePeerList {
    type V = PeerListSourceView;

    closed spec fn view(&self) -> PeerListSourceView {
        PeerListSourceView::File { peer: self.peer@, path: self.path@ }
    }
}

impl View for HttpPeerList {
    type V = PeerListSourceView;

    closed spec fn view(&self) -> PeerListSourceView {
        PeerListSourceView::Http { peer: self.peer@, target: self.target@ }
    }
}

impl View for PeerListSource {
    type V = PeerListSourceView;

    open spec fn view(&self) -> PeerListSourceView {
        match self {
            PeerListSource::Builtin(l) => l@,
            PeerListSource::File(l) => l@,
            PeerListSource::Http(l) => l@,
        }
    }
}

impl Clone for PeerListSource {
    fn clone(&self) -> (r: Self)
        ensures
            r@ == self@,
    {
        match self {
            PeerListSource::Builtin(l) => PeerListSource::Builtin(
                BuiltinPeerList { peer: l.peer.clone() },
            ),
            PeerListSource::File(l) => PeerListSource::File(
                FilePeerList { peer: l.peer.clone(), path: l.path.clone() },
            ),
            PeerListSource::Http(l) => PeerListSource::Http(
                HttpPeerList { peer: l.peer.clone(), target: l.target.clone() },
            ),
        }
    }
}

/// A reference to a peer list together with its cache policy.
#[derive(Debug, PartialEq, Eq)]
pub struct PeerListRef {
    inner: PeerListSource,
    policy: PeerListPolicy,
}

pub struct PeerListRefView {
    pub source: PeerListSourceView,
    pub cache: PeerListCachePolicy,
}

impl PeerListRefView {
    pub open spec fn peer(self) -> PeerConfigView {
        self.source.peer()
    }

    /// The key under which a list is scheduled, visited and cached: its URI.
    pub open spec fn source_key(self) -> Seq<char> {
        self.source.peer().uri
    }
}

impl View for PeerListRef {
    type V = PeerListRefView;

    closed spec fn view(&self) -> PeerListRefView {
        PeerListRefView { source: self.inner@, cache: self.policy.cache }
    }
}

impl DeepView for PeerListRef {
    type V = PeerListRefView;

    open spec fn deep_view(&self) -> PeerListRefView {
        self@
    }
}

impl Clone for PeerListRef {
    fn clone(&self) -> (r: Self)
        ensures
            r@ == self@,
    {
        PeerListRef { inner: self.inner.clone(), policy: self.policy }
    }
}

/// A peer reference: a direct target or a list of further references.
#[derive(Debug, PartialEq, Eq)]
pub enum PeerRef {
    Target(PeerTarget),
    List(PeerListRef),
}

pub enum PeerRefView {
    Target(PeerConfigView),
    List(PeerListRefView),
}

impl PeerRefView {
    pub open spec fn peer(self) -> PeerConfigView {
        match self {
            PeerRefView::Target(p) => p,
            PeerRefView::List(l) => l.peer(),
        }
    }

    pub open spec fn key(self) -> Seq<char> {
        self.peer().uri
    }
}

impl View for PeerRef {
    type V = PeerRefView;

    open spec fn view(&self) -> PeerRefView {
        match self {
            PeerRef::Target(t) => PeerRefView::Target(t@),
            PeerRef::List(l) => PeerRefView::List(l@),
        }
    }
}

impl DeepView for PeerRef {
    type V = PeerRefView;

    open spec fn deep_view(&self) -> PeerRefView {
        self@
    }
}

impl Clone for PeerRef {
    fn clone(&self) -> (r: Self)
        ensures
            r@ == self@,
    {
        match self {
            PeerRef::Target(t) => PeerRef::Target(t.clone()),
            PeerRef::List(l) => PeerRef::List(l.clone()),
        }
    }
}

/// Errors of peer discovery.
#[derive(Debug, PartialEq, Eq)]
pub enum DiscoveryError {
    /// A URI that cannot serve as a peer or peer list, or a list that yields nothing.
    InvalidUrl(String),
    /// Lists nested deeper than `MAX_DISCOVERY_DEPTH`.
    NestingTooDeep,
    /// A list whose content could not be read, with the reader's message.
    Unavailable(String),
}

pub enum DiscoveryErrorView {
    InvalidUrl(Seq<char>),
    NestingTooDeep,
    Unavailable(Seq<char>),
}

impl View for DiscoveryError {
    type V = DiscoveryErrorView;

    open spec fn view(&self) -> DiscoveryErrorView {
        match self {
            DiscoveryError::InvalidUrl(m) => DiscoveryErrorView::InvalidUrl(m@),
            DiscoveryError::NestingTooDeep => DiscoveryErrorView::NestingTooDeep,
            DiscoveryError::Unavailable(m) => DiscoveryErrorView::Unavailable(m@),
        }
    }
}

/// The view of a result whose error is a `DiscoveryError`.
pub open spec fn res_view<T: DeepView>(r: Result<T, DiscoveryError>) -> Result<
    T::V,
    DiscoveryErrorView,
> {
    match r {
        Ok(t) => Ok(t.deep_view()),
        Err(e) => Err(e@),
    }
}

/// The answer of an HTTP peer list server is used only with a success status (200 to 299);
/// any other status makes the list fail with the status and the list's URL.
pub fn check_list_response(status: u16, url: &str) -> (r: Result<(), DiscoveryError>)
    ensures
        200 <= status < 300 ==> r is Ok,
        !(200 <= status < 300) ==> (r matches Err(e) && e@ == DiscoveryErrorView::InvalidUrl(
            "unexpected peer list response: status "@ + crate::num::dec_nat(status as nat)
                + ", url "@ + url@,
        )),
{
    if 200 <= status && status < 300 {
        return Ok(());
    }
    let mut m = String::from_str("unexpected peer list response: status ");
    crate::num::push_dec_u64(&mut m, status as u64);
    m.append(", url ");
    m.append(url);
    Err(DiscoveryError::InvalidUrl(m))
}

/// What `BuiltinPeerList::try_from_peer` makes of `peer`.
pub open spec fn builtin_source_spec(peer: PeerConfigView) -> Option<PeerListSourceView> {
    if scheme_of(peer.uri) == "builtin"@ {
        Some(PeerListSourceView::Builtin { peer })
    } else {
        None
    }
}

/// The URL a `peerlist+file` URI points at.
pub open spec fn file_target_text(uri: Seq<char>) -> Seq<char> {
    replace_first(uri, "peerlist+file://"@, "file://"@)
}

/// What `FilePeerList::try_from_peer` makes of `peer`.
pub open spec fn file_source_spec(peer: PeerConfigView) -> Result<
    Option<PeerListSourceView>,
    DiscoveryErrorView,
> {
    if scheme_of(peer.uri) != "peerlist+file"@ {
        Ok(None)
    } else {
        match url_parse_spec(file_target_text(peer.uri)) {
            Err(_) => Err(
                DiscoveryErrorView::InvalidUrl("invalid peer list file url: "@ + peer.uri),
            ),
            Ok(t) => match url_file_path_spec(t) {
                None => Err(
                    DiscoveryErrorView::InvalidUrl("invalid peer list file path: "@ + peer.uri),
                ),
                Some(p) => Ok(Some(PeerListSourceView::File { peer, path: p })),
            },
        }
    }
}

/// The URL a `peerlist+http` or `peerlist+https` URI points at.
pub open spec fn http_target_text(uri: Seq<char>) -> Seq<char> {
    replace_first(
        replace_first(uri, "peerlist+http://"@, "http://"@),
        "peerlist+https://"@,
        "https://"@,
    )
}

/// What `HttpPeerList::try_from_peer` makes of `peer`.
pub open spec fn http_source_spec(peer: PeerConfigView) -> Result<
    Option<PeerListSourceView>,
    DiscoveryErrorView,
> {
    if scheme_of(peer.uri) != "peerlist+http"@ && scheme_of(peer.uri) != "peerlist+https"@ {
        Ok(None)
    } else {
        match url_parse_spec(http_target_text(peer.uri)) {
            Err(_) => Err(
                DiscoveryErrorView::InvalidUrl("invalid peer list http url: "@ + peer.uri),
            ),
            Ok(t) => Ok(Some(PeerListSourceView::Http { peer, target: t })),
        }
    }
}

/// A `peerlist+http://` peer names a list fetched over plain HTTP: only the `peerlist+`
/// prefix is dropped, so the list's target is the URL `http://` followed by the rest of the
/// URI, and the reference made of the peer is that list, cached on disk. Where that URL does
/// not parse, the peer is refused with its URI. (A rest that holds `peerlist+https://` is
/// left out: that later text is rewritten too.)
pub proof fn law_http_list_keeps_http(peer: PeerConfigView, rest: Seq<char>)
    requires
        peer.uri == "peerlist+http://"@ + rest,
        forall|i: int| !#[trigger] occurs_at(rest, "peerlist+https://"@, i),
    ensures
        http_source_spec(peer) == match url_parse_spec("http://"@ + rest) {
            Ok(t) => Ok(Some(PeerListSourceView::Http { peer, target: t })),
            Err(_) => Err(DiscoveryErrorView::InvalidUrl("invalid peer list http url: "@ + peer.uri)),
        },
        build_peer_ref_spec(peer) == match url_parse_spec("http://"@ + rest) {
            Ok(t) => Ok(
                Some(
                    PeerRefView::List(
                        PeerListRefView {
                            source: PeerListSourceView::Http { peer, target: t },
                            cache: PeerListCachePolicy::DynamicFile,
                        },
                    ),
                ),
            ),
            Err(_) => Err(DiscoveryErrorView::InvalidUrl("invalid peer list http url: "@ + peer.uri)),
        },
{
    reveal_strlit("peerlist+http://");
    reveal_strlit("peerlist+https://");
    reveal_strlit("peerlist+http");
    reveal_strlit("peerlist+https");
    reveal_strlit("peerlist+file");
    reveal_strlit("builtin");
    reveal_strlit("http://");
    let uri = peer.uri;
    let ph = "peerlist+https://"@;
    assert(uri =~= "peerlist+http"@ + seq![':'] + ("//"@ + rest)) by {
        reveal_strlit("//");
    };
    lemma_prefix_until_at("peerlist+http"@, "//"@ + rest, ':');
    assert(scheme_of(uri) == "peerlist+http"@);
    assert(scheme_of(uri) != "peerlist+https"@);
    assert(scheme_of(uri) != "builtin"@);
    assert("peerlist+http"@[9] != "peerlist+file"@[9]);
    assert(scheme_of(uri) != "peerlist+file"@);
    lemma_replace_first_at_start(rest, "peerlist+http://"@, "http://"@);
    let step = "http://"@ + rest;
    assert forall|j: int| !#[trigger] occurs_at(step, ph, j) by {
        if occurs_at(step, ph, j) {
            let w = step.subrange(j, j + ph.len());
            assert(w[0] == ph[0] && w[1] == ph[1]);
            if j >= 7 {
                assert(rest.subrange(j - 7, j - 7 + ph.len()) =~= w);
                assert(occurs_at(rest, ph, j - 7));
            } else {
                assert(step[j] == 'p' && step[j + 1] == 'e');
            }
        }
    };
    lemma_replace_first_absent(step, ph, "https://"@);
    assert(http_target_text(uri) == step);
}

/// A `peerlist+https://` peer names a list fetched over HTTPS: the list's target is the URL
/// `https://` followed by the rest of the URI, and the reference made of the peer is that
/// list, cached on disk. Where that URL does not parse, the peer is refused with its URI.
/// (A URI that holds `peerlist+http://` is left out: that text is rewritten first.)
pub proof fn law_https_list_keeps_https(peer: PeerConfigView, rest: Seq<char>)
    requires
        peer.uri == "peerlist+https://"@ + rest,
        forall|i: int| !#[trigger] occurs_at(peer.uri, "peerlist+http://"@, i),
    ensures
        http_source_spec(peer) == match url_parse_spec("https://"@ + rest) {
            Ok(t) => Ok(Some(PeerListSourceView::Http { peer, target: t })),
            Err(_) => Err(DiscoveryErrorView::InvalidUrl("invalid peer list http url: "@ + peer.uri)),
        },
        build_peer_ref_spec(peer) == match url_parse_spec("https://"@ + rest) {
            Ok(t) => Ok(
                Some(
                    PeerRefView::List(
                        PeerListRefView {
                            source: PeerListSourceView::Http { peer, target: t },
                            cache: PeerListCachePolicy::DynamicFile,
                        },
                    ),
                ),
            ),
            Err(_) => Err(DiscoveryErrorView::InvalidUrl("invalid peer list http url: "@ + peer.uri)),
        },
{
    reveal_strlit("peerlist+http://");
    reveal_strlit("peerlist+https://");
    reveal_strlit("peerlist+http");
    reveal_strlit("peerlist+https");
    reveal_strlit("peerlist+file");
    reveal_strlit("builtin");
    let uri = peer.uri;
    assert(uri =~= "peerlist+https"@ + seq![':'] + ("//"@ + rest)) by {
        reveal_strlit("//");
    };
    lemma_prefix_until_at("peerlist+https"@, "//"@ + rest, ':');
    assert(scheme_of(uri) == "peerlist+https"@);
    assert(scheme_of(uri) != "peerlist+http"@);
    assert(scheme_of(uri) != "builtin"@);
    assert(scheme_of(uri) != "peerlist+file"@);
    lemma_replace_first_absent(uri, "peerlist+http://"@, "http://"@);
    lemma_replace_first_at_start(rest, "peerlist+https://"@, "https://"@);
    assert(http_target_text(uri) == "https://"@ + rest);
}

/// A `peerlist+file://` peer names a list read from a file: only the `peerlist+` prefix is
/// dropped, so the list's path is that of the URL `file://` followed by the rest of the URI,
/// and the reference made of the peer is that list, not cached. Where that URL does not parse
/// or has no file path, the peer is refused with its URI.
pub proof fn law_file_list_path(peer: PeerConfigView, rest: Seq<char>)
    requires
        peer.uri == "peerlist+file://"@ + rest,
    ensures
        build_peer_ref_spec(peer) == match url_parse_spec("file://"@ + rest) {
            Ok(t) => match url_file_path_spec(t) {
                Some(path) => Ok(
                    Some(
                        PeerRefView::List(
                            PeerListRefView {
                                source: PeerListSourceView::File { peer, path },
                                cache: PeerListCachePolicy::Disabled,
                            },
                        ),
                    ),
                ),
                None => Err(
                    DiscoveryErrorView::InvalidUrl("invalid peer list file path: "@ + peer.uri),
                ),
            },
            Err(_) => Err(DiscoveryErrorView::InvalidUrl("invalid peer list file url: "@ + peer.uri)),
        },
{
    reveal_strlit("peerlist+file://");
    reveal_strlit("peerlist+file");
    reveal_strlit("builtin");
    let uri = peer.uri;
    assert(uri =~= "peerlist+file"@ + seq![':'] + ("//"@ + rest)) by {
        reveal_strlit("//");
    };
    lemma_prefix_until_at("peerlist+file"@, "//"@ + rest, ':');
    assert(scheme_of(uri) == "peerlist+file"@);
    assert(scheme_of(uri) != "builtin"@);
    lemma_replace_first_at_start(rest, "peerlist+file://"@, "file://"@);
    assert(file_target_text(uri) == "file://"@ + rest);
}

/// A `builtin:` peer names the built-in list, which is not cached.
pub proof fn law_builtin_list(peer: PeerConfigView, rest: Seq<char>)
    requires
        peer.uri == "builtin:"@ + rest,
    ensures
        build_peer_ref_spec(peer) == Ok::<_, DiscoveryErrorView>(
            Some(
                PeerRefView::List(
                    PeerListRefView {
                        source: PeerListSourceView::Builtin { peer },
                        cache: PeerListCachePolicy::Disabled,
                    },
                ),
            ),
        ),
{
    reveal_strlit("builtin:");
    reveal_strlit("builtin");
    assert(peer.uri =~= "builtin"@ + seq![':'] + rest);
    lemma_prefix_until_at("builtin"@, rest, ':');
}

/// A peer whose scheme names no kind of peer list is no list: it stays a direct target.
pub proof fn law_other_scheme_is_target(peer: PeerConfigView)
    requires
        scheme_of(peer.uri) != "builtin"@,
        scheme_of(peer.uri) != "peerlist+file"@,
        scheme_of(peer.uri) != "peerlist+http"@,
        scheme_of(peer.uri) != "peerlist+https"@,
    ensures
        build_peer_ref_spec(peer) == Ok::<Option<PeerRefView>, DiscoveryErrorView>(None),
        match idn_ascii_spec(peer.uri) {
            Ok(u) => scheme_of(u) == scheme_of(peer.uri) ==> peer_ref_spec(peer) == Ok::<
                PeerRefView,
                DiscoveryErrorView,
            >(PeerRefView::Target(PeerConfigView { uri: u, peer_public_key: peer.peer_public_key })),
            Err(_) => true,
        },
{
}

/// What `try_build_peer_ref` makes of `peer`: a list reference for the list schemes, `None`
/// for any other scheme.
pub open spec fn build_peer_ref_spec(peer: PeerConfigView) -> Result<
    Option<PeerRefView>,
    DiscoveryErrorView,
> {
    match builtin_source_spec(peer) {
        Some(s) => Ok(
            Some(PeerRefView::List(PeerListRefView { source: s, cache: PeerListCachePolicy::Disabled })),
        ),
        None => match file_source_spec(peer) {
            Err(e) => Err(e),
            Ok(Some(s)) => Ok(
                Some(
                    PeerRefView::List(PeerListRefView { source: s, cache: PeerListCachePolicy::Disabled }),
                ),
            ),
            Ok(None) => match http_source_spec(peer) {
                Err(e) => Err(e),
                Ok(Some(s)) => Ok(
                    Some(
                        PeerRefView::List(
                            PeerListRefView { source: s, cache: PeerListCachePolicy::DynamicFile },
                        ),
                    ),
                ),
                Ok(None) => Ok(None),
            },
        },
    }
}

/// What `PeerRef::try_from_peer` makes of `peer`: its URI's host is first put to ASCII (an
/// error where that fails); then a list reference, or else a direct target, for the peer with
/// that URI.
pub open spec fn peer_ref_spec(peer: PeerConfigView) -> Result<PeerRefView, DiscoveryErrorView> {
    match idn_ascii_spec(peer.uri) {
        Err(e) => Err(DiscoveryErrorView::InvalidUrl("invalid peer host: "@ + e)),
        Ok(u) => {
            let normalized = PeerConfigView { uri: u, peer_public_key: peer.peer_public_key };
            match build_peer_ref_spec(normalized) {
                Err(e) => Err(e),
                Ok(Some(r)) => Ok(r),
                Ok(None) => Ok(PeerRefView::Target(normalized)),
            }
        },
    }
}

/// The scheme of a URL serialization.
pub fn uri_scheme(uri: &str) -> (r: String)
    ensures
        r@ == scheme_of(uri@),
{
    str_prefix_until(uri, ':')
}

fn message_with(prefix: &str, detail: &str) -> (r: String)
    ensures
        r@ == prefix@ + detail@,
{
    let mut m = String::from_str(prefix);
    m.append(detail);
    m
}

impl BuiltinPeerList {
    /// The list behind `builtin://default`.
    pub fn default_root() -> (r: Self)
        ensures
            r@ == (PeerListSourceView::Builtin {
                peer: PeerConfigView { uri: "builtin://default"@, peer_public_key: None },
            }),
    {
        BuiltinPeerList {
            peer: PeerConfig { uri: String::from_str("builtin://default"), peer_public_key: None },
        }
    }

    pub fn try_from_peer(peer: PeerConfig) -> (r: Option<Self>)
        ensures
            r matches Some(l) ==> builtin_source_spec(peer@) == Some(
                PeerListSource::Builtin(l)@,
            ),
            r is None ==> builtin_source_spec(peer@) is None,
    {
        let scheme = uri_scheme(peer.uri.as_str());
        if eq_str(scheme.as_str(), "builtin") {
            Some(BuiltinPeerList { peer })
        } else {
            None
        }
    }

    pub fn peer(&self) -> (r: &PeerConfig)
        ensures
            r@ == self@.peer(),
    {
        &self.peer
    }
}

impl FilePeerList {
    pub fn try_from_peer(peer: PeerConfig) -> (r: Result<Option<Self>, DiscoveryError>)
        ensures
            r matches Ok(Some(l)) ==> file_source_spec(peer@) == Ok::<_, DiscoveryErrorView>(
                Some(l@),
            ),
            r matches Ok(None) ==> file_source_spec(peer@) == Ok::<
                Option<PeerListSourceView>,
                DiscoveryErrorView,
            >(None),
            r matches Err(e) ==> file_source_spec(peer@) == Err::<
                Option<PeerListSourceView>,
                _,
            >(e@),
    {
        let scheme = uri_scheme(peer.uri.as_str());
        if !eq_str(scheme.as_str(), "peerlist+file") {
            return Ok(None);
        }
        let replaced = replace_first_str(peer.uri.as_str(), "peerlist+file://", "file://");
        let target = match parse_url(replaced.as_str()) {
            Ok(t) => t,
            Err(_) => {
                return Err(
                    DiscoveryError::InvalidUrl(
                        message_with("invalid peer list file url: ", peer.uri.as_str()),
                    ),
                )
            },
        };
        match url_file_path(target.as_str()) {
            Some(path) => Ok(Some(FilePeerList { peer, path })),
            None => Err(
                DiscoveryError::InvalidUrl(
                    message_with("invalid peer list file path: ", peer.uri.as_str()),
                ),
            ),
        }
    }

    pub fn peer(&self) -> (r: &PeerConfig)
        ensures
            r@ == self@.peer(),
    {
        &self.peer
    }

    /// The local path of the list file.
    pub fn path(&self) -> (r: &String)
        ensures
            (self@ matches PeerListSourceView::File { path, .. } && r@ == path),
    {
        &self.path
    }
}

impl HttpPeerList {
    pub fn try_from_peer(peer: PeerConfig) -> (r: Result<Option<Self>, DiscoveryError>)
        ensures
            r matches Ok(Some(l)) ==> http_source_spec(peer@) == Ok::<_, DiscoveryErrorView>(
                Some(l@),
            ),
            r matches Ok(None) ==> http_source_spec(peer@) == Ok::<
                Option<PeerListSourceView>,
                DiscoveryErrorView,
            >(None),
            r matches Err(e) ==> http_source_spec(peer@) == Err::<
                Option<PeerListSourceView>,
                _,
            >(e@),
    {
        let scheme = uri_scheme(peer.uri.as_str());
        if !eq_str(scheme.as_str(), "peerlist+http") && !eq_str(scheme.as_str(), "peerlist+https") {
            return Ok(None);
        }
        let step = replace_first_str(peer.uri.as_str(), "peerlist+http://", "http://");
        let replaced = replace_first_str(step.as_str(), "peerlist+https://", "https://");
        match parse_url(replaced.as_str()) {
            Ok(target) => Ok(Some(HttpPeerList { peer, target })),
            Err(_) => Err(
                DiscoveryError::InvalidUrl(
                    message_with("invalid peer list http url: ", peer.uri.as_str()),
                ),
            ),
        }
    }

    pub fn peer(&self) -> (r: &PeerConfig)
        ensures
            r@ == self@.peer(),
    {
        &self.peer
    }

    /// The HTTP(S) URL the list is fetched from.
    pub fn target(&self) -> (r: &String)
        ensures
            (self@ matches PeerListSourceView::Http { target, .. } && r@ == target),
    {
        &self.target
    }
}


impl PeerListRef {
    pub open spec fn default_builtin_spec() -> PeerListRefView {
        PeerListRefView {
            source: PeerListSourceView::Builtin {
                peer: PeerConfigView { uri: "builtin://default"@, peer_public_key: None },
            },
            cache: PeerListCachePolicy::Disabled,
        }
    }

    /// The reference to the built-in list, with caching disabled.
    pub fn default_builtin() -> (r: Self)
        ensures
            r@ == Self::default_builtin_spec(),
    {
        Self::new(PeerListSource::Builtin(BuiltinPeerList::default_root()))
    }

    /// A reference to `list` with the default policy, which disables caching.
    pub fn new(list: PeerListSource) -> (r: Self)
        ensures
            r@ == (PeerListRefView { source: list@, cache: PeerListCachePolicy::Disabled }),
    {
        Self::with_policy(list, PeerListPolicy::default())
    }

    pub fn with_policy(list: PeerListSource, policy: PeerListPolicy) -> (r: Self)
        ensures
            r@ == (PeerListRefView { source: list@, cache: policy.cache }),
    {
        PeerListRef { inner: list, policy }
    }

    pub fn peer(&self) -> (r: &PeerConfig)
        ensures
            r@ == self@.peer(),
    {
        match &self.inner {
            PeerListSource::Builtin(l) => l.peer(),
            PeerListSource::File(l) => l.peer(),
            PeerListSource::Http(l) => l.peer(),
        }
    }

    /// The list behind the reference.
    pub fn source(&self) -> (r: &PeerListSource)
        ensures
            r@ == self@.source,
    {
        &self.inner
    }

    /// Seconds between refreshes of the list, if it is refreshed.
    pub fn refresh_interval(&self) -> (r: Option<u64>)
        ensures
            r == self@.source.refresh_interval(),
    {
        match &self.inner {
            PeerListSource::Builtin(_) => None,
            PeerListSource::File(_) => Some(30),
            PeerListSource::Http(_) => Some(300),
        }
    }

    pub fn cache_policy(&self) -> (r: PeerListCachePolicy)
        ensures
            r == self@.cache,
    {
        self.policy.cache
    }

    pub fn source_key(&self) -> (r: String)
        ensures
            r@ == self@.source_key(),
    {
        self.peer().uri.clone()
    }

    /// The outcome of resolving the list, given what its source yielded: a list that yields no
    /// reference is an error.
    pub fn check_resolved(&self, discovered: Vec<PeerRef>) -> (r: Result<
        Vec<PeerRef>,
        DiscoveryError,
    >)
        ensures
            discovered@.len() == 0 ==> (r matches Err(e) && e@ == DiscoveryErrorView::InvalidUrl(
                "no valid peer refs found in list: "@ + self@.source_key(),
            )),
            discovered@.len() > 0 ==> r == Ok::<_, DiscoveryError>(discovered),
    {
        if discovered.len() == 0 {
            return Err(
                DiscoveryError::InvalidUrl(
                    message_with("no valid peer refs found in list: ", self.peer().uri.as_str()),
                ),
            );
        }
        Ok(discovered)
    }

    /// The references of a list that needs no reading: the built-in list yields its fixed
    /// entries; the other lists yield `None`, as their content must be fetched.
    pub fn local_refs(&self) -> (r: Option<Vec<PeerRef>>)
        ensures
            (self@.source is Builtin) <==> r is Some,
            r matches Some(v) ==> v.deep_view() == parse_peer_refs_spec(builtin_text()),
    {
        match &self.inner {
            PeerListSource::Builtin(_) => Some(builtin_peer_refs()),
            _ => None,
        }
    }
}

/// The text of the built-in peer list.
pub closed spec fn builtin_text() -> Seq<char> {
    "wss://et.icewhale.io/"@
}

/// The references of the built-in peer list.
pub fn builtin_peer_refs() -> (r: Vec<PeerRef>)
    ensures
        r.deep_view() == parse_peer_refs_spec(builtin_text()),
{
    parse_peer_refs("wss://et.icewhale.io/")
}

impl PeerRef {
    pub fn peer(&self) -> (r: &PeerConfig)
        ensures
            r@ == self@.peer(),
    {
        match self {
            PeerRef::Target(t) => t.peer(),
            PeerRef::List(l) => l.peer(),
        }
    }

    /// The reference's URI, by which it is written to a list and deduplicated.
    pub fn key(&self) -> (r: String)
        ensures
            r@ == self@.key(),
    {
        self.peer().uri.clone()
    }

    /// The reference that a configured peer stands for.
    pub fn try_from_peer(peer: PeerConfig) -> (r: Result<PeerRef, DiscoveryError>)
        ensures
            res_view(r) == peer_ref_spec(peer@),
    {
        let uri = match convert_idn_to_ascii(peer.uri.as_str()) {
            Err(e) => {
                return Err(DiscoveryError::InvalidUrl(message_with("invalid peer host: ", e.as_str())));
            },
            Ok(u) => u,
        };
        let normalized = PeerConfig { uri, peer_public_key: peer.peer_public_key };
        match try_build_peer_ref(normalized.clone()) {
            Err(e) => Err(e),
            Ok(Some(r)) => Ok(r),
            Ok(None) => Ok(PeerRef::Target(PeerTarget { peer: normalized })),
        }
    }
}

/// A list reference for `peer` if its scheme names a kind of peer list, `None` otherwise.
pub fn try_build_peer_ref(peer: PeerConfig) -> (r: Result<Option<PeerRef>, DiscoveryError>)
    ensures
        res_view(r) == build_peer_ref_spec(peer@),
{
    if let Some(list) = BuiltinPeerList::try_from_peer(peer.clone()) {
        return Ok(Some(PeerRef::List(PeerListRef::new(PeerListSource::Builtin(list)))));
    }
    match FilePeerList::try_from_peer(peer.clone()) {
        Err(e) => {
            return Err(e);
        },
        Ok(Some(list)) => {
            return Ok(Some(PeerRef::List(PeerListRef::new(PeerListSource::File(list)))));
        },
        Ok(None) => {},
    }
    match HttpPeerList::try_from_peer(peer) {
        Err(e) => Err(e),
        Ok(Some(list)) => Ok(
            Some(
                PeerRef::List(
                    PeerListRef::with_policy(
                        PeerListSource::Http(list),
                        PeerListPolicy { cache: PeerListCachePolicy::DynamicFile },
                    ),
                ),
            ),
        ),
        Ok(None) => Ok(None),
    }
}

/// The reference on one line of a peer list: blank lines and lines starting with `#` hold
/// none, nor do lines that are not a URL or name an invalid list.
pub open spec fn line_peer_ref_spec(line: Seq<char>) -> Option<PeerRefView> {
    let t = trim(line);
    if t.len() == 0 || t[0] == '#' {
        None
    } else {
        match url_parse_spec(t) {
            Err(_) => None,
            Ok(u) => match peer_ref_spec(PeerConfigView { uri: u, peer_public_key: None }) {
                Ok(r) => Some(r),
                Err(_) => None,
            },
        }
    }
}

/// The references on the given lines, in order.
pub open spec fn refs_of_lines(lines: Seq<Seq<char>>) -> Seq<PeerRefView>
    decreases lines.len(),
{
    if lines.len() == 0 {
        Seq::empty()
    } else {
        let prev = refs_of_lines(lines.drop_last());
        match line_peer_ref_spec(lines.last()) {
            Some(r) => prev.push(r),
            None => prev,
        }
    }
}

/// The references a peer list text holds. Lines are cut at `\n`; a `\r` before it is
/// whitespace that trimming removes, so this agrees with `str::lines`.
pub open spec fn parse_peer_refs_spec(input: Seq<char>) -> Seq<PeerRefView> {
    refs_of_lines(split_on(input, '\n'))
}

/// The reference on one line of a peer list.
pub fn line_peer_ref(line: &str) -> (r: Option<PeerRef>)
    ensures
        r.deep_view() == line_peer_ref_spec(line@),
{
    let t = trim_str(line);
    let tv = chars_of(t.as_str());
    if tv.len() == 0 || tv[0] == '#' {
        return None;
    }
    match parse_url(t.as_str()) {
        Err(_) => None,
        Ok(u) => match PeerRef::try_from_peer(PeerConfig { uri: u, peer_public_key: None }) {
            Ok(r) => Some(r),
            Err(_) => None,
        },
    }
}

/// The references in a peer list text, one per line that holds one.
pub fn parse_peer_refs(input: &str) -> (r: Vec<PeerRef>)
    ensures
        r.deep_view() == parse_peer_refs_spec(input@),
{
    let v = chars_of(input);
    let n = v.len();
    let mut refs: Vec<PeerRef> = Vec::new();
    let mut start: usize = 0;
    let mut i: usize = 0;
    proof {
        assert(v@.subrange(0, 0) =~= Seq::<char>::empty());
        assert(split_on(Seq::<char>::empty(), '\n').drop_last() =~= Seq::<Seq<char>>::empty());
        assert(refs.deep_view() =~= Seq::<PeerRefView>::empty());
    }
    while i < n
        invariant
            v@ == input@,
            n == v.len(),
            start <= i <= n,
            refs.deep_view() == refs_of_lines(split_on(v@.subrange(0, i as int), '\n').drop_last()),
            split_on(v@.subrange(0, i as int), '\n').len() >= 1,
            split_on(v@.subrange(0, i as int), '\n').last() == v@.subrange(start as int, i as int),
        decreases n - i,
    {
        let ghost pre = v@.subrange(0, i as int);
        let ghost post = v@.subrange(0, i + 1);
        assert(post.drop_last() =~= pre);
        assert(post.last() == v@[i as int]);
        if v[i] == '\n' {
            let piece = string_of_range(&v, start, i);
            let ghost lines = split_on(pre, '\n');
            proof {
                assert(split_on(post, '\n') == lines.push(Seq::empty()));
                assert(split_on(post, '\n').drop_last() =~= lines);
            }
            let found = line_peer_ref(piece.as_str());
            match found {
                Some(r) => {
                    let ghost old_refs = refs.deep_view();
                    refs.push(r);
                    assert(refs.deep_view() =~= old_refs.push(r@));
                },
                None => {},
            }
            start = i + 1;
            assert(v@.subrange(start as int, i + 1) =~= Seq::<char>::empty());
        } else {
            proof {
                let lines = split_on(pre, '\n');
                assert(split_on(post, '\n') == lines.update(
                    lines.len() - 1,
                    lines.last().push(v@[i as int]),
                ));
                assert(split_on(post, '\n').drop_last() =~= lines.drop_last());
                assert(lines.last().push(v@[i as int]) =~= v@.subrange(start as int, i + 1));
            }
        }
        i = i + 1;
    }
    assert(v@.subrange(0, n as int) =~= v@);
    let piece = string_of_range(&v, start, n);
    let found = line_peer_ref(piece.as_str());
    match found {
        Some(r) => {
            let ghost old_refs = refs.deep_view();
            refs.push(r);
            assert(refs.deep_view() =~= old_refs.push(r@));
        },
        None => {},
    }
    refs
}

} // verus!
