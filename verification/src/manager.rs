//! The decisions of peer discovery: walking nested peer lists, falling back to cached
//! references, and deduplicating the targets to connect to.

use vstd::prelude::*;

use vstd::string::*;

use crate::discovery::{
    line_peer_ref_spec, parse_peer_refs, parse_peer_refs_spec, peer_ref_spec, refs_of_lines,
    DiscoveryError, DiscoveryErrorView, PeerConfig, PeerConfigView, PeerListCachePolicy,
    PeerListRef, PeerListRefView, PeerRef, PeerRefView, PeerTarget, MAX_DISCOVERY_DEPTH,
};
use crate::text::{join, lemma_split_join};

verus! {

/// What a walk over peer references asks for next.
#[derive(Debug)]
pub enum WalkStep {
    /// Resolve this list, found at this depth, and hand the outcome to `supply`.
    Resolve(PeerListRef, usize),
    /// Every reference has been expanded; `into_targets` gives the targets.
    Done,
    /// A list nests deeper than `MAX_DISCOVERY_DEPTH`.
    Failed(DiscoveryError),
}

pub enum WalkStepView {
    Resolve(PeerListRefView, nat),
    Done,
    Failed(DiscoveryErrorView),
}

impl View for WalkStep {
    type V = WalkStepView;

    open spec fn view(&self) -> WalkStepView {
        match self {
            WalkStep::Resolve(l, d) => WalkStepView::Resolve(l@, *d as nat),
            WalkStep::Done => WalkStepView::Done,
            WalkStep::Failed(e) => WalkStepView::Failed(e@),
        }
    }
}

/// The state of a depth-first walk from one peer reference: the references still to expand
/// with their depths (the last is expanded next), the source keys of the lists already
/// expanded, the targets found so far, and the depth of the list awaiting its resolution.
pub struct DiscoveryWalk {
    stack: Vec<(PeerRef, usize)>,
    visited: Vec<String>,
    resolved: Vec<PeerTarget>,
    pending: Option<usize>,
}

pub struct WalkView {
    pub stack: Seq<(PeerRefView, nat)>,
    pub visited: Seq<Seq<char>>,
    pub resolved: Seq<PeerConfigView>,
    pub pending: Option<nat>,
}

pub open spec fn stack_view(s: Seq<(PeerRef, usize)>) -> Seq<(PeerRefView, nat)> {
    s.map_values(|e: (PeerRef, usize)| (e.0@, e.1 as nat))
}

impl View for DiscoveryWalk {
    type V = WalkView;

    closed spec fn view(&self) -> WalkView {
        WalkView {
            stack: stack_view(self.stack@),
            visited: self.visited.deep_view(),
            resolved: self.resolved.deep_view(),
            pending: match self.pending {
                Some(d) => Some(d as nat),
                None => None,
            },
        }
    }
}

/// Pops references off `stack` until one needs outside work: targets are collected, lists
/// already expanded are skipped, a list nested too deep fails the walk, and a new list is
/// marked visited and handed out for resolution. Gives the step and the state after it.
pub open spec fn advance(
    stack: Seq<(PeerRefView, nat)>,
    visited: Seq<Seq<char>>,
    resolved: Seq<PeerConfigView>,
) -> (WalkStepView, Seq<(PeerRefView, nat)>, Seq<Seq<char>>, Seq<PeerConfigView>)
    decreases stack.len(),
{
    if stack.len() == 0 {
        (WalkStepView::Done, stack, visited, resolved)
    } else {
        let (r, d) = stack.last();
        let rest = stack.drop_last();
        if d > MAX_DISCOVERY_DEPTH {
            (WalkStepView::Failed(DiscoveryErrorView::NestingTooDeep), rest, visited, resolved)
        } else {
            match r {
                PeerRefView::Target(p) => advance(rest, visited, resolved.push(p)),
                PeerRefView::List(l) => if visited.contains(l.source_key()) {
                    advance(rest, visited, resolved)
                } else {
                    (WalkStepView::Resolve(l, d), rest, visited.push(l.source_key()), resolved)
                },
            }
        }
    }
}

/// `children`, last first, each at `depth`: pushed in this order they pop in list order.
pub open spec fn children_frames(children: Seq<PeerRefView>, depth: nat) -> Seq<(PeerRefView, nat)> {
    Seq::new(children.len(), |i: int| (children[children.len() - 1 - i], depth))
}

pub proof fn lemma_advance_keeps_visited_distinct(
    stack: Seq<(PeerRefView, nat)>,
    visited: Seq<Seq<char>>,
    resolved: Seq<PeerConfigView>,
)
    requires
        visited.no_duplicates(),
    ensures
        advance(stack, visited, resolved).2.no_duplicates(),
        advance(stack, visited, resolved).0 is Resolve ==> advance(stack, visited, resolved).2
            =~= visited.push(advance(stack, visited, resolved).0->Resolve_0.source_key()),
        advance(stack, visited, resolved).0 is Resolve ==> !visited.contains(
            advance(stack, visited, resolved).0->Resolve_0.source_key(),
        ),
        !(advance(stack, visited, resolved).0 is Resolve) ==> advance(stack, visited, resolved).2
            == visited,
    decreases stack.len(),
{
    if stack.len() > 0 {
        let (r, d) = stack.last();
        let rest = stack.drop_last();
        if d <= MAX_DISCOVERY_DEPTH {
            match r {
                PeerRefView::Target(p) => {
                    lemma_advance_keeps_visited_distinct(rest, visited, resolved.push(p));
                },
                PeerRefView::List(l) => {
                    if visited.contains(l.source_key()) {
                        lemma_advance_keeps_visited_distinct(rest, visited, resolved);
                    } else {
                        assert forall|i: int, j: int|
                            0 <= i < j < visited.push(l.source_key()).len() implies visited.push(
                            l.source_key(),
                        )[i] != visited.push(l.source_key())[j] by {
                            if j == visited.len() {
                                assert(visited[i] == visited.push(l.source_key())[i]);
                            }
                        };
                    }
                },
            }
        }
    }
}

fn contains_key(keys: &Vec<String>, key: &String) -> (r: bool)
    ensures
        r == keys.deep_view().contains(key@),
{
    let mut i: usize = 0;
    while i < keys.len()
        invariant
            i <= keys.len(),
            forall|k: int| 0 <= k < i ==> keys.deep_view()[k] != key@,
        decreases keys.len() - i,
    {
        if keys[i] == *key {
            assert(keys.deep_view()[i as int] == key@);
            return true;
        }
        i = i + 1;
    }
    assert(!keys.deep_view().contains(key@)) by {
        if keys.deep_view().contains(key@) {
            let k = choose|k: int| 0 <= k < keys.deep_view().len() && keys.deep_view()[k] == key@;
            assert(keys.deep_view()[k] != key@);
        }
    };
    false
}

impl DiscoveryWalk {
    /// Whether the state is one a walk can be in: no list is expanded twice.
    pub closed spec fn wf(self) -> bool {
        self.visited.deep_view().no_duplicates()
    }

    /// A walk from `peer_ref`, at depth zero.
    pub fn new(peer_ref: PeerRef) -> (r: Self)
        ensures
            r.wf(),
            r@.stack == seq![(peer_ref@, 0nat)],
            r@.visited == Seq::<Seq<char>>::empty(),
            r@.resolved == Seq::<PeerConfigView>::empty(),
            r@.pending is None,
    {
        let mut stack: Vec<(PeerRef, usize)> = Vec::new();
        stack.push((peer_ref, 0));
        let r = DiscoveryWalk {
            stack,
            visited: Vec::new(),
            resolved: Vec::new(),
            pending: None,
        };
        assert(r@.stack =~= seq![(peer_ref@, 0nat)]);
        assert(r@.visited =~= Seq::<Seq<char>>::empty());
        assert(r@.resolved =~= Seq::<PeerConfigView>::empty());
        r
    }

    /// Expands references until a list must be resolved, the walk is done, or it fails.
    pub fn next_step(&mut self) -> (step: WalkStep)
        requires
            old(self).wf(),
            old(self)@.pending is None,
        ensures
            final(self).wf(),
            (step@, final(self)@.stack, final(self)@.visited, final(self)@.resolved) == advance(
                old(self)@.stack,
                old(self)@.visited,
                old(self)@.resolved,
            ),
            step@ matches WalkStepView::Resolve(_, d) ==> d <= MAX_DISCOVERY_DEPTH
                && final(self)@.pending == Some(d),
            !(step is Resolve) ==> final(self)@.pending is None,
    {
        proof {
            lemma_advance_keeps_visited_distinct(
                self@.stack,
                self@.visited,
                self@.resolved,
            );
        }
        loop
            invariant
                self@.pending is None,
                self.visited.deep_view().no_duplicates(),
                advance(self@.stack, self@.visited, self@.resolved) == advance(
                    old(self)@.stack,
                    old(self)@.visited,
                    old(self)@.resolved,
                ),
            decreases self.stack.len(),
        {
            let ghost st = self@;
            proof {
                lemma_advance_keeps_visited_distinct(st.stack, st.visited, st.resolved);
            }
            match self.stack.pop() {
                None => {
                    assert(st.stack.len() == 0);
                    return WalkStep::Done;
                },
                Some((r, depth)) => {
                    assert(stack_view(self.stack@) =~= st.stack.drop_last());
                    if depth > MAX_DISCOVERY_DEPTH {
                        return WalkStep::Failed(DiscoveryError::NestingTooDeep);
                    }
                    match r {
                        PeerRef::Target(t) => {
                            let ghost old_res = self.resolved.deep_view();
                            self.resolved.push(t);
                            assert(self.resolved.deep_view() =~= old_res.push(t@));
                        },
                        PeerRef::List(l) => {
                            let key = l.source_key();
                            if !contains_key(&self.visited, &key) {
                                let ghost old_vis = self.visited.deep_view();
                                self.visited.push(key);
                                assert(self.visited.deep_view() =~= old_vis.push(l@.source_key()));
                                self.pending = Some(depth);
                                return WalkStep::Resolve(l, depth);
                            }
                        },
                    }
                },
            }
        }
    }

    /// Hands in the outcome of resolving the list that `next_step` gave out. Its references
    /// are expanded next, one level deeper, in order; a failure ends the walk when the list is
    /// the walk's root and is skipped otherwise.
    pub fn supply(&mut self, outcome: Result<Vec<PeerRef>, DiscoveryError>) -> (r: Result<
        (),
        DiscoveryError,
    >)
        requires
            old(self).wf(),
            old(self)@.pending is Some,
            old(self)@.pending->0 <= MAX_DISCOVERY_DEPTH,
        ensures
            final(self).wf(),
            final(self)@.pending is None,
            final(self)@.visited == old(self)@.visited,
            final(self)@.resolved == old(self)@.resolved,
            match outcome {
                Ok(children) => r is Ok && final(self)@.stack == old(self)@.stack + children_frames(
                    children.deep_view(),
                    old(self)@.pending->0 + 1,
                ),
                Err(e) => final(self)@.stack == old(self)@.stack && (if old(self)@.pending->0 == 0 {
                    r == Err::<(), DiscoveryError>(e)
                } else {
                    r is Ok
                }),
            },
    {
        let depth = match self.pending {
            Some(d) => d,
            None => 0,
        };
        self.pending = None;
        match outcome {
            Ok(children) => {
                let ghost frames = children_frames(children.deep_view(), (depth + 1) as nat);
                let ghost base = stack_view(self.stack@);
                let mut children = children;
                let n = children.len();
                let mut k: usize = 0;
                while k < n
                    invariant
                        k <= n,
                        children@.len() == n - k,
                        frames.len() == n,
                        depth < MAX_DISCOVERY_DEPTH + 1,
                        forall|i: int| 0 <= i < children@.len() ==> frames[n - 1 - i] == (
                            #[trigger] children@[i]@,
                            (depth + 1) as nat,
                        ),
                        stack_view(self.stack@) == base + frames.subrange(0, k as int),
                        self.pending is None,
                        self.visited.deep_view() == old(self).visited.deep_view(),
                        self.resolved.deep_view() == old(self).resolved.deep_view(),
                        old(self).visited.deep_view().no_duplicates(),
                    decreases n - k,
                {
                    let c = children.pop().unwrap();
                    let ghost before = stack_view(self.stack@);
                    self.stack.push((c, depth + 1));
                    k = k + 1;
                    assert(stack_view(self.stack@) =~= before.push((c@, (depth + 1) as nat)));
                    assert(frames.subrange(0, k as int) =~= frames.subrange(0, k - 1).push(
                        frames[k - 1],
                    ));
                }
                assert(frames.subrange(0, n as int) =~= frames);
                Ok(())
            },
            Err(e) => {
                if depth == 0 {
                    Err(e)
                } else {
                    Ok(())
                }
            },
        }
    }

    /// The targets the walk has found, in the order it found them.
    pub fn into_targets(self) -> (r: Vec<PeerTarget>)
        ensures
            r.deep_view() == self@.resolved,
    {
        self.resolved
    }
}



/// Which references a list resolution yields: the freshly resolved ones, or on failure the
/// cached ones when there are any, or else the failure.
pub fn choose_list_refs(
    resolved: Result<Vec<PeerRef>, DiscoveryError>,
    cached: Option<Vec<PeerRef>>,
) -> (r: Result<Vec<PeerRef>, DiscoveryError>)
    ensures
        match resolved {
            Ok(d) => r == Ok::<Vec<PeerRef>, DiscoveryError>(d),
            Err(e) => match cached {
                Some(c) => r == Ok::<Vec<PeerRef>, DiscoveryError>(c),
                None => r == Err::<Vec<PeerRef>, DiscoveryError>(e),
            },
        },
{
    match resolved {
        Ok(d) => Ok(d),
        Err(e) => match cached {
            Some(c) => Ok(c),
            None => Err(e),
        },
    }
}

/// Whether a list's references are loaded from and saved to the cache.
pub fn cache_enabled(list: &PeerListRef) -> (r: bool)
    ensures
        r == (list@.cache == PeerListCachePolicy::DynamicFile),
{
    list.cache_policy() == PeerListCachePolicy::DynamicFile
}

/// The keys of `refs`, in order.
pub open spec fn keys_of(refs: Seq<PeerRefView>) -> Seq<Seq<char>> {
    refs.map_values(|r: PeerRefView| r.key())
}

/// The cache file content for `refs`: their keys, one per line; `None` when there are none,
/// as an empty result is never cached.
pub fn cache_content(refs: &Vec<PeerRef>) -> (r: Option<String>)
    ensures
        r is None <==> refs@.len() == 0,
        r matches Some(s) ==> s@ == join(keys_of(refs.deep_view()), seq!['\n']),
{
    if refs.len() == 0 {
        return None;
    }
    let mut out = refs[0].key();
    let mut i: usize = 1;
    assert(keys_of(refs.deep_view()).subrange(0, 1) =~= seq![refs.deep_view()[0].key()]);
    while i < refs.len()
        invariant
            1 <= i <= refs.len(),
            out@ == join(keys_of(refs.deep_view()).subrange(0, i as int), seq!['\n']),
        decreases refs.len() - i,
    {
        out.push('\n');
        let k = refs[i].key();
        out.append(k.as_str());
        let ghost ks = keys_of(refs.deep_view());
        assert(ks.subrange(0, i + 1).drop_last() =~= ks.subrange(0, i as int));
        assert(ks.subrange(0, i + 1).last() == k@);
        i = i + 1;
        assert(out@ =~= join(ks.subrange(0, i - 1), seq!['\n']) + seq!['\n'] + k@);
    }
    assert(keys_of(refs.deep_view()).subrange(0, refs.len() as int) =~= keys_of(
        refs.deep_view(),
    ));
    Some(out)
}

/// The references in a cache file's content; `None` when it holds none.
pub fn cached_refs_from_content(content: &str) -> (r: Option<Vec<PeerRef>>)
    ensures
        r is None <==> parse_peer_refs_spec(content@).len() == 0,
        r matches Some(v) ==> v.deep_view() == parse_peer_refs_spec(content@),
{
    let refs = parse_peer_refs(content);
    if refs.len() == 0 {
        None
    } else {
        Some(refs)
    }
}

/// A reference that its own key, as one line of a list, reads back as.
pub open spec fn reads_back(r: PeerRefView) -> bool {
    &&& !r.key().contains('\n')
    &&& line_peer_ref_spec(r.key()) == Some(r)
}

/// Reading back the cache content written for `refs` gives `refs`, when each of them reads
/// back from its own key.
pub proof fn lemma_cache_roundtrip(refs: Seq<PeerRefView>)
    requires
        refs.len() > 0,
        forall|i: int| 0 <= i < refs.len() ==> reads_back(#[trigger] refs[i]),
    ensures
        parse_peer_refs_spec(join(keys_of(refs), seq!['\n'])) == refs,
{
    let ks = keys_of(refs);
    assert forall|i: int| 0 <= i < ks.len() implies !(#[trigger] ks[i]).contains('\n') by {
        assert(reads_back(refs[i]));
    };
    lemma_split_join(ks, '\n');
    lemma_refs_of_keys(refs);
}

proof fn lemma_refs_of_keys(refs: Seq<PeerRefView>)
    requires
        forall|i: int| 0 <= i < refs.len() ==> reads_back(#[trigger] refs[i]),
    ensures
        refs_of_lines(keys_of(refs)) == refs,
    decreases refs.len(),
{
    if refs.len() > 0 {
        let init = refs.drop_last();
        assert forall|i: int| 0 <= i < init.len() implies reads_back(#[trigger] init[i]) by {
            assert(init[i] == refs[i]);
        };
        lemma_refs_of_keys(init);
        assert(keys_of(refs).drop_last() =~= keys_of(init));
        assert(reads_back(refs[refs.len() - 1]));
        assert(keys_of(refs).last() == refs.last().key());
        assert(init.push(refs.last()) =~= refs);
    }
}

/// The peers of `peers` without repeated URIs, each kept where it first occurs.
pub open spec fn dedup_by_uri(peers: Seq<PeerConfigView>) -> Seq<PeerConfigView>
    decreases peers.len(),
{
    if peers.len() == 0 {
        Seq::empty()
    } else {
        let prev = dedup_by_uri(peers.drop_last());
        if uris_of(prev).contains(peers.last().uri) {
            prev
        } else {
            prev.push(peers.last())
        }
    }
}

pub open spec fn uris_of(peers: Seq<PeerConfigView>) -> Seq<Seq<char>> {
    peers.map_values(|p: PeerConfigView| p.uri)
}

/// The peers to register for `targets`, in order, each URI once.
pub fn peers_to_register(targets: Vec<PeerTarget>) -> (r: Vec<PeerConfig>)
    ensures
        r.deep_view() == dedup_by_uri(targets.deep_view()),
{
    let mut seen: Vec<String> = Vec::new();
    let mut out: Vec<PeerConfig> = Vec::new();
    let n = targets.len();
    let mut i: usize = 0;
    while i < n
        invariant
            n == targets.len(),
            i <= n,
            out.deep_view() == dedup_by_uri(targets.deep_view().subrange(0, i as int)),
            seen.deep_view() == uris_of(out.deep_view()),
        decreases n - i,
    {
        let peer = targets[i].peer().clone();
        let ghost sub = targets.deep_view().subrange(0, i + 1);
        assert(sub.drop_last() =~= targets.deep_view().subrange(0, i as int));
        assert(sub.last() == peer@);
        let key = peer.uri.clone();
        if !contains_key(&seen, &key) {
            let ghost old_out = out.deep_view();
            let ghost old_seen = seen.deep_view();
            seen.push(key);
            out.push(peer);
            assert(out.deep_view() =~= old_out.push(peer@));
            assert(seen.deep_view() =~= old_seen.push(peer@.uri));
            assert(uris_of(out.deep_view()) =~= uris_of(old_out).push(peer@.uri));
        }
        i = i + 1;
    }
    assert(targets.deep_view().subrange(0, n as int) =~= targets.deep_view());
    out
}

/// The deduplicated peers hold each URI once, and every URI of the input.
pub proof fn lemma_dedup_by_uri(peers: Seq<PeerConfigView>)
    ensures
        uris_of(dedup_by_uri(peers)).no_duplicates(),
        forall|i: int| 0 <= i < peers.len() ==> uris_of(dedup_by_uri(peers)).contains(
            #[trigger] peers[i].uri,
        ),
        forall|j: int| 0 <= j < dedup_by_uri(peers).len() ==> peers.contains(
            #[trigger] dedup_by_uri(peers)[j],
        ),
    decreases peers.len(),
{
    if peers.len() > 0 {
        let init = peers.drop_last();
        lemma_dedup_by_uri(init);
        let prev = dedup_by_uri(init);
        let last = peers.last();
        if !uris_of(prev).contains(last.uri) {
            assert(uris_of(prev.push(last)) =~= uris_of(prev).push(last.uri));
            assert forall|a: int, b: int|
                0 <= a < b < uris_of(prev.push(last)).len() implies uris_of(prev.push(last))[a]
                != uris_of(prev.push(last))[b] by {
                if b == prev.len() {
                    assert(uris_of(prev)[a] == uris_of(prev.push(last))[a]);
                }
            };
        }
        assert forall|i: int| 0 <= i < peers.len() implies uris_of(dedup_by_uri(peers)).contains(
            #[trigger] peers[i].uri,
        ) by {
            if i < init.len() {
                assert(init[i] == peers[i]);
                let k = choose|k: int| 0 <= k < uris_of(prev).len() && uris_of(prev)[k] == init[i].uri;
                if !uris_of(prev).contains(last.uri) {
                    assert(uris_of(prev.push(last))[k] == init[i].uri);
                }
            } else {
                if !uris_of(prev).contains(last.uri) {
                    assert(uris_of(prev.push(last))[prev.len() as int] == last.uri);
                }
            }
        };
        assert forall|j: int| 0 <= j < dedup_by_uri(peers).len() implies peers.contains(
            #[trigger] dedup_by_uri(peers)[j],
        ) by {
            if j < prev.len() {
                assert(dedup_by_uri(peers)[j] == prev[j]);
                let k = choose|k: int| 0 <= k < init.len() && init[k] == prev[j];
                assert(peers[k] == init[k]);
            } else {
                assert(peers[peers.len() - 1] == last);
            }
        };
    }
}

/// The references for the configured peers, or the first failure, in order.
pub open spec fn refs_of_peers(peers: Seq<PeerConfigView>) -> Result<
    Seq<PeerRefView>,
    DiscoveryErrorView,
>
    decreases peers.len(),
{
    if peers.len() == 0 {
        Ok(Seq::empty())
    } else {
        match refs_of_peers(peers.drop_last()) {
            Err(e) => Err(e),
            Ok(v) => match peer_ref_spec(peers.last()) {
                Err(e) => Err(e),
                Ok(r) => Ok(v.push(r)),
            },
        }
    }
}

/// The references discovery starts from: one per configured peer, then the built-in list.
pub fn bootstrap_refs(peers: Vec<PeerConfig>) -> (r: Result<Vec<PeerRef>, DiscoveryError>)
    ensures
        match refs_of_peers(peers.deep_view()) {
            Err(e) => r matches Err(f) && f@ == e,
            Ok(v) => r matches Ok(w) && w.deep_view() == v.push(PeerRefView::List(PeerListRef::default_builtin_spec())),
        },
{
    let mut out: Vec<PeerRef> = Vec::new();
    let n = peers.len();
    let mut i: usize = 0;
    assert(peers.deep_view().subrange(0, 0) =~= Seq::<PeerConfigView>::empty());
    assert(out.deep_view() =~= Seq::<PeerRefView>::empty());
    while i < n
        invariant
            n == peers.len(),
            i <= n,
            refs_of_peers(peers.deep_view().subrange(0, i as int)) == Ok::<
                Seq<PeerRefView>,
                DiscoveryErrorView,
            >(out.deep_view()),
        decreases n - i,
    {
        let ghost sub = peers.deep_view().subrange(0, i + 1);
        assert(sub.drop_last() =~= peers.deep_view().subrange(0, i as int));
        let p = peers[i].clone();
        assert(sub.last() == p@);
        match PeerRef::try_from_peer(p) {
            Err(e) => {
                proof {
                    lemma_refs_of_peers_err(peers.deep_view(), i as int + 1);
                }
                return Err(e);
            },
            Ok(r) => {
                let ghost old_out = out.deep_view();
                out.push(r);
                assert(out.deep_view() =~= old_out.push(r@));
            },
        }
        i = i + 1;
    }
    assert(peers.deep_view().subrange(0, n as int) =~= peers.deep_view());
    let ghost old_out = out.deep_view();
    let b = PeerListRef::default_builtin();
    out.push(PeerRef::List(b));
    assert(out.deep_view() =~= old_out.push(PeerRef::List(b)@));
    Ok(out)
}

proof fn lemma_refs_of_peers_err(peers: Seq<PeerConfigView>, k: int)
    requires
        0 < k <= peers.len(),
        refs_of_peers(peers.subrange(0, k)) is Err,
    ensures
        refs_of_peers(peers) == refs_of_peers(peers.subrange(0, k)),
    decreases peers.len() - k,
{
    if k < peers.len() {
        let s = peers.subrange(0, k + 1);
        assert(s.drop_last() =~= peers.subrange(0, k));
        lemma_refs_of_peers_err(peers, k + 1);
    } else {
        assert(peers.subrange(0, k) =~= peers);
    }
}

} // verus!
