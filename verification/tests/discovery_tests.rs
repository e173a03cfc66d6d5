use std::collections::HashMap;

use easytier::cache::{
    cache_file_name, network_digest_hex, network_digest_seed, sanitize_scope_name,
    scope_dir_name, scope_file_parts, source_digest_seed, NetworkIdentity,
};
use easytier::discovery::{
    check_list_response, parse_peer_refs, try_build_peer_ref, BuiltinPeerList, DiscoveryError,
    FilePeerList, HttpPeerList, PeerConfig, PeerListCachePolicy, PeerListPolicy, PeerListRef,
    PeerListSource, PeerRef, MAX_DISCOVERY_DEPTH,
};
use easytier::manager::{
    bootstrap_refs, cache_content, cache_enabled, cached_refs_from_content, choose_list_refs,
    peers_to_register, DiscoveryWalk, WalkStep,
};

fn peer(uri: &str) -> PeerConfig {
    PeerConfig::parse(uri).expect("a valid url")
}

#[test]
fn parse_peer_refs_supports_targets_and_lists() {
    let refs = parse_peer_refs(
        r#"
            tcp://127.0.0.1:11010
            peerlist+file:///tmp/peers.txt
            peerlist+http://127.0.0.1/peers.txt
            # comment
            not-a-url
            "#,
    );

    assert_eq!(refs.len(), 3);
    match &refs[0] {
        PeerRef::Target(target) => {
            assert_eq!(target.peer().uri.as_str(), "tcp://127.0.0.1:11010")
        }
        _ => panic!("expected direct peer target"),
    }
    match &refs[1] {
        PeerRef::List(list) => {
            assert_eq!(list.peer().uri.as_str(), "peerlist+file:///tmp/peers.txt")
        }
        _ => panic!("expected nested peer list"),
    }
    match &refs[2] {
        PeerRef::List(list) => {
            assert_eq!(list.peer().uri.as_str(), "peerlist+http://127.0.0.1/peers.txt");
            assert_eq!(list.cache_policy(), PeerListCachePolicy::DynamicFile);
        }
        _ => panic!("expected peer list"),
    }
}

#[test]
fn cache_roundtrip() {
    let identity = NetworkIdentity {
        network_name: "cache-test".to_string(),
        network_secret: Some("secret".to_string()),
        network_secret_digest: None,
    };
    let (name, secret) = network_digest_seed(&identity);
    assert_eq!(name, "cache-test");
    assert_eq!(secret, "secret");

    let list = PeerListRef::new(PeerListSource::File(
        FilePeerList::try_from_peer(peer("peerlist+file:///tmp/cache.txt"))
            .unwrap()
            .unwrap(),
    ));
    let refs = vec![PeerRef::try_from_peer(peer("tcp://127.0.0.1:11010")).unwrap()];

    let (tag, key) = source_digest_seed(&list.source_key());
    assert_eq!(tag, "peer-list-cache");
    assert_eq!(key, "peerlist+file:///tmp/cache.txt");

    let content = cache_content(&refs).unwrap();
    let loaded = cached_refs_from_content(&content).unwrap();
    assert_eq!(loaded, refs);
}

#[test]
fn resolve_nested_file_lists() {
    let root = "/tmp/easytier-discovery-test-walk";
    let nested = format!("{root}/nested.txt");
    let outer = format!("{root}/outer.txt");
    let nested_url = format!("file://{nested}");
    let outer_url = format!("file://{outer}");

    let mut files: HashMap<String, String> = HashMap::new();
    files.insert(nested.clone(), "tcp://127.0.0.1:11010\n".to_string());
    files.insert(
        outer.clone(),
        format!("{}\n", nested_url.replacen("file://", "peerlist+file://", 1)),
    );

    let peer_ref =
        PeerRef::try_from_peer(peer(&outer_url.replacen("file://", "peerlist+file://", 1)))
            .unwrap();

    let mut walk = DiscoveryWalk::new(peer_ref);
    loop {
        match walk.next_step() {
            WalkStep::Resolve(list, depth) => {
                assert!(depth <= MAX_DISCOVERY_DEPTH);
                let path = match list.source() {
                    PeerListSource::File(f) => f.path().clone(),
                    _ => panic!("expected a file list"),
                };
                let body = files.get(&path).expect("a known file");
                let outcome = list.check_resolved(parse_peer_refs(body));
                assert!(walk.supply(outcome).is_ok());
            }
            WalkStep::Done => break,
            WalkStep::Failed(_) => panic!("the walk failed"),
        }
    }
    let resolved = walk.into_targets();
    assert_eq!(resolved.len(), 1);
    assert_eq!(resolved[0].peer().uri.as_str(), "tcp://127.0.0.1:11010");
}

#[test]
fn walk_of_a_self_nesting_list_visits_it_once() {
    let uri = "peerlist+file:///tmp/loop.txt";
    let mut walk = DiscoveryWalk::new(PeerRef::try_from_peer(peer(uri)).unwrap());
    let mut resolutions = 0;
    loop {
        match walk.next_step() {
            WalkStep::Resolve(list, _) => {
                resolutions += 1;
                let body = format!("{uri}\ntcp://10.0.0.1:11010\n");
                let outcome = list.check_resolved(parse_peer_refs(&body));
                assert!(walk.supply(outcome).is_ok());
            }
            WalkStep::Done => break,
            WalkStep::Failed(_) => panic!("the walk failed"),
        }
    }
    assert_eq!(resolutions, 1);
    let targets = walk.into_targets();
    assert_eq!(targets.len(), 1);
    assert_eq!(targets[0].peer().uri.as_str(), "tcp://10.0.0.1:11010");
}

#[test]
fn walk_fails_past_the_nesting_limit() {
    let mut walk = DiscoveryWalk::new(PeerRef::try_from_peer(peer("peerlist+file:///tmp/d0.txt")).unwrap());
    let mut level = 0;
    let failed = loop {
        match walk.next_step() {
            WalkStep::Resolve(_, _) => {
                level += 1;
                let body = format!("peerlist+file:///tmp/d{level}.txt\n");
                let refs = parse_peer_refs(&body);
                assert!(walk.supply(Ok(refs)).is_ok());
            }
            WalkStep::Done => break false,
            WalkStep::Failed(e) => {
                assert_eq!(e, DiscoveryError::NestingTooDeep);
                break true;
            }
        }
    };
    assert!(failed);
    assert_eq!(level, MAX_DISCOVERY_DEPTH + 1);
}

#[test]
fn empty_list_is_an_error() {
    let list = PeerListRef::new(PeerListSource::File(
        FilePeerList::try_from_peer(peer("peerlist+file:///tmp/empty.txt"))
            .unwrap()
            .unwrap(),
    ));
    match list.check_resolved(Vec::new()) {
        Err(DiscoveryError::InvalidUrl(m)) => assert_eq!(
            m,
            "no valid peer refs found in list: peerlist+file:///tmp/empty.txt"
        ),
        _ => panic!("expected an error"),
    }
}

#[test]
fn list_kinds_and_refresh_intervals() {
    let file = PeerRef::try_from_peer(peer("peerlist+file:///tmp/a.txt")).unwrap();
    let http = PeerRef::try_from_peer(peer("peerlist+https://example.com/a.txt")).unwrap();
    let target = PeerRef::try_from_peer(peer("udp://1.2.3.4:11010")).unwrap();
    match (&file, &http, &target) {
        (PeerRef::List(f), PeerRef::List(h), PeerRef::Target(_)) => {
            assert_eq!(f.refresh_interval(), Some(30));
            assert_eq!(h.refresh_interval(), Some(300));
            assert_eq!(f.cache_policy(), PeerListCachePolicy::Disabled);
            assert_eq!(h.cache_policy(), PeerListCachePolicy::DynamicFile);
            assert!(!cache_enabled(f));
            assert!(cache_enabled(h));
            match h.source() {
                PeerListSource::Http(src) => {
                    assert_eq!(src.target().as_str(), "https://example.com/a.txt")
                }
                _ => panic!("expected an http list"),
            }
        }
        _ => panic!("unexpected kinds"),
    }
    assert_eq!(file.key(), "peerlist+file:///tmp/a.txt");
}

#[test]
fn builtin_list_resolves_its_fixed_entries() {
    let builtin = PeerListRef::default_builtin();
    assert_eq!(builtin.peer().uri.as_str(), "builtin://default");
    assert_eq!(builtin.refresh_interval(), None);
    let refs = builtin.local_refs().unwrap();
    assert_eq!(refs.len(), 1);
    assert_eq!(refs[0].key(), "wss://et.icewhale.io/");
    assert!(BuiltinPeerList::try_from_peer(peer("builtin://default")).is_some());
    assert!(BuiltinPeerList::try_from_peer(peer("tcp://1.2.3.4:1")).is_none());
    let other = PeerListRef::new(PeerListSource::Http(
        HttpPeerList::try_from_peer(peer("peerlist+http://h/x")).unwrap().unwrap(),
    ));
    assert!(other.local_refs().is_none());
}

#[test]
fn with_policy_keeps_the_given_policy() {
    let list = PeerListRef::with_policy(
        PeerListSource::File(
            FilePeerList::try_from_peer(peer("peerlist+file:///tmp/p.txt")).unwrap().unwrap(),
        ),
        PeerListPolicy { cache: PeerListCachePolicy::DynamicFile },
    );
    assert_eq!(list.cache_policy(), PeerListCachePolicy::DynamicFile);
    assert_eq!(PeerListPolicy::default().cache, PeerListCachePolicy::Disabled);
}

#[test]
fn unknown_list_scheme_is_not_a_list() {
    assert!(matches!(try_build_peer_ref(peer("tcp://1.2.3.4:1")), Ok(None)));
    assert!(matches!(
        try_build_peer_ref(peer("peerlist+http://h/x")),
        Ok(Some(PeerRef::List(_)))
    ));
    assert!(matches!(
        FilePeerList::try_from_peer(peer("peerlist+http://h/x")),
        Ok(None)
    ));
    assert!(matches!(
        HttpPeerList::try_from_peer(peer("peerlist+file:///x")),
        Ok(None)
    ));
}

#[test]
fn failed_resolution_falls_back_to_the_cache() {
    let cached = vec![PeerRef::try_from_peer(peer("tcp://9.9.9.9:1")).unwrap()];
    let fresh = vec![PeerRef::try_from_peer(peer("tcp://8.8.8.8:1")).unwrap()];
    let r = choose_list_refs(Err(DiscoveryError::Unavailable("down".to_string())), Some(cached));
    assert_eq!(r.unwrap()[0].key(), "tcp://9.9.9.9:1");
    let r = choose_list_refs(Ok(fresh), None);
    assert_eq!(r.unwrap()[0].key(), "tcp://8.8.8.8:1");
    let r = choose_list_refs(Err(DiscoveryError::Unavailable("down".to_string())), None);
    assert_eq!(r.unwrap_err(), DiscoveryError::Unavailable("down".to_string()));
}

#[test]
fn cache_of_nothing_is_not_written() {
    assert!(cache_content(&Vec::new()).is_none());
    assert!(cached_refs_from_content("# only a comment\n\n").is_none());
}

#[test]
fn registered_peers_are_deduplicated_by_uri() {
    let refs = parse_peer_refs("tcp://1.1.1.1:1\ntcp://2.2.2.2:2\ntcp://1.1.1.1:1\n");
    let mut walk_targets = Vec::new();
    for r in refs {
        if let PeerRef::Target(t) = r {
            walk_targets.push(t);
        }
    }
    let peers = peers_to_register(walk_targets);
    let uris: Vec<&str> = peers.iter().map(|p| p.uri.as_str()).collect();
    assert_eq!(uris, vec!["tcp://1.1.1.1:1", "tcp://2.2.2.2:2"]);
}

#[test]
fn bootstrap_adds_the_builtin_list() {
    let refs = bootstrap_refs(vec![peer("tcp://1.1.1.1:1")]).unwrap();
    assert_eq!(refs.len(), 2);
    assert_eq!(refs[0].key(), "tcp://1.1.1.1:1");
    assert_eq!(refs[1].key(), "builtin://default");
}

#[test]
fn scope_names_are_sanitized() {
    assert_eq!(sanitize_scope_name("my net/1"), "my_net_1");
    assert_eq!(sanitize_scope_name(""), "default");
    assert_eq!(sanitize_scope_name("ok-name_2"), "ok-name_2");
    assert_eq!(scope_dir_name("a b", &[0xab, 0x01]), "a_b-ab01");
    assert_eq!(cache_file_name(&[0x00, 0xff]), "00ff.txt");
    assert_eq!(
        scope_file_parts("n", &[1], &[2]),
        vec!["peer-list-cache".to_string(), "n-01".to_string(), "02.txt".to_string()]
    );
}

#[test]
fn network_digest_prefers_the_stored_digest() {
    let mut stored = [0u8; 32];
    stored[0] = 0xaa;
    let generated = [0x11u8; 32];
    let with = NetworkIdentity {
        network_name: "n".to_string(),
        network_secret: None,
        network_secret_digest: Some(stored),
    };
    let without = NetworkIdentity {
        network_name: "n".to_string(),
        network_secret: None,
        network_secret_digest: None,
    };
    let h = network_digest_hex(&with, &generated);
    assert_eq!(h.len(), 64);
    assert!(h.starts_with("aa00"));
    assert_eq!(network_digest_hex(&without, &generated), "11".repeat(32));
    assert_eq!(network_digest_seed(&without).1, "");
}

#[test]
fn http_list_answers_need_a_success_status() {
    assert!(check_list_response(200, "http://h/x").is_ok());
    assert!(check_list_response(299, "http://h/x").is_ok());
    assert_eq!(
        check_list_response(404, "http://h/x").unwrap_err(),
        DiscoveryError::InvalidUrl("unexpected peer list response: status 404, url http://h/x".to_string())
    );
}

#[test]
fn peer_hosts_are_put_to_ascii() {
    let r = PeerRef::try_from_peer(peer("tcp://例え.jp:11010")).unwrap();
    assert_eq!(r.key(), "tcp://xn--r8jz45g.jp:11010");
    let r = PeerRef::try_from_peer(peer("tcp://Example.COM:1")).unwrap();
    assert_eq!(r.key(), "tcp://example.com:1");
    let r = PeerRef::try_from_peer(peer("tcp://127.0.0.1:11010")).unwrap();
    assert_eq!(r.key(), "tcp://127.0.0.1:11010");
    match PeerRef::try_from_peer(peer("tcp://1.2.3.4.5:1")) {
        Err(DiscoveryError::InvalidUrl(m)) => assert!(m.starts_with("invalid peer host: ")),
        _ => panic!("expected an invalid host"),
    }
    let refs = parse_peer_refs("udp://例え.jp:1\n");
    assert_eq!(refs[0].key(), "udp://xn--r8jz45g.jp:1");
}
