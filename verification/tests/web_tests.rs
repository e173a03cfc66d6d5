use easytier::cache::NetworkIdentity;
use easytier::default_network::{default_network_settings, IceWhaleNetworkConfig, QuickTunnel};
use easytier::cidr::{
    default_cidr, linux_default_gateway, macos_default_gateway, split_char, split_whitespace,
    IfaceNet,
};
use easytier::gateway::{
    build_gateway_target, gateway_route, gateway_routes, gateway_routes_endpoint,
    management_url_candidates, management_url_from_content, normalize_gateway_route_path,
    parse_env_bool, parse_env_u64, registration_step, ApiRouteOutcome, GatewaySkip,
    RegistrationStep, ServerAddr, GATEWAY_REGISTER_MAX_RETRIES,
};
use easytier::server::{
    api_meta_script, config_listeners_outcome, get_listener_urls, listener_kind, ListenerError,
    ListenerKind,
};
use easytier::startup::{start, AttemptOutcome, AutoRegister, AutoRegisterStep};

fn some(s: &str) -> Option<String> {
    Some(s.to_string())
}

#[test]
fn config_server_listener_urls_use_dual_stack_for_tcp_and_udp() {
    let tcp_urls: Vec<url::Url> = get_listener_urls("tcp", 22020)
        .unwrap()
        .iter()
        .map(|u| u.parse().unwrap())
        .collect();
    assert_eq!(tcp_urls.len(), 2);
    assert_eq!(tcp_urls[0].scheme(), "tcp");
    assert_eq!(tcp_urls[0].host_str(), Some("[::]"));
    assert_eq!(tcp_urls[0].port(), Some(22020));
    assert_eq!(tcp_urls[1].scheme(), "tcp");
    assert_eq!(tcp_urls[1].host_str(), Some("0.0.0.0"));
    assert_eq!(tcp_urls[1].port(), Some(22020));

    let udp_urls: Vec<url::Url> = get_listener_urls("udp", 22020)
        .unwrap()
        .iter()
        .map(|u| u.parse().unwrap())
        .collect();
    assert_eq!(udp_urls.len(), 2);
    assert_eq!(udp_urls[0].scheme(), "udp");
    assert_eq!(udp_urls[0].host_str(), Some("[::]"));
    assert_eq!(udp_urls[0].port(), Some(22020));
    assert_eq!(udp_urls[1].scheme(), "udp");
    assert_eq!(udp_urls[1].host_str(), Some("0.0.0.0"));
    assert_eq!(udp_urls[1].port(), Some(22020));
}

#[test]
fn config_server_listener_urls_keep_single_stack_for_ws() {
    let ws_urls: Vec<url::Url> = get_listener_urls("ws", 22020)
        .unwrap()
        .iter()
        .map(|u| u.parse().unwrap())
        .collect();
    assert_eq!(ws_urls.len(), 1);
    assert_eq!(ws_urls[0].scheme(), "ws");
    assert_eq!(ws_urls[0].host_str(), Some("0.0.0.0"));
    assert_eq!(ws_urls[0].port(), Some(22020));
}

#[test]
fn listener_protocol_is_trimmed_and_lowered() {
    assert_eq!(
        get_listener_urls(" TCP ", 1).unwrap(),
        vec!["tcp://[::]:1".to_string(), "tcp://0.0.0.0:1".to_string()]
    );
    assert_eq!(
        get_listener_urls("a b", 1).unwrap_err(),
        ListenerError::InvalidUrl("a b://0.0.0.0:1".to_string())
    );
}

#[test]
fn listener_kinds() {
    assert_eq!(listener_kind("tcp://0.0.0.0:1").unwrap(), ListenerKind::Tcp);
    assert_eq!(listener_kind("udp://0.0.0.0:1").unwrap(), ListenerKind::Udp);
    assert_eq!(listener_kind("ws://0.0.0.0:1").unwrap(), ListenerKind::WebSocket);
    assert_eq!(
        listener_kind("wss://0.0.0.0:1").unwrap_err(),
        ListenerError::InvalidUrl("wss://0.0.0.0:1".to_string())
    );
}

#[test]
fn listeners_outcome() {
    assert!(config_listeners_outcome(&vec!["a: x".to_string()], 1).is_ok());
    assert_eq!(
        config_listeners_outcome(&vec!["a: x".to_string(), "b: y".to_string()], 0).unwrap_err(),
        "all config server listeners failed to start: a: x; b: y"
    );
}

#[test]
fn api_meta_scripts() {
    assert_eq!(
        api_meta_script(&None),
        "window.apiMeta = { api_host: window.location.origin }"
    );
    assert_eq!(
        api_meta_script(&some("http://h:1/")),
        "window.apiMeta = {\"api_host\":\"http://h:1/\"}"
    );
    assert_eq!(
        api_meta_script(&some("a\"b")),
        "window.apiMeta = {\"api_host\":\"a\\\"b\"}"
    );
}

#[test]
fn env_flags_and_numbers() {
    assert!(parse_env_bool(&None, true));
    assert!(parse_env_bool(&some(" YES "), false));
    assert!(parse_env_bool(&some("On"), false));
    assert!(!parse_env_bool(&some("off"), true));
    assert!(!parse_env_bool(&some("0"), true));
    assert!(parse_env_bool(&some("maybe"), true));
    assert!(!parse_env_bool(&some("maybe"), false));
    assert_eq!(parse_env_u64(&None, 300), 300);
    assert_eq!(parse_env_u64(&some(" 42 "), 300), 42);
    assert_eq!(parse_env_u64(&some("+7"), 300), 7);
    assert_eq!(parse_env_u64(&some("-7"), 300), 300);
    assert_eq!(parse_env_u64(&some("x"), 300), 300);
}

#[test]
fn route_paths_are_normalized() {
    assert_eq!(normalize_gateway_route_path("mt").as_deref(), Some("/mt"));
    assert_eq!(normalize_gateway_route_path(" /mt/// ").as_deref(), Some("/mt"));
    assert_eq!(normalize_gateway_route_path("api/v1/").as_deref(), Some("/api/v1"));
    assert_eq!(normalize_gateway_route_path("   "), None);
    assert_eq!(normalize_gateway_route_path("/"), None);
    assert_eq!(normalize_gateway_route_path("//").as_deref(), Some(""));
    let once = normalize_gateway_route_path("x/y//").unwrap();
    assert_eq!(normalize_gateway_route_path(&once).unwrap(), once);
}

#[test]
fn management_url_files_and_content() {
    assert_eq!(
        management_url_candidates(&None),
        vec![
            "/run/casaos/management.url".to_string(),
            "/var/run/casaos/management.url".to_string()
        ]
    );
    assert_eq!(
        management_url_candidates(&some("  ")),
        vec![
            "/run/casaos/management.url".to_string(),
            "/var/run/casaos/management.url".to_string()
        ]
    );
    assert_eq!(management_url_candidates(&some(" /etc/m.url ")), vec!["/etc/m.url".to_string()]);
    assert_eq!(
        management_url_from_content("http://127.0.0.1:80//\n").as_deref(),
        Some("http://127.0.0.1:80")
    );
    assert_eq!(management_url_from_content(" / \n"), None);
    assert_eq!(
        gateway_routes_endpoint("http://127.0.0.1:80"),
        "http://127.0.0.1:80/v1/gateway/routes"
    );
}

#[test]
fn gateway_targets() {
    assert_eq!(build_gateway_target(&ServerAddr::V4(0), 11211), "http://127.0.0.1:11211");
    assert_eq!(
        build_gateway_target(&ServerAddr::V4(0xc0a8_0001), 11211),
        "http://192.168.0.1:11211"
    );
    assert_eq!(
        build_gateway_target(&ServerAddr::V6 { segments: [0; 8], text: "::".to_string() }, 80),
        "http://[::1]:80"
    );
    assert_eq!(
        build_gateway_target(
            &ServerAddr::V6 { segments: [0xfe80, 0, 0, 0, 0, 0, 0, 1], text: "fe80::1".to_string() },
            80
        ),
        "http://[fe80::1]:80"
    );
}

#[test]
fn gateway_route_plans() {
    assert_eq!(gateway_route(&some("false"), &None).unwrap_err(), GatewaySkip::Disabled);
    assert_eq!(gateway_route(&None, &some("/")).unwrap_err(), GatewaySkip::InvalidRoute);
    assert_eq!(gateway_route(&None, &None).unwrap(), "/mt");
    assert_eq!(gateway_route(&some("1"), &some("console/")).unwrap(), "/console");

    let (routes, outcome) = gateway_routes("/mt".to_string(), &None, &None);
    assert_eq!(routes, vec!["/mt".to_string(), "/api/v1".to_string()]);
    assert_eq!(outcome, ApiRouteOutcome::Added);
    let (routes, outcome) = gateway_routes("/mt".to_string(), &some("no"), &None);
    assert_eq!(routes, vec!["/mt".to_string()]);
    assert_eq!(outcome, ApiRouteOutcome::Disabled);
    let (routes, outcome) = gateway_routes("/mt".to_string(), &None, &some("mt/"));
    assert_eq!(routes, vec!["/mt".to_string()]);
    assert_eq!(outcome, ApiRouteOutcome::Duplicate);
    let (routes, outcome) = gateway_routes("/mt".to_string(), &None, &some(" "));
    assert_eq!(routes, vec!["/mt".to_string()]);
    assert_eq!(outcome, ApiRouteOutcome::Invalid);
}

#[test]
fn registration_retries() {
    assert_eq!(registration_step(1, true), RegistrationStep::Registered);
    assert_eq!(registration_step(1, false), RegistrationStep::Retry { next: 2 });
    assert_eq!(
        registration_step(GATEWAY_REGISTER_MAX_RETRIES, false),
        RegistrationStep::GiveUp
    );
}

#[test]
fn startup_registration_settings() {
    assert_eq!(start(&None, &None, &None), Some(AutoRegister { wait_secs: 300, retry_secs: 3 }));
    assert_eq!(start(&some("false"), &None, &None), None);
    assert_eq!(
        start(&some("true"), &some("10"), &some("0")),
        Some(AutoRegister { wait_secs: 10, retry_secs: 1 })
    );
    let plan = AutoRegister { wait_secs: 10, retry_secs: 2 };
    assert_eq!(plan.after_attempt(AttemptOutcome::Registered, true), AutoRegisterStep::Finish);
    assert_eq!(plan.after_attempt(AttemptOutcome::Failed, true), AutoRegisterStep::GiveUp);
    assert_eq!(
        plan.after_attempt(AttemptOutcome::NotReady, false),
        AutoRegisterStep::Retry { pause_secs: 2 }
    );
}

#[test]
fn words_and_pieces() {
    assert_eq!(split_whitespace("  a  bc\td \n"), vec!["a", "bc", "d"]);
    assert!(split_whitespace("   ").is_empty());
    assert_eq!(split_char("gateway: 10.0.0.1", ' '), vec!["gateway:", "10.0.0.1"]);
    assert_eq!(split_char("a  b", ' '), vec!["a", "", "b"]);
    assert_eq!(split_char("", ' '), vec![""]);
}

#[test]
fn linux_gateway_from_route_output() {
    let out = "default via 192.168.139.1 dev eth0 proto dhcp metric 100\n";
    assert_eq!(linux_default_gateway(out).as_deref(), Some("192.168.139.1"));
    let out = "  default via\n default via 10.0.0.1 dev wlan0\n";
    assert_eq!(linux_default_gateway(out).as_deref(), Some("10.0.0.1"));
    assert_eq!(linux_default_gateway("10.0.0.0/8 dev eth0\n"), None);
}

#[test]
fn macos_gateway_from_route_output() {
    let out = "   route to: default\ndestination: default\n       mask: default\n    gateway: 10.0.0.1\n  interface: en0\n";
    assert_eq!(macos_default_gateway(out).unwrap(), "10.0.0.1");
    assert_eq!(macos_default_gateway("interface: en0\n").unwrap_err(), "gateway not found");
    assert_eq!(macos_default_gateway("gateway:\n").unwrap_err(), "gateway does not ip");
}

#[test]
fn test_cidr_linux() {
    let out = "default via 192.168.139.1 dev eth0 proto dhcp src 192.168.139.5 metric 100\n";
    assert_eq!(linux_default_gateway(out).as_deref(), Some("192.168.139.1"));
    let gateway: u32 = 0xc0a8_8b01;
    let nets = vec![
        IfaceNet::V6,
        IfaceNet::V4 { addr: 0x7f00_0001, prefix: 8 },
        IfaceNet::V4 { addr: 0xc0a8_8b05, prefix: 24 },
    ];
    assert_eq!(
        default_cidr(&nets, gateway),
        Some("192.168.139.0/24".to_owned()),
        "success"
    );
}

#[test]
fn test_cidr_macos() {
    let out = "   route to: default\ndestination: default\n    gateway: 10.0.0.1\n  interface: en0\n";
    assert_eq!(macos_default_gateway(out).as_deref(), Ok("10.0.0.1"));
    let gateway: u32 = 0x0a00_0001;
    let nets = vec![IfaceNet::V4 { addr: 0x0a00_1234, prefix: 16 }];
    assert_eq!(default_cidr(&nets, gateway), Some("10.0.0.0/16".to_owned()), "success");
}

#[test]
fn cidr_needs_a_network_that_holds_the_gateway() {
    let nets = vec![IfaceNet::V4 { addr: 0x0a00_1234, prefix: 16 }, IfaceNet::V6];
    assert_eq!(default_cidr(&nets, 0x0b00_0001), None);
    let all = vec![IfaceNet::V4 { addr: 0x0102_0304, prefix: 0 }];
    assert_eq!(default_cidr(&all, 0xffff_ffff).as_deref(), Some("0.0.0.0/0"));
    let host = vec![IfaceNet::V4 { addr: 0x0102_0304, prefix: 32 }];
    assert_eq!(default_cidr(&host, 0x0102_0304).as_deref(), Some("1.2.3.4/32"));
    assert_eq!(default_cidr(&host, 0x0102_0305), None);
}

#[test]
fn gateway_success_statuses() {
    assert!(easytier::gateway::status_accepted(200));
    assert!(easytier::gateway::status_accepted(204));
    assert!(!easytier::gateway::status_accepted(199));
    assert!(!easytier::gateway::status_accepted(300));
}

#[test]
fn api_meta_escapes_control_characters() {
    assert_eq!(
        api_meta_script(&some("a\\b\n\u{1}")),
        "window.apiMeta = {\"api_host\":\"a\\\\b\\n\\u0001\"}"
    );
}

#[test]
fn default_network_settings_fill_the_fixed_values() {
    let config = IceWhaleNetworkConfig {
        identity: NetworkIdentity {
            network_name: "n".to_string(),
            network_secret: None,
            network_secret_digest: None,
        },
        listeners: vec!["tcp://0.0.0.0:11010".to_string(), "udp://0.0.0.0:11011".to_string()],
        peers: vec![easytier::discovery::PeerConfig::parse("tcp://1.1.1.1:11010").unwrap()],
        tld_dns_zone: None,
        quick_tunnel: QuickTunnel::Quic,
    };
    let s = default_network_settings(config, [7u8; 16], None, "10.0.0.0/16".to_string());
    assert_eq!(s.instance_id, [7u8; 16]);
    assert!(s.dhcp && s.latency_first && s.accept_dns && s.multi_thread);
    assert_eq!(s.tld_dns_zone, ".ice-whale.io.");
    assert_eq!(s.multi_thread_count, 4);
    assert!(s.enable_quic_proxy && !s.enable_kcp_proxy);
    assert_eq!(s.proxy_cidr, "10.0.0.0/16");
    assert_eq!(s.listeners.len(), 2);
    assert_eq!(s.peers.len(), 1);
}
