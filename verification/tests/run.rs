use base64::engine::general_purpose::STANDARD as BASE64;
use base64::Engine;
use hop::config::{
    Config, ConfigError, Double, Environment, Layout, RawConfig, RawDiscovery, RawInput, RawPeer, RawSecurity, Role, Single,
};
use hop::crypto::SharedKey;
use hop::keyfile::{key_from_text, key_text};
use hop::keys::Usage;
use hop::macos::capture::Edge;
use hop::run::{
    configured_edge, dispatch, keygen, load_key, parse_panic_hotkey, run_client, run_server, Platform, RunError,
};
use hop::windows::return_edge::ReturnEdge;

fn text_at(table: &toml::Table, name: &str) -> Option<String> {
    table.get(name).map(|value| value.as_str().expect("a string").to_string())
}

fn table_at<'a>(table: &'a toml::Table, name: &str) -> Option<&'a toml::Table> {
    table.get(name).map(|value| value.as_table().expect("a table"))
}

fn pairs_at(table: &toml::Table, name: &str) -> Vec<(String, String)> {
    match table_at(table, name) {
        None => Vec::new(),
        Some(inner) => inner.keys().map(|key| (key.clone(), text_at(inner, key).unwrap())).collect(),
    }
}

/// What a file says, read with an ordinary TOML parser.
fn raw_config(text: &str) -> RawConfig {
    let table: toml::Table = text.parse().expect("TOML");
    let mut peers = Vec::new();
    if let Some(listed) = table.get("peers") {
        for peer in listed.as_array().expect("an array") {
            let peer = peer.as_table().expect("a table");
            peers.push(RawPeer {
                id: text_at(peer, "id"),
                remap: pairs_at(peer, "remap"),
            });
        }
    }
    RawConfig {
        role: text_at(&table, "role"),
        bind: text_at(&table, "bind"),
        id: text_at(&table, "id"),
        server: text_at(&table, "server"),
        peers,
        layout: pairs_at(&table, "layout"),
        discovery: table_at(&table, "discovery").map(|t| RawDiscovery {
            enabled: t.get("enabled").map(|v| v.as_bool().expect("a boolean")),
        }),
        security: table_at(&table, "security").map(|t| RawSecurity {
            key_file: text_at(t, "key_file"),
        }),
        input: table_at(&table, "input").map(|t| RawInput {
            panic_hotkey: text_at(t, "panic_hotkey"),
            return_edge: text_at(t, "return_edge"),
            mouse_scale: t.get("mouse_scale").map(|v| {
                let scale = v.as_float().expect("a number");
                Double {
                    bits: scale.to_bits(),
                    written: format!("{scale:?}"),
                }
            }),
            anchor: t.get("anchor").map(|v| {
                let anchor = v.as_float().expect("a number") as f32;
                Single {
                    bits: anchor.to_bits(),
                    written: format!("{anchor:?}"),
                }
            }),
        }),
    }
}

fn environment() -> Environment {
    Environment {
        vars: vec![("HOME".to_string(), "/home/someone".to_string())],
    }
}

#[test]
fn keygen_writes_a_base64_key_and_refuses_to_overwrite() {
    let path = || Some("/tmp/key".to_string());
    let written = keygen(path(), false, false).expect("first keygen should succeed");
    assert_eq!(written.path, "/tmp/key");

    let loaded = load_key("/tmp/key", Ok(written.text)).ok().expect("the file keygen wrote should load back");

    let err = keygen(path(), true, false)
        .expect_err("keygen without --force must refuse to overwrite an existing key");
    assert!(matches!(err, RunError::KeyFileExists(_)));

    let overwritten = keygen(path(), true, true).expect("keygen with --force should overwrite");
    let reloaded = load_key("/tmp/key", Ok(overwritten.text)).ok().expect("the overwritten file should still load");
    assert_ne!(loaded.as_bytes(), reloaded.as_bytes());
}

#[test]
fn keygen_without_out_or_config_is_a_named_error() {
    let err = keygen(None, false, false).expect_err("keygen needs a destination");
    assert!(matches!(err, RunError::KeygenNeedsDestination));
}

#[test]
fn load_key_rejects_a_non_base64_file() {
    let err = load_key("/tmp/bad-key", Ok("not base64 at all! ***".to_string()))
        .err()
        .expect("garbage should not decode");
    assert!(matches!(err, RunError::KeyDecode { .. }));
}

#[test]
fn load_key_rejects_the_wrong_length() {
    let err = load_key("/tmp/short-key", Ok(BASE64.encode([1u8; 16])))
        .err()
        .expect("16 bytes is not a valid key length");
    assert!(matches!(err, RunError::KeyDecode { .. }));
}

#[test]
fn load_key_reports_a_missing_file_by_name() {
    let err = load_key("/tmp/does-not-exist", Err("not found".to_string()))
        .err()
        .expect("a missing key file should be a named error");
    assert!(matches!(err, RunError::KeyRead { .. }));
    assert_eq!(err.message(), "could not read key file /tmp/does-not-exist: not found");
}

fn parsed(text: &str) -> Result<Config, ConfigError> {
    Config::from_raw(&raw_config(text), &environment(), false)
}

fn config_with_hotkey(raw: Option<&str>) -> Config {
    let hotkey_line = match raw {
        Some(raw) => format!("panic_hotkey = \"{raw}\"\n"),
        None => String::new(),
    };
    let text = format!(
        "role = \"client\"\nid = \"pc\"\nserver = \"192.168.18.90:24810\"\n\n[security]\nkey_file = \"/tmp/hop-key\"\n\n[input]\nreturn_edge = \"bottom\"\n{hotkey_line}"
    );
    parsed(&text).expect("config should parse")
}

#[test]
fn no_panic_hotkey_configured_parses_to_empty() {
    let config = config_with_hotkey(None);
    assert_eq!(parse_panic_hotkey(&config).unwrap(), Vec::new());
}

#[test]
fn a_valid_panic_hotkey_parses_to_its_keys() {
    let config = config_with_hotkey(Some("LeftCtrl+LeftAlt+Escape"));
    assert_eq!(
        parse_panic_hotkey(&config).unwrap(),
        vec![Usage(Usage::LEFT_CTRL), Usage(Usage::LEFT_ALT), Usage(Usage::ESCAPE)]
    );
}

#[test]
fn an_unparseable_panic_hotkey_is_a_named_startup_error() {
    let config = config_with_hotkey(Some("LeftCtrl+NotAKey"));
    let err = parse_panic_hotkey(&config).expect_err("bad hotkey must fail to parse");
    match err {
        RunError::HotkeyParse { raw, bad } => {
            assert_eq!(raw, "LeftCtrl+NotAKey");
            assert_eq!(bad, "NotAKey");
        }
        other => panic!("expected HotkeyParse, got {other:?}"),
    }
}

#[test]
fn configured_edge_reads_top_for_this_projects_real_deployment() {
    let layout = Layout {
        top: Some("pc".to_string()),
        ..Default::default()
    };
    assert_eq!(
        configured_edge(&layout),
        Some(Edge::Top)
    );
}

#[test]
fn configured_edge_is_none_with_no_layout_configured() {
    let layout = Layout::default();
    assert_eq!(configured_edge(&layout), None);
}

#[test]
fn configured_edge_prefers_top_when_more_than_one_edge_is_set() {
    let layout = Layout {
        top: Some("pc".to_string()),
        left: Some("laptop".to_string()),
        ..Default::default()
    };
    assert_eq!(
        configured_edge(&layout),
        Some(Edge::Top)
    );
}

#[test]
fn edges_are_tried_in_a_fixed_order() {
    let only = |name: &str| {
        let at = |edge: &str| if edge == name { Some("pc".to_string()) } else { None };
        configured_edge(&Layout {
            top: at("top"),
            bottom: at("bottom"),
            left: at("left"),
            right: at("right"),
        })
    };
    assert_eq!(only("top"), Some(Edge::Top));
    assert_eq!(only("bottom"), Some(Edge::Bottom));
    assert_eq!(only("left"), Some(Edge::Left));
    assert_eq!(only("right"), Some(Edge::Right));
}

#[test]
fn a_key_is_written_as_base64_and_read_back() {
    let key = SharedKey::from_bytes([0xA5u8; 32]);
    let text = key_text(&key);
    assert_eq!(text, "paWlpaWlpaWlpaWlpaWlpaWlpaWlpaWlpaWlpaWlpaU=");
    assert_eq!(text, BASE64.encode([0xA5u8; 32]));
    let padded = format!("  {text}\n");
    assert_eq!(key_from_text(&padded).ok().expect("key").as_bytes(), key.as_bytes());
}

#[test]
fn keys_of_other_lengths_are_counted_for_the_reader() {
    let reason = key_from_text(&BASE64.encode([1u8; 33])).err().expect("refused");
    assert!(reason.contains("33"), "got: {reason}");
    let reason = key_from_text("").err().expect("refused");
    assert!(reason.contains('0'), "got: {reason}");
}

#[test]
fn each_system_runs_its_own_role() {
    assert!(dispatch(Role::Server, &Platform::MacOs).is_ok());
    assert!(dispatch(Role::Client, &Platform::Windows).is_ok());
    for (role, platform) in [
        (Role::Client, Platform::MacOs),
        (Role::Server, Platform::Windows),
        (Role::Server, Platform::Other("linux".to_string())),
        (Role::Client, Platform::Other("linux".to_string())),
    ] {
        assert!(matches!(
            dispatch(role, &platform),
            Err(RunError::WrongRoleForPlatform { .. })
        ));
    }
}

#[test]
fn a_client_runs_with_what_its_file_says() {
    let plan = run_client(&config_with_hotkey(None)).expect("plan");
    assert_eq!(plan.id, "pc");
    assert_eq!(plan.server, "192.168.18.90:24810");
    assert_eq!(plan.return_edge, ReturnEdge::Bottom);

    let mut config = config_with_hotkey(None);
    config.server = None;
    let err = run_client(&config).expect_err("no server");
    match err {
        RunError::MissingRoleField { role, field } => {
            assert_eq!(role, "client");
            assert_eq!(field, "server");
        }
        other => panic!("expected MissingRoleField, got {other:?}"),
    }
}

#[test]
fn a_server_needs_an_edge_to_hand_focus_over() {
    let text = |layout: &str| {
        format!(
            "role = \"server\"\nbind = \"0.0.0.0:24810\"\n[[peers]]\nid = \"pc\"\n{layout}\n[security]\nkey_file = \"k\"\n[input]\npanic_hotkey = \"Escape\"\n"
        )
    };
    let plan = run_server(&parsed(&text("[layout]\nleft = \"pc\"")).expect("config")).expect("plan");
    assert_eq!(plan.bind, "0.0.0.0:24810");
    assert_eq!(plan.edge, Edge::Left);
    assert!(matches!(
        run_server(&parsed(&text("")).expect("config")),
        Err(RunError::ServerMissingLayoutEdge)
    ));
    assert!(matches!(
        run_server(&config_with_hotkey(None)),
        Err(RunError::MissingRoleField { .. })
    ));
}
