use hop::config::{
    anchor_is_usable, expand_config_path, expand_percent_vars_with, expand_tilde_with, position_of, scale_is_usable,
    validate_server_address, Config, ConfigError, Double, Environment, FilePath, RawConfig, RawDiscovery, RawInput, RawPeer,
    RawSecurity, Role, Single,
};
use hop::keys::Usage;

fn text_at(table: &toml::Table, name: &str) -> Option<String> {
    table.get(name).map(|value| value.as_str().expect("a string").to_string())
}

fn table_at<'a>(table: &'a toml::Table, name: &str) -> Option<&'a toml::Table> {
    table.get(name).map(|value| value.as_table().expect("a table"))
}

fn pairs_at(table: &toml::Table, name: &str) -> Vec<(String, String)> {
    match table_at(table, name) {
        None => Vec::new(),
        Some(inner) => inner.keys().map(|key| (key.clone(), text_at(inner, key).unwrap())).collect(),
    }
}

/// What a file says, read with an ordinary TOML parser.
fn raw_config(text: &str) -> RawConfig {
    let table: toml::Table = text.parse().expect("TOML");
    let mut peers = Vec::new();
    if let Some(listed) = table.get("peers") {
        for peer in listed.as_array().expect("an array") {
            let peer = peer.as_table().expect("a table");
            peers.push(RawPeer {
                id: text_at(peer, "id"),
                remap: pairs_at(peer, "remap"),
            });
        }
    }
    RawConfig {
        role: text_at(&table, "role"),
        bind: text_at(&table, "bind"),
        id: text_at(&table, "id"),
        server: text_at(&table, "server"),
        peers,
        layout: pairs_at(&table, "layout"),
        discovery: table_at(&table, "discovery").map(|t| RawDiscovery {
            enabled: t.get("enabled").map(|v| v.as_bool().expect("a boolean")),
        }),
        security: table_at(&table, "security").map(|t| RawSecurity {
            key_file: text_at(t, "key_file"),
        }),
        input: table_at(&table, "input").map(|t| RawInput {
            panic_hotkey: text_at(t, "panic_hotkey"),
            return_edge: text_at(t, "return_edge"),
            mouse_scale: t.get("mouse_scale").map(|v| {
                let scale = v.as_float().expect("a number");
                Double {
                    bits: scale.to_bits(),
                    written: format!("{scale:?}"),
                }
            }),
            anchor: t.get("anchor").map(|v| {
                let anchor = v.as_float().expect("a number") as f32;
                Single {
                    bits: anchor.to_bits(),
                    written: format!("{anchor:?}"),
                }
            }),
        }),
    }
}

fn environment() -> Environment {
    Environment {
        vars: vec![("HOME".to_string(), "/home/someone".to_string())],
    }
}

fn load(text: &str) -> Result<Config, ConfigError> {
    Config::from_raw(&raw_config(text), &environment(), false)
}

fn plain(path: &str) -> FilePath {
    FilePath {
        base: path.to_string(),
        below: None,
    }
}

fn below(base: &str, path: &str) -> FilePath {
    FilePath {
        base: base.to_string(),
        below: Some(path.to_string()),
    }
}

const SERVER_CONFIG: &str = r#"
role = "server"
bind = "0.0.0.0:24810"

[[peers]]
id = "pc"

[peers.remap]
LeftGui = "LeftCtrl"
RightGui = "RightCtrl"
LeftAlt = "LeftAlt"

[layout]
top = "pc"

[security]
key_file = "~/.config/hop/key"

[input]
panic_hotkey = "LeftCtrl+LeftAlt+Escape"
"#;

const CLIENT_CONFIG: &str = r#"
role = "client"
id = "pc"
server = "192.168.18.90:24810"

[discovery]
enabled = true

[security]
key_file = "%APPDATA%\\hop\\key"

[input]
return_edge = "bottom"
"#;

#[test]
fn valid_server_config_parses() {
    let path = String::from(SERVER_CONFIG);
    let config = load(&path).expect("valid server config should load");
    
    assert_eq!(config.role, Role::Server);
    assert_eq!(config.bind.as_deref(), Some("0.0.0.0:24810"));
    assert_eq!(config.peers.len(), 1);
    assert_eq!(config.peers[0].id, "pc");
    assert_eq!(
        config.peers[0].remap.apply(Usage(Usage::LEFT_GUI)),
        Usage(Usage::LEFT_CTRL)
    );
    assert_eq!(
        config.peers[0].remap.apply(Usage(Usage::RIGHT_GUI)),
        Usage(Usage::RIGHT_CTRL)
    );
    assert_eq!(
        config.peers[0].remap.apply(Usage(Usage::LEFT_ALT)),
        Usage(Usage::LEFT_ALT)
    );
    assert_eq!(config.layout.top.as_deref(), Some("pc"));
    assert_eq!(config.layout.bottom, None);
    let home = "/home/someone".to_string();
    assert_eq!(
        config.security.key_file,
        below(&home, ".config/hop/key")
    );
    assert_eq!(
        config.input.panic_hotkey.as_deref(),
        Some("LeftCtrl+LeftAlt+Escape")
    );
}

#[test]
fn valid_client_config_parses() {
    let path = String::from(CLIENT_CONFIG);
    let config = load(&path).expect("valid client config should load");
    
    assert_eq!(config.role, Role::Client);
    assert_eq!(config.id.as_deref(), Some("pc"));
    assert_eq!(config.server.as_deref(), Some("192.168.18.90:24810"));
    assert!(config.discovery.enabled);
    assert_eq!(
        config.security.key_file,
        plain("%APPDATA%\\hop\\key")
    );
    assert!(config.peers.is_empty());
    assert_eq!(config.input.return_edge.as_deref(), Some("bottom"));
}

#[test]
fn missing_key_file_is_a_named_error() {
    let path = String::from(
        r#"
role = "server"
bind = "0.0.0.0:24810"
"#,
    );
    let err = load(&path).expect_err("missing key_file should be rejected");
    
    let message = err.message();
    assert!(
        message.contains("security.key_file"),
        "error should name the missing field, got: {message}"
    );
}

#[test]
fn unknown_remap_key_is_a_named_error() {
    let path = String::from(
        r#"
role = "server"
bind = "0.0.0.0:24810"

[[peers]]
id = "pc"

[peers.remap]
NotAKey = "LeftCtrl"

[security]
key_file = "~/.config/hop/key"
"#,
    );
    let err = load(&path).expect_err("unknown remap key should be rejected");
    
    let message = err.message();
    assert!(
        message.contains("NotAKey"),
        "error should name the offending key, got: {message}"
    );
    assert!(matches!(err, ConfigError::UnknownRemapKey { .. }));
}

#[test]
fn unknown_remap_value_is_a_named_error() {
    let path = String::from(
        r#"
role = "server"
bind = "0.0.0.0:24810"

[[peers]]
id = "pc"

[peers.remap]
LeftGui = "NotAKey"

[security]
key_file = "~/.config/hop/key"
"#,
    );
    let err = load(&path).expect_err("unknown remap value should be rejected");
    
    let message = err.message();
    assert!(
        message.contains("NotAKey"),
        "error should name the offending value, got: {message}"
    );
    assert!(matches!(err, ConfigError::UnknownRemapValue { .. }));
}

#[test]
fn unknown_layout_edge_is_a_named_error() {
    let path = String::from(
        r#"
role = "server"
bind = "0.0.0.0:24810"

[layout]
diagonal = "pc"

[security]
key_file = "~/.config/hop/key"
"#,
    );
    let err = load(&path).expect_err("unknown layout edge should be rejected");
    
    let message = err.message();
    assert!(
        message.contains("diagonal"),
        "error should name the offending edge, got: {message}"
    );
    assert!(matches!(err, ConfigError::UnknownEdge { .. }));
}

#[test]
fn missing_role_is_an_error() {
    let path = String::from(
        r#"
bind = "0.0.0.0:24810"

[security]
key_file = "~/.config/hop/key"
"#,
    );
    let err = load(&path).expect_err("missing role should be rejected");
    
    let message = err.message();
    assert!(
        message.contains("role"),
        "error should name the missing field, got: {message}"
    );
    assert!(matches!(err, ConfigError::MissingField { .. }));
}

#[test]
fn invalid_role_value_is_an_error() {
    let path = String::from(
        r#"
role = "supervisor"

[security]
key_file = "~/.config/hop/key"
"#,
    );
    let err = load(&path).expect_err("invalid role should be rejected");
    
    let message = err.message();
    assert!(
        message.contains("supervisor"),
        "error should name the invalid value, got: {message}"
    );
}

#[test]
fn server_missing_bind_is_an_error() {
    let path = String::from(
        r#"
role = "server"

[[peers]]
id = "pc"

[security]
key_file = "~/.config/hop/key"
"#,
    );
    let err = load(&path).expect_err("server with no bind should be rejected");
    
    assert!(matches!(err, ConfigError::ServerMissingBind));
    let message = err.message();
    assert!(message.contains("bind"), "got: {message}");
}

#[test]
fn server_missing_peers_is_an_error() {
    let path = String::from(
        r#"
role = "server"
bind = "0.0.0.0:24810"

[security]
key_file = "~/.config/hop/key"
"#,
    );
    let err = load(&path).expect_err("server with no peers should be rejected");
    
    assert!(matches!(err, ConfigError::ServerMissingPeers));
    let message = err.message();
    assert!(message.contains("peers"), "got: {message}");
}

#[test]
fn client_missing_id_is_an_error() {
    let path = String::from(
        r#"
role = "client"
server = "192.168.18.90:24810"

[security]
key_file = "%APPDATA%\\hop\\key"
"#,
    );
    let err = load(&path).expect_err("client with no id should be rejected");
    
    assert!(matches!(err, ConfigError::ClientMissingId));
    let message = err.message();
    assert!(message.contains("id"), "got: {message}");
}

#[test]
fn client_missing_server_is_an_error() {
    let path = String::from(
        r#"
role = "client"
id = "pc"

[security]
key_file = "%APPDATA%\\hop\\key"
"#,
    );
    let err = load(&path).expect_err("client with no server should be rejected");
    
    assert!(matches!(err, ConfigError::ClientMissingServer));
    let message = err.message();
    assert!(message.contains("server"), "got: {message}");
}

#[test]
fn client_missing_return_edge_is_an_error() {
    let path = String::from(
        r#"
role = "client"
id = "pc"
server = "192.168.18.90:24810"

[security]
key_file = "%APPDATA%\\hop\\key"
"#,
    );
    let err =
        load(&path).expect_err("client with no [input] return_edge should be rejected");
    
    assert!(matches!(err, ConfigError::ClientMissingReturnEdge));
    let message = err.message();
    assert!(message.contains("return_edge"), "got: {message}");
}

#[test]
fn client_unknown_return_edge_is_an_error() {
    let path = String::from(
        r#"
role = "client"
id = "pc"
server = "192.168.18.90:24810"

[security]
key_file = "%APPDATA%\\hop\\key"

[input]
return_edge = "diagonal"
"#,
    );
    let err = load(&path).expect_err("an unknown return_edge value should be rejected");
    
    match err {
        ConfigError::UnknownReturnEdge { value } => assert_eq!(value, "diagonal"),
        other => panic!("expected UnknownReturnEdge, got {other:?}"),
    }
}

#[test]
fn server_role_does_not_require_a_return_edge() {
    let path = String::from(SERVER_CONFIG);
    let config = load(&path).expect("server config should not require return_edge");
        assert_eq!(config.input.return_edge, None);
}

#[test]
fn layout_edge_naming_unknown_peer_is_an_error() {
    let path = String::from(
        r#"
role = "server"
bind = "0.0.0.0:24810"

[[peers]]
id = "pc"

[layout]
top = "typo-d-pc"

[security]
key_file = "~/.config/hop/key"

[input]
panic_hotkey = "LeftCtrl+LeftAlt+Escape"
"#,
    );
    let err =
        load(&path).expect_err("layout edge naming unknown peer should be rejected");
    
    assert!(matches!(err, ConfigError::LayoutUnknownPeer { .. }));
    let message = err.message();
    assert!(
        message.contains("typo-d-pc") && message.contains("top"),
        "error should name the offending edge and peer, got: {message}"
    );
}

#[test]
fn tilde_prefixed_path_expands_under_home_directory() {
    let home = "/home/someone".to_string();
    let expanded = expand_config_path("~/.config/hop/key", "security.key_file", &environment(), false)
        .expect("a tilde-prefixed path should expand");
    assert_eq!(expanded, below(&home, ".config/hop/key"));
}

#[test]
fn bare_tilde_expands_to_home_directory() {
    let home = "/home/someone".to_string();
    let expanded = expand_config_path("~", "security.key_file", &environment(), false)
        .expect("a bare tilde should expand to the home directory");
    assert_eq!(expanded, plain(&home));
}

#[test]
fn absolute_path_passes_through_untouched() {
    let expanded = expand_config_path("/etc/hop/key", "security.key_file", &environment(), false)
        .expect("an absolute path should pass through");
    assert_eq!(expanded, plain("/etc/hop/key"));
}

#[test]
fn relative_path_passes_through_unchanged() {
    let expanded = expand_config_path("hop-key", "security.key_file", &environment(), false)
        .expect("a relative path should pass through");
    assert_eq!(expanded, plain("hop-key"));
}

#[test]
fn tilde_other_user_home_is_rejected_rather_than_taken_literally() {
    let err = expand_config_path("~talha/key", "security.key_file", &environment(), false)
        .expect_err("\"~name/...\" should be rejected, not silently written to a literal path");
    assert!(matches!(err, ConfigError::PathExpansion { .. }));
}

#[test]
fn config_load_expands_tilde_key_file_end_to_end() {
    let path = String::from(SERVER_CONFIG);
    let config = load(&path).expect("valid server config should load");
    
    let home = "/home/someone".to_string();
    assert_ne!(
        config.security.key_file,
        plain("~/.config/hop/key"),
        "key_file must not be left as a literal path starting with '~'"
    );
    assert_eq!(
        config.security.key_file,
        below(&home, ".config/hop/key")
    );
}

#[test]
fn bare_discovery_name_as_server_is_rejected() {
    let path = String::from(
        r#"
role = "client"
id = "pc"
server = "talhas-mac"

[security]
key_file = "%APPDATA%\\hop\\key"

[input]
return_edge = "bottom"
"#,
    );
    let err = load(&path)
        .expect_err("a bare discovery name should be rejected: discovery is not implemented");
    
    let message = err.message();
    match &err {
        ConfigError::InvalidServerAddress { value, .. } => {
            assert_eq!(value, "talhas-mac");
        }
        other => panic!("expected InvalidServerAddress, got {other:?}"),
    }
    assert!(
        message.contains("discovery"),
        "error should explain that discovery by name is not implemented, got: {message}"
    );
}

#[test]
fn host_port_server_is_accepted() {
    let path = String::from(CLIENT_CONFIG);
    let config = load(&path).expect("a host:port server address should be accepted");
        assert_eq!(config.server.as_deref(), Some("192.168.18.90:24810"));
}

#[test]
fn ipv6_literal_server_is_accepted() {
    let path = String::from(
        r#"
role = "client"
id = "pc"
server = "[::1]:24810"

[security]
key_file = "%APPDATA%\\hop\\key"

[input]
return_edge = "bottom"
"#,
    );
    let config =
        load(&path).expect("a bracketed IPv6 literal with a port should be accepted");
        assert_eq!(config.server.as_deref(), Some("[::1]:24810"));
}

#[test]
fn server_with_bad_port_is_rejected() {
    let path = String::from(
        r#"
role = "client"
id = "pc"
server = "192.168.18.90:notaport"

[security]
key_file = "%APPDATA%\\hop\\key"

[input]
return_edge = "bottom"
"#,
    );
    let err = load(&path).expect_err("a non-numeric port should be rejected");
        assert!(matches!(err, ConfigError::InvalidServerAddress { .. }));
}

#[test]
fn unbracketed_ipv6_server_is_rejected_with_a_bracket_hint() {
    let path = String::from(
        r#"
role = "client"
id = "pc"
server = "::1:24810"

[security]
key_file = "%APPDATA%\\hop\\key"

[input]
return_edge = "bottom"
"#,
    );
    let err = load(&path)
        .expect_err("an unbracketed address with multiple colons should be rejected");
        let message = err.message();
    assert!(
        message.contains("bracket") || message.contains("["),
        "error should hint at brackets for IPv6, got: {message}"
    );
}

#[test]
fn server_missing_panic_hotkey_is_an_error() {
    let path = String::from(
        r#"
role = "server"
bind = "0.0.0.0:24810"

[[peers]]
id = "pc"

[security]
key_file = "~/.config/hop/key"
"#,
    );
    let err =
        load(&path).expect_err("a server config with no panic_hotkey must be rejected");
    
    assert!(matches!(err, ConfigError::ServerMissingPanicHotkey));
    let message = err.message();
    assert!(
        message.contains("panic_hotkey") && message.contains("emergency"),
        "error should explain why panic_hotkey is required, got: {message}"
    );
}

#[test]
fn server_with_panic_hotkey_is_accepted() {
    let path = String::from(SERVER_CONFIG);
    let config = load(&path).expect("a server config with panic_hotkey should load");
        assert_eq!(
        config.input.panic_hotkey.as_deref(),
        Some("LeftCtrl+LeftAlt+Escape")
    );
}

#[test]
fn client_without_panic_hotkey_is_still_fine() {
    let path = String::from(CLIENT_CONFIG);
    let config = load(&path).expect("a client config needs no panic_hotkey");
        assert_eq!(config.input.panic_hotkey, None);
}

fn appdata() -> Environment {
    Environment {
        vars: vec![("APPDATA".to_string(), "C:\\Users\\talha\\AppData\\Roaming".to_string())],
    }
}

#[test]
fn percent_var_expands_using_the_given_lookup() {
    let expanded = expand_percent_vars_with("%APPDATA%\\hop\\key", "security.key_file", &appdata())
        .expect("a known variable should expand");
    assert_eq!(expanded, "C:\\Users\\talha\\AppData\\Roaming\\hop\\key");
}

#[test]
fn percent_var_reports_the_missing_variable_by_name() {
    let err = expand_percent_vars_with("%NOPE%\\key", "security.key_file", &Environment { vars: Vec::new() })
        .expect_err("an unset variable should be rejected, not treated as literal text");
    match err {
        ConfigError::PathExpansion { reason, .. } => {
            assert!(reason.contains("NOPE"), "got: {reason}");
        }
        other => panic!("expected PathExpansion, got {other:?}"),
    }
}

#[test]
fn percent_var_wrapper_is_a_noop_off_windows() {
    let result = expand_config_path("%APPDATA%\\hop\\key", "security.key_file", &appdata(), false)
        .expect("non-Windows platforms must not attempt %VAR% expansion");
    assert_eq!(result, plain("%APPDATA%\\hop\\key"));
}

#[test]
fn percent_variables_expand_on_windows() {
    assert_eq!(
        expand_config_path("%APPDATA%\\hop\\key", "security.key_file", &appdata(), true),
        Ok(plain("C:\\Users\\talha\\AppData\\Roaming\\hop\\key"))
    );
}

#[test]
fn a_lone_percent_sign_stays() {
    for raw in ["100%", "%", "a%b", "%%", "50%% off"] {
        let want = raw;
        assert_eq!(
            expand_percent_vars_with(raw, "security.key_file", &appdata()),
            Ok(want.to_string()),
            "{raw}"
        );
    }
}

#[test]
fn the_user_profile_stands_in_for_a_missing_home() {
    let windows = Environment {
        vars: vec![("USERPROFILE".to_string(), "C:\\Users\\someone".to_string())],
    };
    assert_eq!(
        expand_tilde_with("~\\key", "security.key_file", &windows),
        Ok(below("C:\\Users\\someone", "key"))
    );
    let err = expand_tilde_with("~/key", "security.key_file", &Environment { vars: Vec::new() }).unwrap_err();
    assert!(matches!(err, ConfigError::PathExpansion { .. }));
}

#[test]
fn addresses_are_a_host_and_a_port() {
    for good in ["192.168.1.42:24810", "host:1", "[::1]:24810", "host:65535"] {
        assert_eq!(validate_server_address(good), Ok(()), "{good}");
    }
    for bad in ["", "host", ":24810", "host:", "host:65536", "host:-1", "[::1]", "[::1:24810", "[]:24810", "::1:24810"] {
        assert!(validate_server_address(bad).is_err(), "{bad}");
    }
}

#[test]
fn a_scale_is_finite_and_positive() {
    assert!(scale_is_usable(0.6f64.to_bits()));
    assert!(scale_is_usable(f64::MIN_POSITIVE.to_bits()));
    assert!(scale_is_usable(f64::MAX.to_bits()));
    for bad in [0.0, -0.0, -1.0, f64::INFINITY, f64::NEG_INFINITY, f64::NAN] {
        assert!(!scale_is_usable(bad.to_bits()), "{bad}");
    }
}

#[test]
fn an_anchor_is_a_fraction_of_the_edge() {
    for good in [0.0f32, -0.0, 0.25, 1.0] {
        assert!(anchor_is_usable(good.to_bits()), "{good}");
    }
    for bad in [1.5f32, -0.25, f32::NAN, f32::INFINITY] {
        assert!(!anchor_is_usable(bad.to_bits()), "{bad}");
    }
}

#[test]
fn scale_and_anchor_are_read_and_checked() {
    let with = |line: &str| {
        load(&format!(
            "role = \"client\"\nid = \"pc\"\nserver = \"host:1\"\n[security]\nkey_file = \"k\"\n[input]\nreturn_edge = \"top\"\n{line}\n"
        ))
    };
    let config = with("mouse_scale = 0.6\nanchor = 0.25").expect("config");
    assert_eq!(config.input.mouse_scale, 0.6f64.to_bits());
    assert_eq!(config.input.anchor, Some(0.25f32.to_bits()));
    let config = with("").expect("config");
    assert_eq!(config.input.mouse_scale, 1.0f64.to_bits());
    assert_eq!(config.input.anchor, None);
    assert!(matches!(with("mouse_scale = 0.0"), Err(ConfigError::InvalidValue { .. })));
    assert!(matches!(with("anchor = 1.5"), Err(ConfigError::InvalidValue { .. })));
}

#[test]
fn the_key_file_is_kept_as_it_was_written() {
    let config = load(SERVER_CONFIG).expect("config");
    assert_eq!(config.security.key_file_written, "~/.config/hop/key");
}

#[test]
fn a_peer_without_an_id_is_named_by_its_place() {
    let raw = RawPeer {
        id: None,
        remap: Vec::new(),
    };
    assert_eq!(
        Config::peer_from_raw(3, &raw).unwrap_err().message(),
        "config is missing required field 'peers[3].id'"
    );
}

#[test]
fn peers_are_found_by_their_id() {
    let config = load(SERVER_CONFIG).expect("config");
    assert_eq!(position_of(&config.peers, "pc"), Some(0));
    assert_eq!(position_of(&config.peers, "laptop"), None);
    assert!(config.validate().is_ok());
}

#[test]
fn errors_about_files_have_words() {
    let io = ConfigError::Io {
        path: "/etc/hop".to_string(),
        source: "no such file".to_string(),
    };
    assert_eq!(io.message(), "could not read config file /etc/hop: no such file");
    let parse = ConfigError::Toml {
        path: "/etc/hop".to_string(),
        source: "line 1".to_string(),
    };
    assert_eq!(parse.message(), "could not parse /etc/hop as TOML: line 1");
}

#[test]
fn two_percent_signs_in_a_row_stay_and_what_follows_is_read() {
    let env = Environment {
        vars: vec![("A".to_string(), "x".to_string())],
    };
    for (raw, want) in [("50%%/%A%", "50%%/x"), ("%%%A%", "%%x"), ("%A%%%", "x%%"), ("%%%%", "%%%%"), ("%%%", "%%%")] {
        assert_eq!(
            expand_percent_vars_with(raw, "security.key_file", &env),
            Ok(want.to_string()),
            "{raw}"
        );
    }
}
