use hop::config::{
    Config, Double, Environment, RawConfig, RawDiscovery, RawInput, RawPeer, RawSecurity, Single,
};
use hop::settings::{default_config_path, quote, Settings};

fn text_at(table: &toml::Table, name: &str) -> Option<String> {
    table.get(name).map(|value| value.as_str().expect("a string").to_string())
}

fn table_at<'a>(table: &'a toml::Table, name: &str) -> Option<&'a toml::Table> {
    table.get(name).map(|value| value.as_table().expect("a table"))
}

fn pairs_at(table: &toml::Table, name: &str) -> Vec<(String, String)> {
    match table_at(table, name) {
        None => Vec::new(),
        Some(inner) => inner.keys().map(|key| (key.clone(), text_at(inner, key).unwrap())).collect(),
    }
}

/// What a file says, read with an ordinary TOML parser.
fn raw_config(text: &str) -> RawConfig {
    let table: toml::Table = text.parse().expect("TOML");
    let mut peers = Vec::new();
    if let Some(listed) = table.get("peers") {
        for peer in listed.as_array().expect("an array") {
            let peer = peer.as_table().expect("a table");
            peers.push(RawPeer {
                id: text_at(peer, "id"),
                remap: pairs_at(peer, "remap"),
            });
        }
    }
    RawConfig {
        role: text_at(&table, "role"),
        bind: text_at(&table, "bind"),
        id: text_at(&table, "id"),
        server: text_at(&table, "server"),
        peers,
        layout: pairs_at(&table, "layout"),
        discovery: table_at(&table, "discovery").map(|t| RawDiscovery {
            enabled: t.get("enabled").map(|v| v.as_bool().expect("a boolean")),
        }),
        security: table_at(&table, "security").map(|t| RawSecurity {
            key_file: text_at(t, "key_file"),
        }),
        input: table_at(&table, "input").map(|t| RawInput {
            panic_hotkey: text_at(t, "panic_hotkey"),
            return_edge: text_at(t, "return_edge"),
            mouse_scale: t.get("mouse_scale").map(|v| {
                let scale = v.as_float().expect("a number");
                Double {
                    bits: scale.to_bits(),
                    written: format!("{scale:?}"),
                }
            }),
            anchor: t.get("anchor").map(|v| {
                let anchor = v.as_float().expect("a number") as f32;
                Single {
                    bits: anchor.to_bits(),
                    written: format!("{anchor:?}"),
                }
            }),
        }),
    }
}

fn environment() -> Environment {
    Environment {
        vars: vec![("HOME".to_string(), "/home/someone".to_string())],
    }
}

fn sample() -> Settings {
    Settings {
        server: "192.168.1.42:24810".into(),
        id: "pc".into(),
        key_file: "%APPDATA%\\hop\\key".into(),
        return_edge: "bottom".into(),
        mouse_scale: 0.6f64.to_bits(),
        anchor: Some(0.25f32.to_bits()),
    }
}

fn written(settings: &Settings) -> String {
    let scale = format!("{:?}", f64::from_bits(settings.mouse_scale));
    let anchor = format!("{:?}", f32::from_bits(settings.anchor.unwrap_or(0)));
    settings.to_toml(&scale, &anchor)
}

fn round_trip(settings: &Settings) -> Settings {
    let scale = format!("{:?}", f64::from_bits(settings.mouse_scale));
    let anchor = format!("{:?}", f32::from_bits(settings.anchor.unwrap_or(0)));
    let file = settings.save(&scale, &anchor).expect("save");
    let config = Config::from_raw(&raw_config(&file), &environment(), false).expect("load");
    Settings::load(Some(&config))
}

#[test]
fn everything_the_window_writes_loads_back_unchanged() {
    let original = sample();
    let loaded = round_trip(&original);
    assert!(loaded.same_as(&original));
    assert_eq!(loaded.server, original.server);
    assert_eq!(loaded.id, original.id);
    assert_eq!(loaded.key_file, original.key_file);
    assert_eq!(loaded.return_edge, original.return_edge);
    assert_eq!(loaded.mouse_scale, original.mouse_scale);
    assert_eq!(loaded.anchor, original.anchor);
}

#[test]
fn an_unset_anchor_survives_as_unset_rather_than_becoming_zero() {
    let mut settings = sample();
    settings.anchor = None;
    assert_eq!(round_trip(&settings).anchor, None);
}

#[test]
fn a_windows_path_survives_tomls_own_escaping() {
    let mut settings = sample();
    settings.key_file = "C:\\Users\\someone\\hop\\key".into();
    assert_eq!(
        round_trip(&settings).key_file,
        "C:\\Users\\someone\\hop\\key"
    );
}

#[test]
fn a_whole_number_speed_is_written_as_a_float() {
    let mut settings = sample();
    settings.mouse_scale = 1.0f64.to_bits();
    assert!(written(&settings).contains("mouse_scale = 1.0"));
    assert_eq!(round_trip(&settings).mouse_scale, 1.0f64.to_bits());
}

#[test]
fn a_missing_config_file_reads_as_defaults_not_an_error() {
    let settings = Settings::load(None);
    assert!(settings.same_as(&Settings::default()));
}

#[test]
fn settings_hop_could_not_load_are_refused_before_they_are_written() {
    let bad = [
        (
            Settings {
                server: String::new(),
                ..sample()
            },
            "empty address",
        ),
        (
            Settings {
                server: "192.168.1.42".into(),
                ..sample()
            },
            "no port",
        ),
        (
            Settings {
                return_edge: "diagonal".into(),
                ..sample()
            },
            "bad edge",
        ),
        (
            Settings {
                mouse_scale: 0.0f64.to_bits(),
                ..sample()
            },
            "zero speed",
        ),
        (
            Settings {
                mouse_scale: (-1.0f64).to_bits(),
                ..sample()
            },
            "negative speed",
        ),
        (
            Settings {
                anchor: Some(1.5f32.to_bits()),
                ..sample()
            },
            "anchor past the end",
        ),
        (
            Settings {
                id: "  ".into(),
                ..sample()
            },
            "blank id",
        ),
    ];
    for (settings, what) in bad {
        assert!(settings.validate().is_err(), "{what} should be refused");
        assert!(
            settings.save("1.0", "0.5").is_err(),
            "{what} should not be written"
        );
    }
}

#[test]
fn quoted_text_reads_back() {
    assert_eq!(quote("plain"), "\"plain\"");
    assert_eq!(quote("a\\b\"c"), "\"a\\\\b\\\"c\"");
    for text in ["", "C:\\Users\\x", "she said \"hi\"", "caf\u{e9} \u{1f600}"] {
        let table: toml::Table = format!("v = {}", quote(text)).parse().expect("TOML");
        assert_eq!(table["v"].as_str(), Some(text));
    }
}

#[test]
fn settings_are_alike_by_value() {
    let mut other = sample().duplicate();
    assert!(sample().same_as(&other));
    other.id = "laptop".into();
    assert!(!sample().same_as(&other));

    let mut zero = sample();
    zero.mouse_scale = 0.0f64.to_bits();
    let mut minus_zero = sample();
    minus_zero.mouse_scale = (-0.0f64).to_bits();
    assert!(zero.same_as(&minus_zero));

    let mut unknown = sample();
    unknown.anchor = Some(f32::NAN.to_bits());
    assert!(!unknown.same_as(&unknown));
}

#[test]
fn the_file_lives_where_the_system_keeps_such_files() {
    assert_eq!(
        default_config_path(Some("/home/someone".to_string()), false),
        ["/home/someone", ".config", "hop", "config.toml"]
    );
    assert_eq!(
        default_config_path(Some("C:\\AppData".to_string()), true),
        ["C:\\AppData", "hop", "config.toml"]
    );
    assert_eq!(default_config_path(None, true), [".", "hop", "config.toml"]);
}

#[test]
fn an_address_that_cannot_be_dialled_is_not_saved() {
    for server in ["192.168.1.42:notaport", "192.168.1.42:0", ":24810", "a:b:c", "::1:24810", "[::1]24810"] {
        let settings = Settings { server: server.into(), ..sample() };
        assert!(settings.save("0.6", "0.25").is_err(), "{server}");
    }
    assert_eq!(
        Settings { server: "192.168.1.42:notaport".into(), ..sample() }.validate(),
        Err("the server address cannot be used: 'notaport' is not a valid port number (1-65535)".to_string())
    );
    assert!(Settings { server: "[::1]:24810".into(), ..sample() }.save("0.6", "0.25").is_ok());
}

#[test]
fn text_that_a_file_cannot_hold_is_not_saved() {
    for bad in ["a\nb", "a\u{7f}", "\u{0}a"] {
        assert!(Settings { id: bad.into(), ..sample() }.save("0.6", "0.25").is_err());
        assert!(Settings { key_file: bad.into(), ..sample() }.save("0.6", "0.25").is_err());
        assert!(Settings { server: format!("{bad}:1"), ..sample() }.save("0.6", "0.25").is_err());
    }
    let odd = Settings { id: "a\t\"b\\".into(), ..sample() };
    let saved: toml::Table = odd.save("0.6", "0.25").expect("saved").parse().expect("TOML");
    assert_eq!(saved["id"].as_str(), Some("a\t\"b\\"));
}

#[test]
fn a_key_file_that_no_environment_can_find_is_not_saved() {
    for (key_file, fine) in [("~bob/key", false), ("~b", false), ("~/key", true), ("~", true), ("~\\key", true)] {
        let settings = Settings { key_file: key_file.into(), ..sample() };
        assert_eq!(settings.save("0.6", "0.25").is_ok(), fine, "{key_file}");
    }
}
