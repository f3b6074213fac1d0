//! Starting up: the key, the role, and what each role needs.
//!
//! Every error names the file, field or address at fault. Files, sockets
//! and the command line are the caller's.

use vstd::prelude::*;

use crate::config;
use crate::config::{Config, ConfigError, Layout, Role};
use crate::crypto::SharedKey;
use crate::keyfile;
use crate::keyfile::{key_from_text, key_text};
use crate::keymap;
use crate::keymap::parse_combo;
use crate::keys::Usage;
use crate::macos::capture::Edge;
use crate::text;
use crate::windows::return_edge;
use crate::windows::return_edge::ReturnEdge;

verus! {

/// Everything that can go wrong making a key or running.
#[derive(Debug)]
pub enum RunError {
    Config(ConfigError),
    KeygenNeedsDestination,
    KeyFileExists(String),
    CreateDir { path: String, source: String },
    KeyWrite { path: String, source: String },
    KeyRead { path: String, source: String },
    KeyDecode { path: String, reason: String },
    Random,
    HotkeyParse { raw: String, bad: String },
    MissingRoleField { role: String, field: String },
    WrongRoleForPlatform { role: String, platform: String, detail: String },
    Capture(String),
    Bind { addr: String, source: String },
    ServerMissingLayoutEdge,
}

impl RunError {
    /// What went wrong and how to mend it, for a person to read.
    pub fn message(&self) -> (r: String)
        ensures
            r@ == match *self {
                RunError::Config(e) => e.spec_message(),
                RunError::KeygenNeedsDestination =>
                    "keygen needs either --out <path> or --config <path> pointing at a config with [security] key_file set"@,
                RunError::KeyFileExists(path) => "key file "@ + path@
                    + " already exists; refusing to overwrite it without --force (a mismatched key on the two machines produces a baffling authentication failure, so overwriting one by accident is worse than failing here)"@,
                RunError::CreateDir { path, source } => "could not create directory "@ + path@ + ": "@
                    + source@,
                RunError::KeyWrite { path, source } => "could not write key file "@ + path@ + ": "@ + source@,
                RunError::KeyRead { path, source } => "could not read key file "@ + path@ + ": "@ + source@,
                RunError::KeyDecode { path, reason } => "key file "@ + path@
                    + " does not contain a valid key ("@ + reason@
                    + "); regenerate it with `hop keygen` and copy the new file to both machines"@,
                RunError::Random => "system RNG unavailable while generating a key"@,
                RunError::HotkeyParse { raw, bad } => "input.panic_hotkey = \""@ + raw@
                    + "\" is not a valid hotkey: unknown key name '"@ + bad@
                    + "'; expected names like \"LeftCtrl\", \"LeftAlt\", \"Escape\" joined with '+', for example \"LeftCtrl+LeftAlt+Escape\""@,
                RunError::MissingRoleField { role, field } => "role = \""@ + role@ + "\" requires '"@ + field@
                    + "', which the config passed validation without; this is a bug in Config::load, not something a user can fix by editing the config"@,
                RunError::WrongRoleForPlatform { role, platform, detail } => "role = \""@ + role@
                    + "\" is not supported on "@ + platform@ + ": "@ + detail@,
                RunError::Capture(reason) => "failed to start macOS input capture: "@ + reason@,
                RunError::Bind { addr, source } => "failed to bind "@ + addr@ + ": "@ + source@,
                RunError::ServerMissingLayoutEdge =>
                    "role = \"server\" requires a [layout] entry naming the edge input crosses to reach the peer (for example `top = \"pc\"` if the peer's monitor sits above this Mac); with none configured, the cursor could never hand focus over"@,
            },
    {
        match self {
            RunError::Config(e) => e.message(),
            RunError::KeygenNeedsDestination =>
                "keygen needs either --out <path> or --config <path> pointing at a config with [security] key_file set".to_owned(),
            RunError::KeyFileExists(path) => "key file ".to_owned().concat(path.as_str()).concat(
                " already exists; refusing to overwrite it without --force (a mismatched key on the two machines produces a baffling authentication failure, so overwriting one by accident is worse than failing here)",
            ),
            RunError::CreateDir { path, source } => "could not create directory ".to_owned().concat(
                path.as_str(),
            ).concat(": ").concat(source.as_str()),
            RunError::KeyWrite { path, source } => "could not write key file ".to_owned().concat(
                path.as_str(),
            ).concat(": ").concat(source.as_str()),
            RunError::KeyRead { path, source } => "could not read key file ".to_owned().concat(
                path.as_str(),
            ).concat(": ").concat(source.as_str()),
            RunError::KeyDecode { path, reason } => "key file ".to_owned().concat(path.as_str()).concat(
                " does not contain a valid key (",
            ).concat(reason.as_str()).concat(
                "); regenerate it with `hop keygen` and copy the new file to both machines",
            ),
            RunError::Random => "system RNG unavailable while generating a key".to_owned(),
            RunError::HotkeyParse { raw, bad } => "input.panic_hotkey = \"".to_owned().concat(
                raw.as_str(),
            ).concat("\" is not a valid hotkey: unknown key name '").concat(bad.as_str()).concat(
                "'; expected names like \"LeftCtrl\", \"LeftAlt\", \"Escape\" joined with '+', for example \"LeftCtrl+LeftAlt+Escape\"",
            ),
            RunError::MissingRoleField { role, field } => "role = \"".to_owned().concat(role.as_str()).concat(
                "\" requires '",
            ).concat(field.as_str()).concat(
                "', which the config passed validation without; this is a bug in Config::load, not something a user can fix by editing the config",
            ),
            RunError::WrongRoleForPlatform { role, platform, detail } => "role = \"".to_owned().concat(
                role.as_str(),
            ).concat("\" is not supported on ").concat(platform.as_str()).concat(": ").concat(
                detail.as_str(),
            ),
            RunError::Capture(reason) => "failed to start macOS input capture: ".to_owned().concat(
                reason.as_str(),
            ),
            RunError::Bind { addr, source } => "failed to bind ".to_owned().concat(addr.as_str()).concat(
                ": ",
            ).concat(source.as_str()),
            RunError::ServerMissingLayoutEdge =>
                "role = \"server\" requires a [layout] entry naming the edge input crosses to reach the peer (for example `top = \"pc\"` if the peer's monitor sits above this Mac); with none configured, the cursor could never hand focus over".to_owned(),
        }
    }
}

/// What to write where.
#[derive(Debug)]
pub struct NewKey {
    pub path: String,
    pub text: String,
}

/// Makes a fresh shared key, as the text to write to `destination`.
/// `exists` says whether there is a file already: it is not overwritten
/// unless `force` is set, since silently replacing a key breaks the pairing
/// with the other machine.
///
/// The key itself comes from the system's random numbers, so all that is
/// promised of the text is that it holds a key.
pub fn keygen(destination: Option<String>, exists: bool, force: bool) -> (r: Result<NewKey, RunError>)
    ensures
        match destination {
            None => r matches Err(e) && e is KeygenNeedsDestination,
            Some(path) => if exists && !force {
                r matches Err(RunError::KeyFileExists(p)) && p@ == path@
            } else {
                match r {
                    Ok(new) => new.path@ == path@ && exists|key: Seq<u8>|
                        key.len() == 32 && new.text@ == #[trigger] keyfile::encoded(key),
                    Err(e) => e is Random,
                }
            },
        },
{
    let path: String = match destination {
        None => {
            return Err(RunError::KeygenNeedsDestination);
        },
        Some(path) => path,
    };
    if exists && !force {
        return Err(RunError::KeyFileExists(path));
    }
    match SharedKey::generate() {
        Err(_) => Err(RunError::Random),
        Ok(key) => {
            let text: String = key_text(&key);
            assert(text@ == keyfile::encoded(key@));
            Ok(NewKey { path, text })
        },
    }
}

/// The key in a key file, given what became of reading it.
pub fn load_key(path: &str, read: Result<String, String>) -> (r: Result<SharedKey, RunError>)
    ensures
        match read {
            Err(reason) => r matches Err(RunError::KeyRead { path: p, source }) && p@ == path@ && source@
                == reason@,
            Ok(content) => match r {
                Ok(key) => keyfile::holds(content@, key@),
                Err(e) => e matches RunError::KeyDecode { path: p, reason } && p@ == path@
                    && keyfile::refused(content@, reason@),
            },
        },
{
    match read {
        Err(source) => Err(RunError::KeyRead { path: path.to_owned(), source }),
        Ok(content) => match key_from_text(content.as_str()) {
            Ok(key) => Ok(key),
            Err(reason) => Err(RunError::KeyDecode { path: path.to_owned(), reason }),
        },
    }
}

/// The keys of the escape that a configuration sets. None at all if it
/// sets none; one that cannot be read is an error now rather than at the
/// moment it is needed.
pub fn parse_panic_hotkey(config: &Config) -> (r: Result<Vec<Usage>, RunError>)
    ensures
        match config.input.panic_hotkey {
            None => r matches Ok(keys) && keys@.len() == 0,
            Some(raw) => match keymap::keys_named(text::pieces(raw@, '+')) {
                Ok(keys) => r matches Ok(got) && got@ == keys,
                Err(bad) => r matches Err(RunError::HotkeyParse { raw: given, bad: name }) && given@ == raw@
                    && name@ == bad,
            },
        },
{
    match &config.input.panic_hotkey {
        None => Ok(Vec::new()),
        Some(raw) => match parse_combo(raw.as_str()) {
            Ok(keys) => Ok(keys),
            Err(bad) => Err(RunError::HotkeyParse { raw: raw.clone(), bad }),
        },
    }
}

/// The edge of a layout that counts: the first that has a peer, of the
/// top, the right, the bottom and the left.
pub open spec fn edge_of(layout: Layout) -> Option<Edge> {
    if layout.top is Some {
        Some(Edge::Top)
    } else if layout.right is Some {
        Some(Edge::Right)
    } else if layout.bottom is Some {
        Some(Edge::Bottom)
    } else if layout.left is Some {
        Some(Edge::Left)
    } else {
        None
    }
}

/// The one edge that the server watches. A layout can name a peer at each
/// edge, but only one edge is watched.
pub fn configured_edge(layout: &Layout) -> (r: Option<Edge>)
    ensures
        r == edge_of(*layout),
{
    if layout.top.is_some() {
        Some(Edge::Top)
    } else if layout.right.is_some() {
        Some(Edge::Right)
    } else if layout.bottom.is_some() {
        Some(Edge::Bottom)
    } else if layout.left.is_some() {
        Some(Edge::Left)
    } else {
        None
    }
}

/// Where this is running.
#[derive(Debug, Clone, PartialEq, Eq)]
pub enum Platform {
    MacOs,
    Windows,
    /// The system's name.
    Other(String),
}

/// What a role is called.
pub open spec fn role_name(role: Role) -> Seq<char> {
    match role {
        Role::Server => "server"@,
        Role::Client => "client"@,
    }
}

/// Whether a platform can take a role: the Mac is the server, the PC the
/// client.
pub fn dispatch(role: Role, platform: &Platform) -> (r: Result<(), RunError>)
    ensures
        match (role, *platform) {
            (Role::Server, Platform::MacOs) => r is Ok,
            (Role::Client, Platform::Windows) => r is Ok,
            (_, Platform::MacOs) => r matches Err(
                RunError::WrongRoleForPlatform { role: name, platform: system, detail },
            ) && name@ == "client"@ && system@ == "macOS"@ && detail@
                == "hop's macOS build only implements the server role (input capture); run role = \"client\" on the Windows machine instead"@,
            (_, Platform::Windows) => r matches Err(
                RunError::WrongRoleForPlatform { role: name, platform: system, detail },
            ) && name@ == "server"@ && system@ == "Windows"@ && detail@
                == "hop's Windows build only implements the client role (input injection); run role = \"server\" on the Mac instead"@,
            (_, Platform::Other(os)) => r matches Err(
                RunError::WrongRoleForPlatform { role: name, platform: system, detail },
            ) && name@ == role_name(role) && system@ == os@ && detail@
                == "hop only runs on macOS (server, input capture) and Windows (client, input injection)"@,
        },
{
    match (role, platform) {
        (Role::Server, Platform::MacOs) => Ok(()),
        (Role::Client, Platform::Windows) => Ok(()),
        (Role::Client, Platform::MacOs) => Err(
            RunError::WrongRoleForPlatform {
                role: "client".to_owned(),
                platform: "macOS".to_owned(),
                detail:
                    "hop's macOS build only implements the server role (input capture); run role = \"client\" on the Windows machine instead".to_owned(),
            },
        ),
        (Role::Server, Platform::Windows) => Err(
            RunError::WrongRoleForPlatform {
                role: "server".to_owned(),
                platform: "Windows".to_owned(),
                detail:
                    "hop's Windows build only implements the client role (input injection); run role = \"server\" on the Mac instead".to_owned(),
            },
        ),
        (_, Platform::Other(os)) => Err(
            RunError::WrongRoleForPlatform {
                role: match role {
                    Role::Server => "server".to_owned(),
                    Role::Client => "client".to_owned(),
                },
                platform: os.clone(),
                detail:
                    "hop only runs on macOS (server, input capture) and Windows (client, input injection)".to_owned(),
            },
        ),
    }
}

/// What a client runs with.
#[derive(Debug)]
pub struct ClientPlan {
    pub id: String,
    pub server: String,
    pub return_edge: ReturnEdge,
}

/// What is missing in a client's configuration, if anything is.
pub open spec fn client_lacks(config: Config) -> Option<Seq<char>> {
    if config.id is None {
        Some("id"@)
    } else if config.server is None {
        Some("server"@)
    } else if config.input.return_edge is None || return_edge::edge_named(
        config.input.return_edge->0@,
    ) is None {
        Some("input.return_edge"@)
    } else {
        None
    }
}

/// What a client runs with. A configuration that was validated lacks
/// nothing.
pub fn run_client(config: &Config) -> (r: Result<ClientPlan, RunError>)
    ensures
        match client_lacks(*config) {
            Some(field) => r matches Err(RunError::MissingRoleField { role, field: got }) && role@ == "client"@
                && got@ == field,
            None => r matches Ok(plan) && Some(plan.id@) == config::said(config.id) && Some(plan.server@)
                == config::said(config.server) && Some(plan.return_edge) == return_edge::edge_named(
                config.input.return_edge->0@,
            ),
        },
{
    let id: String = match &config.id {
        Some(id) => id.clone(),
        None => {
            return Err(
                RunError::MissingRoleField { role: "client".to_owned(), field: "id".to_owned() },
            );
        },
    };
    let server: String = match &config.server {
        Some(server) => server.clone(),
        None => {
            return Err(
                RunError::MissingRoleField { role: "client".to_owned(), field: "server".to_owned() },
            );
        },
    };
    let edge: Option<ReturnEdge> = match &config.input.return_edge {
        Some(raw) => ReturnEdge::parse(raw.as_str()),
        None => None,
    };
    match edge {
        Some(return_edge) => Ok(ClientPlan { id, server, return_edge }),
        None => Err(
            RunError::MissingRoleField {
                role: "client".to_owned(),
                field: "input.return_edge".to_owned(),
            },
        ),
    }
}

/// What a server runs with.
#[derive(Debug)]
pub struct ServerPlan {
    pub bind: String,
    pub edge: Edge,
}

/// What a server runs with. A layout without any edge would never hand
/// focus over, so that is an error.
pub fn run_server(config: &Config) -> (r: Result<ServerPlan, RunError>)
    ensures
        match config.bind {
            None => r matches Err(RunError::MissingRoleField { role, field }) && role@ == "server"@ && field@
                == "bind"@,
            Some(bind) => match edge_of(config.layout) {
                None => r matches Err(e) && e is ServerMissingLayoutEdge,
                Some(edge) => r matches Ok(plan) && plan.bind@ == bind@ && plan.edge == edge,
            },
        },
{
    let bind: String = match &config.bind {
        Some(bind) => bind.clone(),
        None => {
            return Err(
                RunError::MissingRoleField { role: "server".to_owned(), field: "bind".to_owned() },
            );
        },
    };
    match configured_edge(&config.layout) {
        None => Err(RunError::ServerMissingLayoutEdge),
        Some(edge) => Ok(ServerPlan { bind, edge }),
    }
}

/// A client's configuration that loads lacks nothing that running needs.
pub proof fn law_a_loaded_client_can_run(config: Config)
    requires
        config.role == Role::Client,
        config::fault_in(config@) is None,
    ensures
        client_lacks(config) is None,
{
}

/// The edge that is watched has a peer, and where several have one the top
/// comes before the right, the right before the bottom, and the bottom before
/// the left. Without any peer there is none to watch.
pub proof fn law_the_watched_edge_has_a_peer(layout: Layout)
    ensures
        layout.top is Some ==> edge_of(layout) == Some(Edge::Top),
        edge_of(layout) == Some(Edge::Top) ==> layout.top is Some,
        edge_of(layout) == Some(Edge::Right) <==> layout.right is Some && layout.top is None,
        edge_of(layout) == Some(Edge::Bottom) <==> layout.bottom is Some && layout.right is None && layout.top is None,
        edge_of(layout) == Some(Edge::Left) <==> layout.left is Some && layout.bottom is None && layout.right is None
            && layout.top is None,
        edge_of(layout) is None <==> layout.top is None && layout.bottom is None && layout.left is None
            && layout.right is None,
{
}

/// A client runs exactly with an id, a server and an edge's name to go back
/// by; the first that it lacks is named.
pub proof fn law_a_client_needs_an_id_a_server_and_an_edge(config: Config)
    ensures
        client_lacks(config) is None <==> config.id is Some && config.server is Some && (
        config.input.return_edge matches Some(edge) && (edge@ == "top"@ || edge@ == "bottom"@ || edge@ == "left"@ || edge@
            == "right"@)),
        config.id is None ==> client_lacks(config) == Some("id"@),
        config.id is Some && config.server is None ==> client_lacks(config) == Some("server"@),
        config.id is Some && config.server is Some && client_lacks(config) is Some ==> client_lacks(config) == Some(
            "input.return_edge"@,
        ),
        role_name(Role::Server) == "server"@,
        role_name(Role::Client) == "client"@,
{
    if let Some(edge) = config.input.return_edge {
        return_edge::law_an_edge_goes_by_its_name(edge@);
    }
}

} // verus!
