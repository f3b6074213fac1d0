//! The configuration: what a file may say, and what is wrong with it.
//!
//! A configuration file is user input. Whatever is wrong with it comes back
//! as an error that names the field or key at fault; nothing is silently
//! ignored. Reading the file, its syntax and the environment are the
//! caller's.

use vstd::prelude::*;

use crate::keymap;
use crate::keymap::lookup;
use crate::keys::Usage;
use crate::remap::RemapTable;
use crate::text;
use crate::text::{decimal_text, same};

verus! {

/// Whether this machine listens for peers to connect or dials out to one.
#[derive(Debug, Clone, Copy, PartialEq, Eq, Structural)]
pub enum Role {
    Server,
    Client,
}

/// One peer that may connect: the id it presents during the handshake, and
/// the rules for its keys.
#[derive(Debug, Clone)]
pub struct PeerConfig {
    pub id: String,
    pub remap: RemapTable,
}

/// Which peer sits at each edge of the screen.
#[derive(Debug, Clone, PartialEq, Eq)]
pub struct Layout {
    pub top: Option<String>,
    pub bottom: Option<String>,
    pub left: Option<String>,
    pub right: Option<String>,
}

impl Default for Layout {
    fn default() -> (r: Layout)
        ensures
            r == (Layout { top: None, bottom: None, left: None, right: None }),
    {
        Layout { top: None, bottom: None, left: None, right: None }
    }
}

#[derive(Debug, Clone, Copy, PartialEq, Eq)]
pub struct DiscoveryConfig {
    pub enabled: bool,
}

impl Default for DiscoveryConfig {
    fn default() -> (r: DiscoveryConfig)
        ensures
            r == (DiscoveryConfig { enabled: false }),
    {
        DiscoveryConfig { enabled: false }
    }
}

/// A file's path: a base, and what lies below it.
#[derive(Debug, Clone, PartialEq, Eq)]
pub struct FilePath {
    pub base: String,
    pub below: Option<String>,
}

#[derive(Debug, Clone, PartialEq, Eq)]
pub struct SecurityConfig {
    /// Where the shared key lives.
    pub key_file: FilePath,
    /// The same path as the file gives it, with nothing expanded.
    pub key_file_written: String,
}

/// The bits of the number one in double precision.
pub const ONE: u64 = 0x3FF0_0000_0000_0000;

#[derive(Debug, Clone, PartialEq, Eq)]
pub struct InputConfig {
    /// The emergency escape that returns control to this machine. A server
    /// must have one; a client never captures input and needs none.
    pub panic_hotkey: Option<String>,
    /// The edge of this machine's screen that hands focus back to the
    /// server. A client must have one.
    pub return_edge: Option<String>,
    /// What motion is multiplied by: the bits of a double precision number.
    pub mouse_scale: u64,
    /// Where along the edge the machines line up, as a fraction of it: the
    /// bits of a single precision number.
    pub anchor: Option<u32>,
}

impl Default for InputConfig {
    fn default() -> (r: InputConfig)
        ensures
            r == (InputConfig { panic_hotkey: None, return_edge: None, mouse_scale: ONE, anchor: None }),
    {
        InputConfig { panic_hotkey: None, return_edge: None, mouse_scale: ONE, anchor: None }
    }
}

/// A fully validated configuration, for both roles.
#[derive(Debug, Clone)]
pub struct Config {
    pub role: Role,
    /// Server only: the address to listen on.
    pub bind: Option<String>,
    /// Client only: the id this machine presents during the handshake.
    pub id: Option<String>,
    /// Client only: the server to dial.
    pub server: Option<String>,
    /// Server only: the peers allowed to connect.
    pub peers: Vec<PeerConfig>,
    pub layout: Layout,
    pub discovery: DiscoveryConfig,
    pub security: SecurityConfig,
    pub input: InputConfig,
}

/// Every way in which a configuration can be unusable. Each names what is
/// at fault, so that it can be fixed without guessing.
#[derive(Debug, Clone, PartialEq, Eq)]
pub enum ConfigError {
    Io { path: String, source: String },
    Toml { path: String, source: String },
    MissingField { field: String },
    InvalidValue { field: String, value: String },
    UnknownRemapKey { peer: String, key: String },
    UnknownRemapValue { peer: String, key: String, value: String },
    UnknownEdge { edge: String },
    ServerMissingBind,
    ServerMissingPeers,
    ClientMissingId,
    ClientMissingServer,
    LayoutUnknownPeer { edge: String, peer: String },
    ClientMissingReturnEdge,
    UnknownReturnEdge { value: String },
    ServerMissingPanicHotkey,
    PathExpansion { field: String, raw: String, reason: String },
    InvalidServerAddress { value: String, reason: String },
}

/// What a [`ConfigError`] says.
pub enum Fault {
    Io { path: Seq<char>, source: Seq<char> },
    Toml { path: Seq<char>, source: Seq<char> },
    MissingField { field: Seq<char> },
    InvalidValue { field: Seq<char>, value: Seq<char> },
    UnknownRemapKey { peer: Seq<char>, key: Seq<char> },
    UnknownRemapValue { peer: Seq<char>, key: Seq<char>, value: Seq<char> },
    UnknownEdge { edge: Seq<char> },
    ServerMissingBind,
    ServerMissingPeers,
    ClientMissingId,
    ClientMissingServer,
    LayoutUnknownPeer { edge: Seq<char>, peer: Seq<char> },
    ClientMissingReturnEdge,
    UnknownReturnEdge { value: Seq<char> },
    ServerMissingPanicHotkey,
    PathExpansion { field: Seq<char>, raw: Seq<char>, reason: Seq<char> },
    InvalidServerAddress { value: Seq<char>, reason: Seq<char> },
}

impl View for ConfigError {
    type V = Fault;

    open spec fn view(&self) -> Fault {
        match *self {
            ConfigError::Io { path, source } => Fault::Io { path: path@, source: source@ },
            ConfigError::Toml { path, source } => Fault::Toml { path: path@, source: source@ },
            ConfigError::MissingField { field } => Fault::MissingField { field: field@ },
            ConfigError::InvalidValue { field, value } => Fault::InvalidValue {
                field: field@,
                value: value@,
            },
            ConfigError::UnknownRemapKey { peer, key } => Fault::UnknownRemapKey {
                peer: peer@,
                key: key@,
            },
            ConfigError::UnknownRemapValue { peer, key, value } => Fault::UnknownRemapValue {
                peer: peer@,
                key: key@,
                value: value@,
            },
            ConfigError::UnknownEdge { edge } => Fault::UnknownEdge { edge: edge@ },
            ConfigError::ServerMissingBind => Fault::ServerMissingBind,
            ConfigError::ServerMissingPeers => Fault::ServerMissingPeers,
            ConfigError::ClientMissingId => Fault::ClientMissingId,
            ConfigError::ClientMissingServer => Fault::ClientMissingServer,
            ConfigError::LayoutUnknownPeer { edge, peer } => Fault::LayoutUnknownPeer {
                edge: edge@,
                peer: peer@,
            },
            ConfigError::ClientMissingReturnEdge => Fault::ClientMissingReturnEdge,
            ConfigError::UnknownReturnEdge { value } => Fault::UnknownReturnEdge { value: value@ },
            ConfigError::ServerMissingPanicHotkey => Fault::ServerMissingPanicHotkey,
            ConfigError::PathExpansion { field, raw, reason } => Fault::PathExpansion {
                field: field@,
                raw: raw@,
                reason: reason@,
            },
            ConfigError::InvalidServerAddress { value, reason } => Fault::InvalidServerAddress {
                value: value@,
                reason: reason@,
            },
        }
    }
}

impl ConfigError {
    /// What is wrong and how to mend it, for a person to read.
    pub open spec fn spec_message(self) -> Seq<char> {
        match self {
            ConfigError::Io { path, source } => "could not read config file "@ + path@ + ": "@ + source@,
            ConfigError::Toml { path, source } => "could not parse "@ + path@ + " as TOML: "@ + source@,
            ConfigError::MissingField { field } => "config is missing required field '"@ + field@ + "'"@,
            ConfigError::InvalidValue { field, value } => "config field '"@ + field@
                + "' has invalid value '"@ + value@ + "'"@,
            ConfigError::UnknownRemapKey { peer, key } => "peer '"@ + peer@
                + "': [peers.remap] has unknown key name '"@ + key@
                + "'; expected a name like \"LeftGui\", \"A\", \"F1\", or \"Up\""@,
            ConfigError::UnknownRemapValue { peer, key, value } => "peer '"@ + peer@
                + "': [peers.remap] maps '"@ + key@ + "' to unknown key name '"@ + value@
                + "'; expected a name like \"LeftGui\", \"A\", \"F1\", or \"Up\""@,
            ConfigError::UnknownEdge { edge } => "[layout] has unknown edge name '"@ + edge@
                + "'; expected one of \"top\", \"bottom\", \"left\", \"right\""@,
            ConfigError::ServerMissingBind =>
                "role = \"server\" requires 'bind'; add bind = \"<host>:<port>\" (for example \"0.0.0.0:24810\") to specify the address to listen on"@,
            ConfigError::ServerMissingPeers =>
                "role = \"server\" requires at least one [[peers]] entry; a server with no peers can never accept a connection. Add a [[peers]] section with an id"@,
            ConfigError::ClientMissingId =>
                "role = \"client\" requires 'id'; add id = \"<name>\" to identify this machine during the handshake"@,
            ConfigError::ClientMissingServer =>
                "role = \"client\" requires 'server'; add server = \"<host:port or discovered name>\" naming the server to connect to"@,
            ConfigError::LayoutUnknownPeer { edge, peer } => "[layout] edge '"@ + edge@
                + "' names peer '"@ + peer@
                + "', which is not defined in [[peers]]; add a [[peers]] entry with id = \""@ + peer@
                + "\" or fix the typo"@,
            ConfigError::ClientMissingReturnEdge =>
                "role = \"client\" requires '[input] return_edge'; add return_edge = \"top\", \"bottom\", \"left\", or \"right\" naming the edge of this machine's screen that hands focus back to the server (the mirror image of the server's own [layout] edge). Without it the only way focus ever returns is the panic hotkey, which lives on the server, not here"@,
            ConfigError::UnknownReturnEdge { value } => "[input] return_edge has unknown value '"@ + value@
                + "'; expected one of \"top\", \"bottom\", \"left\", \"right\""@,
            ConfigError::ServerMissingPanicHotkey =>
                "a server config must set [input] panic_hotkey. It is the emergency escape that returns control to this machine if input ever gets stuck on the peer. Without it there is no way to recover except killing hop from another machine. Example: panic_hotkey = \"LeftCtrl+LeftAlt+Escape\""@,
            ConfigError::PathExpansion { field, raw, reason } => "config field '"@ + field@
                + "' has an unusable path '"@ + raw@ + "': "@ + reason@,
            ConfigError::InvalidServerAddress { value, reason } => "config field 'server' = \""@ + value@
                + "\" is not a valid host:port address ("@ + reason@
                + "); hop does not implement discovery by name yet, so 'server' must be a literal address and port, for example \"192.168.1.42:24810\" or \"[::1]:24810\" for an IPv6 literal"@,
        }
    }

    /// What is wrong and how to mend it, for a person to read.
    pub fn message(&self) -> (r: String)
        ensures
            r@ == self.spec_message(),
    {
        match self {
            ConfigError::Io { path, source } => "could not read config file ".to_owned().concat(
                path.as_str(),
            ).concat(": ").concat(source.as_str()),
            ConfigError::Toml { path, source } => "could not parse ".to_owned().concat(path.as_str()).concat(
                " as TOML: ",
            ).concat(source.as_str()),
            ConfigError::MissingField { field } => "config is missing required field '".to_owned().concat(
                field.as_str(),
            ).concat("'"),
            ConfigError::InvalidValue { field, value } => "config field '".to_owned().concat(
                field.as_str(),
            ).concat("' has invalid value '").concat(value.as_str()).concat("'"),
            ConfigError::UnknownRemapKey { peer, key } => "peer '".to_owned().concat(peer.as_str()).concat(
                "': [peers.remap] has unknown key name '",
            ).concat(key.as_str()).concat(
                "'; expected a name like \"LeftGui\", \"A\", \"F1\", or \"Up\"",
            ),
            ConfigError::UnknownRemapValue { peer, key, value } => "peer '".to_owned().concat(
                peer.as_str(),
            ).concat("': [peers.remap] maps '").concat(key.as_str()).concat(
                "' to unknown key name '",
            ).concat(value.as_str()).concat(
                "'; expected a name like \"LeftGui\", \"A\", \"F1\", or \"Up\"",
            ),
            ConfigError::UnknownEdge { edge } => "[layout] has unknown edge name '".to_owned().concat(
                edge.as_str(),
            ).concat("'; expected one of \"top\", \"bottom\", \"left\", \"right\""),
            ConfigError::ServerMissingBind =>
                "role = \"server\" requires 'bind'; add bind = \"<host>:<port>\" (for example \"0.0.0.0:24810\") to specify the address to listen on".to_owned(),
            ConfigError::ServerMissingPeers =>
                "role = \"server\" requires at least one [[peers]] entry; a server with no peers can never accept a connection. Add a [[peers]] section with an id".to_owned(),
            ConfigError::ClientMissingId =>
                "role = \"client\" requires 'id'; add id = \"<name>\" to identify this machine during the handshake".to_owned(),
            ConfigError::ClientMissingServer =>
                "role = \"client\" requires 'server'; add server = \"<host:port or discovered name>\" naming the server to connect to".to_owned(),
            ConfigError::LayoutUnknownPeer { edge, peer } => "[layout] edge '".to_owned().concat(
                edge.as_str(),
            ).concat("' names peer '").concat(peer.as_str()).concat(
                "', which is not defined in [[peers]]; add a [[peers]] entry with id = \"",
            ).concat(peer.as_str()).concat("\" or fix the typo"),
            ConfigError::ClientMissingReturnEdge =>
                "role = \"client\" requires '[input] return_edge'; add return_edge = \"top\", \"bottom\", \"left\", or \"right\" naming the edge of this machine's screen that hands focus back to the server (the mirror image of the server's own [layout] edge). Without it the only way focus ever returns is the panic hotkey, which lives on the server, not here".to_owned(),
            ConfigError::UnknownReturnEdge { value } => "[input] return_edge has unknown value '".to_owned().concat(
                value.as_str(),
            ).concat("'; expected one of \"top\", \"bottom\", \"left\", \"right\""),
            ConfigError::ServerMissingPanicHotkey =>
                "a server config must set [input] panic_hotkey. It is the emergency escape that returns control to this machine if input ever gets stuck on the peer. Without it there is no way to recover except killing hop from another machine. Example: panic_hotkey = \"LeftCtrl+LeftAlt+Escape\"".to_owned(),
            ConfigError::PathExpansion { field, raw, reason } => "config field '".to_owned().concat(
                field.as_str(),
            ).concat("' has an unusable path '").concat(raw.as_str()).concat("': ").concat(
                reason.as_str(),
            ),
            ConfigError::InvalidServerAddress { value, reason } => "config field 'server' = \"".to_owned().concat(
                value.as_str(),
            ).concat("\" is not a valid host:port address (").concat(reason.as_str()).concat(
                "); hop does not implement discovery by name yet, so 'server' must be a literal address and port, for example \"192.168.1.42:24810\" or \"[::1]:24810\" for an IPv6 literal",
            ),
        }
    }
}

/// The names and values of the environment's variables that matter here.
#[derive(Debug)]
pub struct Environment {
    pub vars: Vec<(String, String)>,
}

/// What a variable is set to: the first value that is listed for it.
pub open spec fn set_to(vars: Seq<(String, String)>, name: Seq<char>) -> Option<Seq<char>>
    decreases vars.len(),
{
    if vars.len() == 0 {
        None
    } else {
        match set_to(vars.drop_last(), name) {
            Some(value) => Some(value),
            None => if vars.last().0@ == name {
                Some(vars.last().1@)
            } else {
                None
            },
        }
    }
}

impl Environment {
    /// What a variable is set to.
    pub open spec fn value_of(self, name: Seq<char>) -> Option<Seq<char>> {
        set_to(self.vars@, name)
    }

    fn get(&self, name: &str) -> (r: Option<&str>)
        ensures
            match r {
                Some(value) => self.value_of(name@) == Some(value@),
                None => self.value_of(name@) is None,
            },
    {
        let mut i: usize = 0;
        assert(self.vars@.take(0) =~= Seq::<(String, String)>::empty());
        while i < self.vars.len()
            invariant
                i <= self.vars@.len(),
                set_to(self.vars@.take(i as int), name@) is None,
            decreases self.vars@.len() - i,
        {
            assert(self.vars@.take(i + 1).drop_last() =~= self.vars@.take(i as int));
            if same(self.vars[i].0.as_str(), name) {
                proof {
                    lemma_first_value(self.vars@, name@, i + 1);
                }
                return Some(self.vars[i].1.as_str());
            }
            i = i + 1;
        }
        assert(self.vars@.take(i as int) =~= self.vars@);
        None
    }

    /// The home directory: HOME, or else USERPROFILE.
    pub open spec fn spec_home(self) -> Option<Seq<char>> {
        match self.value_of("HOME"@) {
            Some(value) => Some(value),
            None => self.value_of("USERPROFILE"@),
        }
    }

    fn home(&self) -> (r: Option<&str>)
        ensures
            match r {
                Some(value) => self.spec_home() == Some(value@),
                None => self.spec_home() is None,
            },
    {
        match self.get("HOME") {
            Some(value) => Some(value),
            None => self.get("USERPROFILE"),
        }
    }
}

proof fn lemma_first_value(vars: Seq<(String, String)>, name: Seq<char>, i: int)
    requires
        0 <= i <= vars.len(),
        set_to(vars.take(i), name) is Some,
    ensures
        set_to(vars, name) == set_to(vars.take(i), name),
    decreases vars.len(),
{
    if i < vars.len() {
        assert(vars.drop_last().take(i) =~= vars.take(i));
        lemma_first_value(vars.drop_last(), name, i);
    } else {
        assert(vars.take(i) =~= vars);
    }
}

/// What a [`FilePath`] says.
#[verifier::ext_equal]
pub struct PathModel {
    pub base: Seq<char>,
    pub below: Option<Seq<char>>,
}

/// What an optional string says.
pub open spec fn said(s: Option<String>) -> Option<Seq<char>> {
    match s {
        Some(text) => Some(text@),
        None => None,
    }
}

impl View for FilePath {
    type V = PathModel;

    open spec fn view(&self) -> PathModel {
        PathModel { base: self.base@, below: said(self.below) }
    }
}

/// Whether a character separates the parts of a path.
pub open spec fn is_separator(c: char) -> bool {
    c == '/' || c == '\\'
}

/// A path without the separators in front of it.
pub open spec fn without_separators(s: Seq<char>) -> Seq<char>
    decreases s.len(),
{
    if s.len() > 0 && is_separator(s[0]) {
        without_separators(s.skip(1))
    } else {
        s
    }
}

/// A path in which a leading `~` stands for the home directory. Another
/// user's home cannot be resolved, so naming one is refused rather than
/// taken for a directory of that name.
pub open spec fn tilde_expanded(raw: Seq<char>, field: Seq<char>, env: Environment) -> Result<PathModel, Fault> {
    if raw.len() == 0 || raw[0] != '~' {
        Ok(PathModel { base: raw, below: None })
    } else if raw.len() > 1 && !is_separator(raw[1]) {
        Err(
            Fault::PathExpansion {
                field,
                raw,
                reason:
                    "\"~name/...\" (another user's home directory) is not supported; write an absolute path instead"@,
            },
        )
    } else {
        match env.spec_home() {
            None => Err(
                Fault::PathExpansion {
                    field,
                    raw,
                    reason:
                        "could not expand '~': neither HOME nor USERPROFILE is set in the environment"@,
                },
            ),
            Some(home) => {
                let rest = without_separators(raw.skip(1));
                Ok(
                    PathModel {
                        base: home,
                        below: if rest.len() == 0 {
                            None
                        } else {
                            Some(rest)
                        },
                    },
                )
            },
        }
    }
}

/// Whether a result is what is expected, in what it says.
pub open spec fn path_result(r: Result<FilePath, ConfigError>, expected: Result<PathModel, Fault>) -> bool {
    match (r, expected) {
        (Ok(got), Ok(want)) => got@ == want,
        (Err(got), Err(want)) => got@ == want,
        _ => false,
    }
}

/// Expands a leading `~` to the user's home directory.
pub fn expand_tilde_with(raw: &str, field: &str, env: &Environment) -> (r: Result<FilePath, ConfigError>)
    ensures
        path_result(r, tilde_expanded(raw@, field@, *env)),
{
    let cs: Vec<char> = text::chars(raw);
    if cs.len() == 0 || cs[0] != '~' {
        return Ok(FilePath { base: raw.to_owned(), below: None });
    }
    if cs.len() > 1 && cs[1] != '/' && cs[1] != '\\' {
        return Err(
            ConfigError::PathExpansion {
                field: field.to_owned(),
                raw: raw.to_owned(),
                reason:
                    "\"~name/...\" (another user's home directory) is not supported; write an absolute path instead".to_owned(),
            },
        );
    }
    match env.home() {
        None => Err(
            ConfigError::PathExpansion {
                field: field.to_owned(),
                raw: raw.to_owned(),
                reason:
                    "could not expand '~': neither HOME nor USERPROFILE is set in the environment".to_owned(),
            },
        ),
        Some(home) => {
            let mut from: usize = 1;
            let ghost rest = raw@.skip(1);
            while from < cs.len() && (cs[from] == '/' || cs[from] == '\\')
                invariant
                    1 <= from <= cs@.len(),
                    cs@ == raw@,
                    rest == raw@.skip(1),
                    without_separators(rest) == without_separators(raw@.skip(from as int)),
                decreases cs@.len() - from,
            {
                assert(raw@.skip(from as int).skip(1) =~= raw@.skip(from + 1));
                from = from + 1;
            }
            assert(without_separators(rest) == raw@.skip(from as int));
            let below: Option<String> = if from < cs.len() {
                let tail: String = raw.substring_char(from, cs.len()).to_owned();
                assert(tail@ =~= raw@.skip(from as int));
                Some(tail)
            } else {
                None
            };
            Ok(FilePath { base: home.to_owned(), below })
        },
    }
}

/// A text in front of a result, where there is one.
pub open spec fn in_front(text: Seq<char>, rest: Result<Seq<char>, Seq<char>>) -> Result<Seq<char>, Seq<char>> {
    match rest {
        Ok(tail) => Ok(text + tail),
        Err(name) => Err(name),
    }
}

/// Text with the values of the variables that stand between percent signs
/// in it, or the name of the first one that is not set. A lone percent
/// sign, or two in a row, is no variable and stays as it is.
pub open spec fn percent_expanded(rest: Seq<char>, env: Environment) -> Result<Seq<char>, Seq<char>>
    decreases rest.len(),
{
    match text::find_from(rest, '%', 0) {
        None => Ok(rest),
        Some(start) => {
            let before = rest.take(start);
            let after = rest.skip(start + 1);
            proof {
                text::lemma_find_from(rest, '%', 0);
                text::lemma_find_from(after, '%', 0);
            }
            match text::find_from(after, '%', 0) {
                Some(end) => if end > 0 {
                    match env.value_of(after.take(end)) {
                        None => Err(after.take(end)),
                        Some(value) => in_front(before + value, percent_expanded(after.skip(end + 1), env)),
                    }
                } else {
                    in_front(before + seq!['%', '%'], percent_expanded(after.skip(1), env))
                },
                None => in_front(before + seq!['%'], percent_expanded(after, env)),
            }
        },
    }
}

/// What is wrong if a variable is not set.
pub open spec fn unset(raw: Seq<char>, field: Seq<char>, name: Seq<char>) -> Fault {
    Fault::PathExpansion {
        field,
        raw,
        reason: "environment variable '"@ + name + "' is not set"@,
    }
}

/// Puts the values of variables in the place of `%NAME%`.
pub fn expand_percent_vars_with(raw: &str, field: &str, env: &Environment) -> (r: Result<String, ConfigError>)
    ensures
        match percent_expanded(raw@, *env) {
            Ok(text) => r matches Ok(got) && got@ == text,
            Err(name) => r matches Err(e) && e@ == unset(raw@, field@, name),
        },
{
    let cs: Vec<char> = text::chars(raw);
    let total: usize = cs.len();
    let mut result: String = String::new();
    let mut at: usize = 0;
    proof {
        assert(raw@.skip(0) =~= raw@);
        assert(in_front(result@, percent_expanded(raw@, *env)) == percent_expanded(raw@, *env)) by {
            match percent_expanded(raw@, *env) {
                Ok(tail) => assert(Seq::<char>::empty() + tail =~= tail),
                Err(_) => {},
            }
        }
    }
    loop
        invariant
            at <= total,
            total == cs@.len(),
            cs@ == raw@,
            percent_expanded(raw@, *env) == in_front(
                result@,
                percent_expanded(raw@.skip(at as int), *env),
            ),
        decreases cs@.len() - at,
    {
        let ghost rest = raw@.skip(at as int);
        let ghost done = result@;
        proof {
            lemma_find_skip(raw@, '%', at as int);
            text::lemma_find_from(raw@, '%', at as int);
        }
        match text::find(&cs, '%', at) {
            None => {
                let tail: String = raw.substring_char(at, cs.len()).to_owned();
                assert(tail@ =~= rest);
                result.append(tail.as_str());
                return Ok(result);
            },
            Some(start) => {
                let before: String = raw.substring_char(at, start).to_owned();
                result.append(before.as_str());
                let ghost after = rest.skip(start - at + 1);
                proof {
                    assert(before@ =~= rest.take(start - at));
                    assert(after =~= raw@.skip(start + 1));
                    lemma_find_skip(raw@, '%', start + 1);
                    text::lemma_find_from(raw@, '%', start + 1);
                }
                match text::find(&cs, '%', start + 1) {
                    Some(end) if end > start + 1 => {
                        let name: String = raw.substring_char(start + 1, end).to_owned();
                        assert(name@ =~= after.take(end - start - 1));
                        match env.get(name.as_str()) {
                            None => {
                                return Err(
                                    ConfigError::PathExpansion {
                                        field: field.to_owned(),
                                        raw: raw.to_owned(),
                                        reason: "environment variable '".to_owned().concat(
                                            name.as_str(),
                                        ).concat("' is not set"),
                                    },
                                );
                            },
                            Some(value) => {
                                result.append(value);
                                at = end + 1;
                                proof {
                                    assert(after.skip(end - start) =~= raw@.skip(at as int));
                                    lemma_in_front(
                                        done,
                                        before@ + value@,
                                        percent_expanded(raw@.skip(at as int), *env),
                                    );
                                    assert(result@ =~= done + (before@ + value@));
                                }
                            },
                        }
                    },
                    Some(end) => {
                        result.append("%%");
                        at = end + 1;
                        proof {
                            reveal_strlit("%%");
                            assert("%%"@ =~= seq!['%', '%']);
                            assert(after.skip(1) =~= raw@.skip(at as int));
                            lemma_in_front(
                                done,
                                before@ + seq!['%', '%'],
                                percent_expanded(raw@.skip(at as int), *env),
                            );
                            assert(result@ =~= done + (before@ + seq!['%', '%']));
                        }
                    },
                    None => {
                        result.append("%");
                        at = start + 1;
                        proof {
                            reveal_strlit("%");
                            assert("%"@ =~= seq!['%']);
                            lemma_in_front(
                                done,
                                before@ + seq!['%'],
                                percent_expanded(raw@.skip(at as int), *env),
                            );
                            assert(result@ =~= done + (before@ + seq!['%']));
                        }
                    },
                }
            },
        }
    }
}

proof fn lemma_in_front(a: Seq<char>, b: Seq<char>, rest: Result<Seq<char>, Seq<char>>)
    ensures
        in_front(a, in_front(b, rest)) == in_front(a + b, rest),
{
    match rest {
        Ok(tail) => assert(a + (b + tail) =~= a + b + tail),
        Err(_) => {},
    }
}

/// Where a character is found does not depend on what was skipped before.
proof fn lemma_find_skip(s: Seq<char>, c: char, from: int)
    requires
        0 <= from <= s.len(),
    ensures
        text::find_from(s.skip(from), c, 0) == (match text::find_from(s, c, from) {
            None => None,
            Some(at) => Some(at - from),
        }),
{
    lemma_find_skip_at(s, c, from, 0);
}

proof fn lemma_find_skip_at(s: Seq<char>, c: char, from: int, i: int)
    requires
        0 <= from <= s.len(),
        0 <= i <= s.len() - from,
    ensures
        text::find_from(s.skip(from), c, i) == (match text::find_from(s, c, from + i) {
            None => None,
            Some(at) => Some(at - from),
        }),
    decreases s.len() - from - i,
{
    if i < s.len() - from {
        assert(s.skip(from)[i] == s[from + i]);
        if s[from + i] != c {
            lemma_find_skip_at(s, c, from, i + 1);
        }
    }
}

/// A path as a configuration gives it, with what stands for something else
/// replaced: variables, where the system writes them between percent signs,
/// and then a leading `~`.
pub open spec fn path_expanded(raw: Seq<char>, field: Seq<char>, env: Environment, percent: bool) -> Result<PathModel, Fault> {
    if percent {
        match percent_expanded(raw, env) {
            Err(name) => Err(unset(raw, field, name)),
            Ok(text) => tilde_expanded(text, field, env),
        }
    } else {
        tilde_expanded(raw, field, env)
    }
}

/// Whether a path names another user's home directory, which is not
/// supported whatever the environment holds.
pub open spec fn in_other_home(raw: Seq<char>) -> bool {
    raw.len() > 1 && raw[0] == '~' && !is_separator(raw[1]) && raw[1] != '%'
}

/// Whether a path names another user's home directory.
pub fn names_other_home(raw: &str) -> (r: bool)
    ensures
        r == in_other_home(raw@),
{
    let cs: Vec<char> = text::chars(raw);
    cs.len() > 1 && cs[0] == '~' && cs[1] != '/' && cs[1] != '\\' && cs[1] != '%'
}

/// A path in another user's home directory cannot be made out in any
/// environment.
pub proof fn law_another_home_is_never_expanded(raw: Seq<char>, field: Seq<char>, env: Environment, percent: bool)
    requires
        in_other_home(raw),
    ensures
        path_expanded(raw, field, env, percent) is Err,
{
    text::lemma_find_from(raw, '%', 0);
    if let Some(start) = text::find_from(raw, '%', 0) {
        assert(raw[start] == '%');
        assert(start >= 2);
        assert(raw.take(start)[0] == raw[0] && raw.take(start)[1] == raw[1]);
    }
}

/// Expands a path as a configuration gives it. `percent` says whether the
/// system writes variables between percent signs, as Windows does.
pub fn expand_config_path(raw: &str, field: &str, env: &Environment, percent: bool) -> (r: Result<FilePath, ConfigError>)
    ensures
        path_result(r, path_expanded(raw@, field@, *env, percent)),
{
    if percent {
        match expand_percent_vars_with(raw, field, env) {
            Err(e) => Err(e),
            Ok(expanded) => expand_tilde_with(expanded.as_str(), field, env),
        }
    } else {
        expand_tilde_with(raw, field, env)
    }
}

/// What is wrong with a host and a port.
pub open spec fn host_port_fault(host: Seq<char>, port: Seq<char>) -> Option<Seq<char>> {
    if host.len() == 0 {
        Some("the host part is empty"@)
    } else {
        match text::number(port, 0xFFFF) {
            Some(n) => if n > 0 {
                None
            } else {
                Some("'"@ + port + "' is not a valid port number (1-65535)"@)
            },
            None => Some("'"@ + port + "' is not a valid port number (1-65535)"@),
        }
    }
}

/// What is wrong with a server's address, if anything is: it is a host, a
/// colon and a port, and a host with colons in it stands in brackets.
pub open spec fn address_fault(raw: Seq<char>) -> Option<Seq<char>> {
    if raw.len() > 0 && raw[0] == '[' {
        let rest = raw.skip(1);
        match text::find_from(rest, ']', 0) {
            None => Some(
                "starts with '[' but has no matching ']'; an IPv6 literal looks like \"[::1]:24810\""@,
            ),
            Some(at) => {
                let after = rest.skip(at + 1);
                if after.len() > 0 && after[0] == ':' {
                    host_port_fault(rest.take(at), after.skip(1))
                } else {
                    Some("expected \":<port>\" right after \"]\", got \""@ + after + "\""@)
                }
            },
        }
    } else if text::count_of(raw, ':') > 1 {
        Some(
            "looks like an IPv6 address but has no brackets; wrap it, for example \"[::1]:24810\""@,
        )
    } else {
        match text::find_from(raw, ':', 0) {
            None => Some("no ':' found; got a bare name with no port"@),
            Some(at) => host_port_fault(raw.take(at), raw.skip(at + 1)),
        }
    }
}

fn check_host_port(raw: &str, cs: &Vec<char>, from: usize, to: usize, port: usize) -> (r: Result<(), String>)
    requires
        cs@ == raw@,
        from <= to <= cs@.len(),
        port <= cs@.len(),
    ensures
        match host_port_fault(
            raw@.subrange(from as int, to as int),
            raw@.subrange(port as int, raw@.len() as int),
        ) {
            None => r is Ok,
            Some(reason) => r matches Err(got) && got@ == reason,
        },
{
    if from == to {
        return Err("the host part is empty".to_owned());
    }
    match text::parse_number(cs, port, cs.len(), 0xFFFF) {
        Some(n) if n > 0 => Ok(()),
        _ => {
            let port_text: String = raw.substring_char(port, cs.len()).to_owned();
            Err("'".to_owned().concat(port_text.as_str()).concat("' is not a valid port number (1-65535)"))
        },
    }
}

/// Checks that a server's address is a literal host and port. Discovery by
/// name is not implemented: accepting a name would let every connection
/// attempt fail forever.
pub fn validate_server_address(raw: &str) -> (r: Result<(), String>)
    ensures
        match address_fault(raw@) {
            None => r is Ok,
            Some(reason) => r matches Err(got) && got@ == reason,
        },
{
    let cs: Vec<char> = text::chars(raw);
    if cs.len() > 0 && cs[0] == '[' {
        let ghost rest = raw@.skip(1);
        proof {
            lemma_find_skip(raw@, ']', 1);
            text::lemma_find_from(raw@, ']', 1);
        }
        match text::find(&cs, ']', 1) {
            None => Err(
                "starts with '[' but has no matching ']'; an IPv6 literal looks like \"[::1]:24810\"".to_owned(),
            ),
            Some(at) => {
                let ghost after = rest.skip(at as int);
                assert(after =~= raw@.skip(at + 1));
                if at + 1 < cs.len() && cs[at + 1] == ':' {
                    proof {
                        assert(rest.take(at - 1) =~= raw@.subrange(1, at as int));
                        assert(after.skip(1) =~= raw@.subrange(at + 2, raw@.len() as int));
                    }
                    check_host_port(raw, &cs, 1, at, at + 2)
                } else {
                    let tail: String = raw.substring_char(at + 1, cs.len()).to_owned();
                    assert(tail@ =~= after);
                    Err(
                        "expected \":<port>\" right after \"]\", got \"".to_owned().concat(
                            tail.as_str(),
                        ).concat("\""),
                    )
                }
            },
        }
    } else if text::count(&cs, ':') > 1 {
        Err(
            "looks like an IPv6 address but has no brackets; wrap it, for example \"[::1]:24810\"".to_owned(),
        )
    } else {
        match text::find(&cs, ':', 0) {
            None => Err("no ':' found; got a bare name with no port".to_owned()),
            Some(at) => {
                proof {
                    assert(raw@.take(at as int) =~= raw@.subrange(0, at as int));
                    assert(raw@.skip(at + 1) =~= raw@.subrange(at + 1, raw@.len() as int));
                }
                check_host_port(raw, &cs, 0, at, at + 1)
            },
        }
    }
}

/// A double precision number as a file gives it: its bits, and how it
/// reads.
#[derive(Debug, Clone)]
pub struct Double {
    pub bits: u64,
    pub written: String,
}

/// A single precision number as a file gives it.
#[derive(Debug, Clone)]
pub struct Single {
    pub bits: u32,
    pub written: String,
}

/// What a file says, before it is validated. Everything is optional here,
/// so that what is missing can be named.
#[derive(Debug)]
pub struct RawConfig {
    pub role: Option<String>,
    pub bind: Option<String>,
    pub id: Option<String>,
    pub server: Option<String>,
    pub peers: Vec<RawPeer>,
    /// Edges and the peers at them.
    pub layout: Vec<(String, String)>,
    pub discovery: Option<RawDiscovery>,
    pub security: Option<RawSecurity>,
    pub input: Option<RawInput>,
}

#[derive(Debug)]
pub struct RawPeer {
    pub id: Option<String>,
    /// Key names and what they are turned into.
    pub remap: Vec<(String, String)>,
}

#[derive(Debug)]
pub struct RawDiscovery {
    pub enabled: Option<bool>,
}

#[derive(Debug)]
pub struct RawSecurity {
    pub key_file: Option<String>,
}

#[derive(Debug)]
pub struct RawInput {
    pub panic_hotkey: Option<String>,
    pub return_edge: Option<String>,
    pub mouse_scale: Option<Double>,
    pub anchor: Option<Single>,
}

/// What a [`PeerConfig`] says.
#[verifier::ext_equal]
pub struct PeerModel {
    pub id: Seq<char>,
    pub rules: Map<Usage, Usage>,
}

/// What a [`Layout`] says.
#[verifier::ext_equal]
pub struct LayoutModel {
    pub top: Option<Seq<char>>,
    pub bottom: Option<Seq<char>>,
    pub left: Option<Seq<char>>,
    pub right: Option<Seq<char>>,
}

/// What a [`Config`] says.
#[verifier::ext_equal]
pub struct ConfigModel {
    pub role: Role,
    pub bind: Option<Seq<char>>,
    pub id: Option<Seq<char>>,
    pub server: Option<Seq<char>>,
    pub peers: Seq<PeerModel>,
    pub layout: LayoutModel,
    pub discovery: bool,
    pub key_file: PathModel,
    pub key_file_written: Seq<char>,
    pub panic_hotkey: Option<Seq<char>>,
    pub return_edge: Option<Seq<char>>,
    pub mouse_scale: u64,
    pub anchor: Option<u32>,
}

impl View for PeerConfig {
    type V = PeerModel;

    open spec fn view(&self) -> PeerModel {
        PeerModel { id: self.id@, rules: self.remap@ }
    }
}

impl View for Layout {
    type V = LayoutModel;

    open spec fn view(&self) -> LayoutModel {
        LayoutModel {
            top: said(self.top),
            bottom: said(self.bottom),
            left: said(self.left),
            right: said(self.right),
        }
    }
}

/// What several peers' configurations say.
pub open spec fn peer_models(peers: Seq<PeerConfig>) -> Seq<PeerModel> {
    peers.map_values(|p: PeerConfig| p@)
}

impl View for Config {
    type V = ConfigModel;

    open spec fn view(&self) -> ConfigModel {
        ConfigModel {
            role: self.role,
            bind: said(self.bind),
            id: said(self.id),
            server: said(self.server),
            peers: peer_models(self.peers@),
            layout: self.layout@,
            discovery: self.discovery.enabled,
            key_file: self.security.key_file@,
            key_file_written: self.security.key_file_written@,
            panic_hotkey: said(self.input.panic_hotkey),
            return_edge: said(self.input.return_edge),
            mouse_scale: self.input.mouse_scale,
            anchor: self.input.anchor,
        }
    }
}

/// Whether the bits are those of a finite number greater than zero.
pub open spec fn usable_scale(bits: u64) -> bool {
    0 < bits < 0x7FF0_0000_0000_0000
}

/// Whether the bits are those of a number from zero to one; zero may have
/// either sign.
pub open spec fn usable_anchor(bits: u32) -> bool {
    bits <= 0x3F80_0000 || bits == 0x8000_0000
}

/// Whether a number is finite and greater than zero.
pub fn scale_is_usable(bits: u64) -> (r: bool)
    ensures
        r == usable_scale(bits),
{
    0 < bits && bits < 0x7FF0_0000_0000_0000
}

/// Whether a number is from zero to one.
pub fn anchor_is_usable(bits: u32) -> (r: bool)
    ensures
        r == usable_anchor(bits),
{
    bits <= 0x3F80_0000 || bits == 0x8000_0000
}

/// The role that a file names.
pub open spec fn role_of(raw: Option<String>) -> Result<Role, Fault> {
    match raw {
        None => Err(Fault::MissingField { field: "role"@ }),
        Some(name) => if name@ == "server"@ {
            Ok(Role::Server)
        } else if name@ == "client"@ {
            Ok(Role::Client)
        } else {
            Err(Fault::InvalidValue { field: "role"@, value: name@ })
        },
    }
}

/// The rules that a file gives for a peer's keys. Of two for the same key
/// the later one counts.
pub open spec fn rules_of(peer: Seq<char>, remap: Seq<(String, String)>) -> Result<Map<Usage, Usage>, Fault>
    decreases remap.len(),
{
    if remap.len() == 0 {
        Ok(Map::empty())
    } else {
        let (key, value) = remap.last();
        match rules_of(peer, remap.drop_last()) {
            Err(e) => Err(e),
            Ok(rules) => match keymap::key_named(key@) {
                None => Err(Fault::UnknownRemapKey { peer, key: key@ }),
                Some(from) => match keymap::key_named(value@) {
                    None => Err(Fault::UnknownRemapValue { peer, key: key@, value: value@ }),
                    Some(to) => Ok(rules.insert(from, to)),
                },
            },
        }
    }
}

/// The peer that a file describes.
pub open spec fn peer_of(index: int, raw: RawPeer) -> Result<PeerModel, Fault> {
    match raw.id {
        None => Err(
            Fault::MissingField { field: "peers["@ + text::decimal(index as nat) + "].id"@ },
        ),
        Some(id) => match rules_of(id@, raw.remap@) {
            Err(e) => Err(e),
            Ok(rules) => Ok(PeerModel { id: id@, rules }),
        },
    }
}

/// The peers that a file describes, or what is wrong with the first of
/// them that is unusable.
pub open spec fn peers_of(raw: Seq<RawPeer>) -> Result<Seq<PeerModel>, Fault>
    decreases raw.len(),
{
    if raw.len() == 0 {
        Ok(Seq::empty())
    } else {
        match peers_of(raw.drop_last()) {
            Err(e) => Err(e),
            Ok(peers) => match peer_of(raw.len() - 1, raw.last()) {
                Err(e) => Err(e),
                Ok(peer) => Ok(peers.push(peer)),
            },
        }
    }
}

/// The layout that a file describes, or the first edge that is none.
pub open spec fn layout_of(raw: Seq<(String, String)>) -> Result<LayoutModel, Fault>
    decreases raw.len(),
{
    if raw.len() == 0 {
        Ok(LayoutModel { top: None, bottom: None, left: None, right: None })
    } else {
        let (edge, peer) = raw.last();
        match layout_of(raw.drop_last()) {
            Err(e) => Err(e),
            Ok(layout) => if edge@ == "top"@ {
                Ok(LayoutModel { top: Some(peer@), ..layout })
            } else if edge@ == "bottom"@ {
                Ok(LayoutModel { bottom: Some(peer@), ..layout })
            } else if edge@ == "left"@ {
                Ok(LayoutModel { left: Some(peer@), ..layout })
            } else if edge@ == "right"@ {
                Ok(LayoutModel { right: Some(peer@), ..layout })
            } else {
                Err(Fault::UnknownEdge { edge: edge@ })
            },
        }
    }
}

/// The path of the key file that a file gives.
pub open spec fn written_key_file(raw: Option<RawSecurity>) -> Option<Seq<char>> {
    match raw {
        None => None,
        Some(security) => said(security.key_file),
    }
}

/// Whether a peer of that id is configured.
pub open spec fn knows(peers: Seq<PeerModel>, id: Seq<char>) -> bool {
    exists|i: int| 0 <= i < peers.len() && (#[trigger] peers[i]).id == id
}

/// What is wrong with the peer at an edge: nobody knows it.
pub open spec fn stranger_at(edge: Seq<char>, peer: Option<Seq<char>>, peers: Seq<PeerModel>) -> Option<Fault> {
    match peer {
        Some(id) => if knows(peers, id) {
            None
        } else {
            Some(Fault::LayoutUnknownPeer { edge, peer: id })
        },
        None => None,
    }
}

/// What is wrong with a configuration for its role.
pub open spec fn role_fault(c: ConfigModel) -> Option<Fault> {
    match c.role {
        Role::Server => if c.bind is None {
            Some(Fault::ServerMissingBind)
        } else if c.peers.len() == 0 {
            Some(Fault::ServerMissingPeers)
        } else if c.panic_hotkey is None {
            Some(Fault::ServerMissingPanicHotkey)
        } else {
            None
        },
        Role::Client => if c.id is None {
            Some(Fault::ClientMissingId)
        } else {
            match c.server {
                None => Some(Fault::ClientMissingServer),
                Some(server) => match address_fault(server) {
                    Some(reason) => Some(Fault::InvalidServerAddress { value: server, reason }),
                    None => match c.return_edge {
                        None => Some(Fault::ClientMissingReturnEdge),
                        Some(edge) => if crate::screen::side_named(edge) is None {
                            Some(Fault::UnknownReturnEdge { value: edge })
                        } else {
                            None
                        },
                    },
                },
            }
        },
    }
}

/// What is wrong with a layout: the first edge at which there is a peer
/// that nobody knows.
pub open spec fn layout_fault(c: ConfigModel) -> Option<Fault> {
    if stranger_at("top"@, c.layout.top, c.peers) is Some {
        stranger_at("top"@, c.layout.top, c.peers)
    } else if stranger_at("bottom"@, c.layout.bottom, c.peers) is Some {
        stranger_at("bottom"@, c.layout.bottom, c.peers)
    } else if stranger_at("left"@, c.layout.left, c.peers) is Some {
        stranger_at("left"@, c.layout.left, c.peers)
    } else {
        stranger_at("right"@, c.layout.right, c.peers)
    }
}

/// What is wrong with a configuration that no field shows by itself.
pub open spec fn fault_in(c: ConfigModel) -> Option<Fault> {
    if role_fault(c) is Some {
        role_fault(c)
    } else {
        layout_fault(c)
    }
}

/// What is wrong with the numbers that a file gives.
pub open spec fn number_fault(raw: Option<RawInput>) -> Option<Fault> {
    match raw {
        None => None,
        Some(input) => match input.mouse_scale {
            Some(scale) if !usable_scale(scale.bits) => Some(
                Fault::InvalidValue { field: "input.mouse_scale"@, value: scale.written@ },
            ),
            _ => match input.anchor {
                Some(anchor) if !usable_anchor(anchor.bits) => Some(
                    Fault::InvalidValue { field: "input.anchor"@, value: anchor.written@ },
                ),
                _ => None,
            },
        },
    }
}

/// What a file's settings come to, given those that stand in its sections.
pub open spec fn assembled(
    raw: RawConfig,
    role: Role,
    peers: Seq<PeerModel>,
    layout: LayoutModel,
    key_file: PathModel,
) -> ConfigModel {
    ConfigModel {
        role,
        bind: said(raw.bind),
        id: said(raw.id),
        server: said(raw.server),
        peers,
        layout,
        discovery: raw.discovery == Some(RawDiscovery { enabled: Some(true) }),
        key_file,
        key_file_written: written_key_file(raw.security)->0,
        panic_hotkey: match raw.input {
            Some(input) => said(input.panic_hotkey),
            None => None,
        },
        return_edge: match raw.input {
            Some(input) => said(input.return_edge),
            None => None,
        },
        mouse_scale: match raw.input {
            Some(input) => match input.mouse_scale {
                Some(scale) => scale.bits,
                None => ONE,
            },
            None => ONE,
        },
        anchor: match raw.input {
            Some(input) => match input.anchor {
                Some(anchor) => Some(anchor.bits),
                None => None,
            },
            None => None,
        },
    }
}

/// The configuration that a file describes, or the first thing that is
/// wrong with it.
pub open spec fn config_of(raw: RawConfig, env: Environment, percent: bool) -> Result<ConfigModel, Fault> {
    match role_of(raw.role) {
        Err(e) => Err(e),
        Ok(role) => match peers_of(raw.peers@) {
            Err(e) => Err(e),
            Ok(peers) => match layout_of(raw.layout@) {
                Err(e) => Err(e),
                Ok(layout) => match written_key_file(raw.security) {
                    None => Err(Fault::MissingField { field: "security.key_file"@ }),
                    Some(written) => match path_expanded(written, "security.key_file"@, env, percent) {
                        Err(e) => Err(e),
                        Ok(key_file) => match number_fault(raw.input) {
                            Some(e) => Err(e),
                            None => {
                                let config = assembled(raw, role, peers, layout, key_file);
                                match fault_in(config) {
                                    Some(e) => Err(e),
                                    None => Ok(config),
                                }
                            },
                        },
                    },
                },
            },
        },
    }
}

proof fn lemma_first_bad_rule(peer: Seq<char>, remap: Seq<(String, String)>, i: int)
    requires
        0 <= i <= remap.len(),
        rules_of(peer, remap.take(i)) is Err,
    ensures
        rules_of(peer, remap) == rules_of(peer, remap.take(i)),
    decreases remap.len(),
{
    if i < remap.len() {
        assert(remap.drop_last().take(i) =~= remap.take(i));
        lemma_first_bad_rule(peer, remap.drop_last(), i);
    } else {
        assert(remap.take(i) =~= remap);
    }
}

proof fn lemma_first_bad_peer(raw: Seq<RawPeer>, i: int)
    requires
        0 <= i <= raw.len(),
        peers_of(raw.take(i)) is Err,
    ensures
        peers_of(raw) == peers_of(raw.take(i)),
    decreases raw.len(),
{
    if i < raw.len() {
        assert(raw.drop_last().take(i) =~= raw.take(i));
        lemma_first_bad_peer(raw.drop_last(), i);
    } else {
        assert(raw.take(i) =~= raw);
    }
}

proof fn lemma_first_bad_edge(raw: Seq<(String, String)>, i: int)
    requires
        0 <= i <= raw.len(),
        layout_of(raw.take(i)) is Err,
    ensures
        layout_of(raw) == layout_of(raw.take(i)),
    decreases raw.len(),
{
    if i < raw.len() {
        assert(raw.drop_last().take(i) =~= raw.take(i));
        lemma_first_bad_edge(raw.drop_last(), i);
    } else {
        assert(raw.take(i) =~= raw);
    }
}

fn copied(s: &Option<String>) -> (r: Option<String>)
    ensures
        said(r) == said(*s),
{
    match s {
        Some(text) => Some(text.clone()),
        None => None,
    }
}

/// The role that a file names.
fn role_from_raw(raw: &Option<String>) -> (r: Result<Role, ConfigError>)
    ensures
        match role_of(*raw) {
            Ok(role) => r == Ok::<Role, ConfigError>(role),
            Err(e) => r matches Err(got) && got@ == e,
        },
{
    match raw {
        None => Err(ConfigError::MissingField { field: "role".to_owned() }),
        Some(name) => {
            if same(name.as_str(), "server") {
                Ok(Role::Server)
            } else if same(name.as_str(), "client") {
                Ok(Role::Client)
            } else {
                Err(ConfigError::InvalidValue { field: "role".to_owned(), value: name.clone() })
            }
        },
    }
}

/// The layout that a file describes.
fn layout_from_raw(raw: &Vec<(String, String)>) -> (r: Result<Layout, ConfigError>)
    ensures
        match layout_of(raw@) {
            Ok(layout) => r matches Ok(got) && got@ == layout,
            Err(e) => r matches Err(got) && got@ == e,
        },
{
    let mut layout: Layout = Layout::default();
    let mut i: usize = 0;
    assert(raw@.take(0) =~= Seq::<(String, String)>::empty());
    while i < raw.len()
        invariant
            i <= raw@.len(),
            layout_of(raw@.take(i as int)) == Ok::<LayoutModel, Fault>(layout@),
        decreases raw@.len() - i,
    {
        assert(raw@.take(i + 1).drop_last() =~= raw@.take(i as int));
        let edge: &str = raw[i].0.as_str();
        let peer: String = raw[i].1.clone();
        if same(edge, "top") {
            layout.top = Some(peer);
        } else if same(edge, "bottom") {
            layout.bottom = Some(peer);
        } else if same(edge, "left") {
            layout.left = Some(peer);
        } else if same(edge, "right") {
            layout.right = Some(peer);
        } else {
            proof {
                lemma_first_bad_edge(raw@, i + 1);
            }
            return Err(ConfigError::UnknownEdge { edge: edge.to_owned() });
        }
        i = i + 1;
    }
    assert(raw@.take(i as int) =~= raw@);
    Ok(layout)
}

/// Whether a peer of that id is configured.
fn is_known(peers: &Vec<PeerConfig>, id: &str) -> (r: bool)
    ensures
        r == knows(peer_models(peers@), id@),
{
    match position_of(peers, id) {
        Some(i) => {
            assert(peer_models(peers@)[i as int].id == id@);
            true
        },
        None => {
            assert forall|j: int| 0 <= j < peers@.len() implies (#[trigger] peer_models(peers@)[j]).id != id@ by {
                assert(peer_models(peers@)[j].id == peers@[j].id@);
            }
            false
        },
    }
}

/// Where a peer of that id stands among those that may connect: the first
/// of them, should there be several.
pub fn position_of(peers: &Vec<PeerConfig>, id: &str) -> (r: Option<usize>)
    ensures
        match r {
            Some(i) => i < peers@.len() && peers@[i as int].id@ == id@ && forall|j: int|
                0 <= j < i ==> (#[trigger] peers@[j]).id@ != id@,
            None => forall|j: int| 0 <= j < peers@.len() ==> (#[trigger] peers@[j]).id@ != id@,
        },
{
    let mut i: usize = 0;
    while i < peers.len()
        invariant
            i <= peers@.len(),
            forall|j: int| 0 <= j < i ==> (#[trigger] peers@[j]).id@ != id@,
        decreases peers@.len() - i,
    {
        if same(peers[i].id.as_str(), id) {
            return Some(i);
        }
        i = i + 1;
    }
    None
}

/// Checks that the peer at an edge is configured.
fn check_edge(edge: &str, peer: &Option<String>, peers: &Vec<PeerConfig>) -> (r: Result<(), ConfigError>)
    ensures
        match stranger_at(edge@, said(*peer), peer_models(peers@)) {
            None => r is Ok,
            Some(e) => r matches Err(got) && got@ == e,
        },
{
    match peer {
        Some(id) => {
            if is_known(peers, id.as_str()) {
                Ok(())
            } else {
                Err(ConfigError::LayoutUnknownPeer { edge: edge.to_owned(), peer: id.clone() })
            }
        },
        None => Ok(()),
    }
}

/// The numbers that a file gives are checked where they are still known as
/// they were written.
fn check_numbers(raw: &Option<RawInput>) -> (r: Result<(), ConfigError>)
    ensures
        match number_fault(*raw) {
            None => r is Ok,
            Some(e) => r matches Err(got) && got@ == e,
        },
{
    match raw {
        None => Ok(()),
        Some(input) => {
            if let Some(scale) = &input.mouse_scale {
                if !scale_is_usable(scale.bits) {
                    return Err(
                        ConfigError::InvalidValue {
                            field: "input.mouse_scale".to_owned(),
                            value: scale.written.clone(),
                        },
                    );
                }
            }
            if let Some(anchor) = &input.anchor {
                if !anchor_is_usable(anchor.bits) {
                    return Err(
                        ConfigError::InvalidValue {
                            field: "input.anchor".to_owned(),
                            value: anchor.written.clone(),
                        },
                    );
                }
            }
            Ok(())
        },
    }
}

impl Config {
    /// The peer that a file describes at a place of its list.
    pub fn peer_from_raw(index: usize, raw: &RawPeer) -> (r: Result<PeerConfig, ConfigError>)
        ensures
            match peer_of(index as int, *raw) {
                Ok(peer) => r matches Ok(got) && got@ == peer,
                Err(e) => r matches Err(got) && got@ == e,
            },
    {
        let id: String = match &raw.id {
            None => {
                return Err(
                    ConfigError::MissingField {
                        field: "peers[".to_owned().concat(decimal_text(index as u64).as_str()).concat(
                            "].id",
                        ),
                    },
                );
            },
            Some(id) => id.clone(),
        };
        let mut remap: RemapTable = RemapTable::new();
        let mut i: usize = 0;
        assert(raw.remap@.take(0) =~= Seq::<(String, String)>::empty());
        while i < raw.remap.len()
            invariant
                i <= raw.remap@.len(),
                raw.id is Some,
                id@ == raw.id->0@,
                rules_of(id@, raw.remap@.take(i as int)) == Ok::<Map<Usage, Usage>, Fault>(remap@),
            decreases raw.remap@.len() - i,
        {
            assert(raw.remap@.take(i + 1).drop_last() =~= raw.remap@.take(i as int));
            let key: &String = &raw.remap[i].0;
            let value: &String = &raw.remap[i].1;
            match lookup(key.as_str()) {
                None => {
                    proof {
                        lemma_first_bad_rule(id@, raw.remap@, i + 1);
                    }
                    return Err(ConfigError::UnknownRemapKey { peer: id, key: key.clone() });
                },
                Some(from) => match lookup(value.as_str()) {
                    None => {
                        proof {
                            lemma_first_bad_rule(id@, raw.remap@, i + 1);
                        }
                        return Err(
                            ConfigError::UnknownRemapValue {
                                peer: id,
                                key: key.clone(),
                                value: value.clone(),
                            },
                        );
                    },
                    Some(to) => {
                        remap.insert(from, to);
                    },
                },
            }
            i = i + 1;
        }
        assert(raw.remap@.take(i as int) =~= raw.remap@);
        Ok(PeerConfig { id, remap })
    }

    fn peers_from_raw(raw: &Vec<RawPeer>) -> (r: Result<Vec<PeerConfig>, ConfigError>)
        ensures
            match peers_of(raw@) {
                Ok(peers) => r matches Ok(got) && peer_models(got@) == peers,
                Err(e) => r matches Err(got) && got@ == e,
            },
    {
        let mut peers: Vec<PeerConfig> = Vec::new();
        let mut i: usize = 0;
        assert(raw@.take(0) =~= Seq::<RawPeer>::empty());
        assert(peer_models(peers@) =~= Seq::<PeerModel>::empty());
        while i < raw.len()
            invariant
                i <= raw@.len(),
                peers_of(raw@.take(i as int)) == Ok::<Seq<PeerModel>, Fault>(peer_models(peers@)),
            decreases raw@.len() - i,
        {
            let ghost before = peers@;
            assert(raw@.take(i + 1).drop_last() =~= raw@.take(i as int));
            match Self::peer_from_raw(i, &raw[i]) {
                Err(e) => {
                    proof {
                        lemma_first_bad_peer(raw@, i + 1);
                    }
                    return Err(e);
                },
                Ok(peer) => {
                    peers.push(peer);
                    assert(peer_models(peers@) =~= peer_models(before).push(peer@));
                },
            }
            i = i + 1;
        }
        assert(raw@.take(i as int) =~= raw@);
        Ok(peers)
    }

    /// Checks what no field shows by itself: a client with no server to
    /// dial, a server with no peers to accept, an edge with a peer that is
    /// not configured. Each would otherwise only break later, far from the
    /// file that caused it.
    pub fn validate(&self) -> (r: Result<(), ConfigError>)
        ensures
            match fault_in(self@) {
                None => r is Ok,
                Some(e) => r matches Err(got) && got@ == e,
            },
    {
        match self.role {
            Role::Server => {
                if self.bind.is_none() {
                    return Err(ConfigError::ServerMissingBind);
                }
                if self.peers.len() == 0 {
                    return Err(ConfigError::ServerMissingPeers);
                }
                if self.input.panic_hotkey.is_none() {
                    return Err(ConfigError::ServerMissingPanicHotkey);
                }
            },
            Role::Client => {
                if self.id.is_none() {
                    return Err(ConfigError::ClientMissingId);
                }
                match &self.server {
                    None => {
                        return Err(ConfigError::ClientMissingServer);
                    },
                    Some(server) => {
                        if let Err(reason) = validate_server_address(server.as_str()) {
                            return Err(
                                ConfigError::InvalidServerAddress { value: server.clone(), reason },
                            );
                        }
                    },
                }
                match &self.input.return_edge {
                    None => {
                        return Err(ConfigError::ClientMissingReturnEdge);
                    },
                    Some(edge) => {
                        if crate::screen::Side::parse(edge.as_str()).is_none() {
                            return Err(ConfigError::UnknownReturnEdge { value: edge.clone() });
                        }
                    },
                }
            },
        }
        if let Err(e) = check_edge("top", &self.layout.top, &self.peers) {
            return Err(e);
        }
        if let Err(e) = check_edge("bottom", &self.layout.bottom, &self.peers) {
            return Err(e);
        }
        if let Err(e) = check_edge("left", &self.layout.left, &self.peers) {
            return Err(e);
        }
        check_edge("right", &self.layout.right, &self.peers)
    }

    /// The configuration that a file describes. `percent` says whether the
    /// system writes variables between percent signs.
    pub fn from_raw(raw: &RawConfig, env: &Environment, percent: bool) -> (r: Result<Config, ConfigError>)
        ensures
            match config_of(*raw, *env, percent) {
                Ok(config) => r matches Ok(got) && got@ == config,
                Err(e) => r matches Err(got) && got@ == e,
            },
    {
        let role: Role = match role_from_raw(&raw.role) {
            Err(e) => {
                return Err(e);
            },
            Ok(role) => role,
        };
        let peers: Vec<PeerConfig> = match Self::peers_from_raw(&raw.peers) {
            Err(e) => {
                return Err(e);
            },
            Ok(peers) => peers,
        };
        let layout: Layout = match layout_from_raw(&raw.layout) {
            Err(e) => {
                return Err(e);
            },
            Ok(layout) => layout,
        };
        let enabled: bool = match &raw.discovery {
            Some(discovery) => match discovery.enabled {
                Some(enabled) => enabled,
                None => false,
            },
            None => false,
        };
        let written: Option<String> = match &raw.security {
            Some(security) => copied(&security.key_file),
            None => None,
        };
        let written: String = match written {
            Some(written) => written,
            None => {
                return Err(ConfigError::MissingField { field: "security.key_file".to_owned() });
            },
        };
        let key_file: FilePath = match expand_config_path(
            written.as_str(),
            "security.key_file",
            env,
            percent,
        ) {
            Err(e) => {
                return Err(e);
            },
            Ok(key_file) => key_file,
        };
        if let Err(e) = check_numbers(&raw.input) {
            return Err(e);
        }
        let input: InputConfig = match &raw.input {
            Some(input) => InputConfig {
                panic_hotkey: copied(&input.panic_hotkey),
                return_edge: copied(&input.return_edge),
                mouse_scale: match &input.mouse_scale {
                    Some(scale) => scale.bits,
                    None => ONE,
                },
                anchor: match &input.anchor {
                    Some(anchor) => Some(anchor.bits),
                    None => None,
                },
            },
            None => InputConfig::default(),
        };
        let config = Config {
            role,
            bind: copied(&raw.bind),
            id: copied(&raw.id),
            server: copied(&raw.server),
            peers,
            layout,
            discovery: DiscoveryConfig { enabled },
            security: SecurityConfig { key_file, key_file_written: written },
            input,
        };
        match config.validate() {
            Err(e) => Err(e),
            Ok(()) => Ok(config),
        }
    }
}

/// Whatever a server's file says, if it loads there is an escape, an
/// address to listen on and somebody to listen to.
pub proof fn law_a_server_always_has_an_escape(raw: RawConfig, env: Environment, percent: bool, config: ConfigModel)
    requires
        config_of(raw, env, percent) == Ok::<ConfigModel, Fault>(config),
        config.role == Role::Server,
    ensures
        config.panic_hotkey is Some,
        config.bind is Some,
        config.peers.len() > 0,
{
}

/// Whatever a client's file says, if it loads there is a way back and a
/// server to dial.
pub proof fn law_a_client_always_has_a_way_back(raw: RawConfig, env: Environment, percent: bool, config: ConfigModel)
    requires
        config_of(raw, env, percent) == Ok::<ConfigModel, Fault>(config),
        config.role == Role::Client,
    ensures
        config.id is Some,
        config.server is Some,
        address_fault(config.server->0) is None,
        config.return_edge is Some,
        crate::windows::return_edge::edge_named(config.return_edge->0) is Some,
{
}

/// No edge of a layout that loads has a peer that may not connect.
pub proof fn law_every_edge_has_a_known_peer(raw: RawConfig, env: Environment, percent: bool, config: ConfigModel)
    requires
        config_of(raw, env, percent) == Ok::<ConfigModel, Fault>(config),
    ensures
        config.layout.top matches Some(id) ==> knows(config.peers, id),
        config.layout.bottom matches Some(id) ==> knows(config.peers, id),
        config.layout.left matches Some(id) ==> knows(config.peers, id),
        config.layout.right matches Some(id) ==> knows(config.peers, id),
{
}

/// A remap table that loads drops none of the lines of its file: every
/// name in it is a key's.
pub proof fn law_no_remap_line_is_dropped(peer: Seq<char>, remap: Seq<(String, String)>, i: int)
    requires
        rules_of(peer, remap) is Ok,
        0 <= i < remap.len(),
    ensures
        keymap::key_named(remap[i].0@) is Some,
        keymap::key_named(remap[i].1@) is Some,
        rules_of(peer, remap)->Ok_0.contains_key(keymap::key_named(remap[i].0@)->0),
    decreases remap.len(),
{
    if i < remap.len() - 1 {
        assert(remap.drop_last()[i] == remap[i]);
        law_no_remap_line_is_dropped(peer, remap.drop_last(), i);
    }
}

/// Of several values that are listed for a variable the first counts.
pub proof fn law_the_first_value_listed_counts(vars: Seq<(String, String)>, name: Seq<char>)
    ensures
        match set_to(vars, name) {
            Some(value) => exists|i: int|
                {
                    &&& 0 <= i < vars.len()
                    &&& (#[trigger] vars[i]).0@ == name
                    &&& vars[i].1@ == value
                    &&& forall|j: int| 0 <= j < i ==> (#[trigger] vars[j]).0@ != name
                },
            None => forall|i: int| 0 <= i < vars.len() ==> (#[trigger] vars[i]).0@ != name,
        },
    decreases vars.len(),
{
    if vars.len() > 0 {
        let start = vars.drop_last();
        law_the_first_value_listed_counts(start, name);
        match set_to(start, name) {
            Some(value) => {
                let i = choose|i: int|
                    {
                        &&& 0 <= i < start.len()
                        &&& (#[trigger] start[i]).0@ == name
                        &&& start[i].1@ == value
                        &&& forall|j: int| 0 <= j < i ==> (#[trigger] start[j]).0@ != name
                    };
                assert(vars[i] == start[i]);
                assert forall|j: int| 0 <= j < i implies (#[trigger] vars[j]).0@ != name by {
                    assert(vars[j] == start[j]);
                }
            },
            None => {
                assert forall|j: int| 0 <= j < vars.len() - 1 implies (#[trigger] vars[j]).0@ != name by {
                    assert(vars[j] == start[j]);
                }
                assert(vars[vars.len() - 1] == vars.last());
            },
        }
    }
}

/// The home directory is what HOME is set to, and where that is not set what
/// USERPROFILE is.
pub proof fn law_home_comes_before_the_user_profile(env: Environment)
    ensures
        env.value_of("HOME"@) is Some ==> env.spec_home() == env.value_of("HOME"@),
        env.value_of("HOME"@) is None ==> env.spec_home() == env.value_of("USERPROFILE"@),
{
}

proof fn lemma_no_separator_in_front(s: Seq<char>)
    requires
        s.len() == 0 || (s[0] != '/' && s[0] != '\\'),
    ensures
        without_separators(s) == s,
        without_separators(seq!['/'] + s) == s,
        without_separators(seq!['\\'] + s) == s,
{
    let slash = seq!['/'] + s;
    let backslash = seq!['\\'] + s;
    assert(without_separators(s) == s);
    assert(slash[0] == '/' && slash.skip(1) =~= s);
    assert(without_separators(slash) == without_separators(slash.skip(1)));
    assert(backslash[0] == '\\' && backslash.skip(1) =~= s);
    assert(without_separators(backslash) == without_separators(backslash.skip(1)));
}

/// A path that starts with a tilde lies in the home directory, at what stands
/// behind the separator; a tilde and a name is another user's home, and is
/// refused; any other path is what it is.
pub proof fn law_a_tilde_stands_for_the_home_directory(rest: Seq<char>, other: Seq<char>, field: Seq<char>, env: Environment)
    requires
        rest.len() > 0,
        rest[0] != '/' && rest[0] != '\\',
        other.len() == 0 || other[0] != '~',
    ensures
        match env.spec_home() {
            Some(home) => {
                &&& tilde_expanded(seq!['~'], field, env) == Ok::<PathModel, Fault>(
                    PathModel { base: home, below: None },
                )
                &&& tilde_expanded(seq!['~', '/'] + rest, field, env) == Ok::<PathModel, Fault>(
                    PathModel { base: home, below: Some(rest) },
                )
                &&& tilde_expanded(seq!['~', '\\'] + rest, field, env) == Ok::<PathModel, Fault>(
                    PathModel { base: home, below: Some(rest) },
                )
            },
            None => {
                &&& tilde_expanded(seq!['~'], field, env) is Err
                &&& tilde_expanded(seq!['~', '/'] + rest, field, env) is Err
                &&& tilde_expanded(seq!['~', '\\'] + rest, field, env) is Err
            },
        },
        tilde_expanded(seq!['~'] + rest, field, env) matches Err(
            Fault::PathExpansion { field: f, raw, reason: _ },
        ) && f == field && raw == seq!['~'] + rest,
        tilde_expanded(other, field, env) == Ok::<PathModel, Fault>(PathModel { base: other, below: None }),
{
    lemma_no_separator_in_front(rest);
    assert(seq!['~'].skip(1) =~= Seq::<char>::empty());
    assert((seq!['~', '/'] + rest).skip(1) =~= seq!['/'] + rest);
    assert((seq!['~', '\\'] + rest).skip(1) =~= seq!['\\'] + rest);
}

proof fn lemma_found_at(s: Seq<char>, c: char, at: int)
    requires
        0 <= at < s.len(),
        s[at] == c,
        forall|i: int| 0 <= i < at ==> #[trigger] s[i] != c,
    ensures
        text::find_from(s, c, 0) == Some(at),
{
    text::lemma_find_from(s, c, 0);
    if let Some(k) = text::find_from(s, c, 0) {
        if k < at {
            assert(s[k] != c);
        }
    }
}

/// The value of a variable stands where its name stood between percent signs,
/// and what is behind it is looked through in turn. The first name that is
/// not set is named. Text without percent signs is what it is, two in a row
/// stay, and so does one that is alone.
pub proof fn law_a_name_between_percent_signs_stands_for_its_value(
    before: Seq<char>,
    name: Seq<char>,
    after: Seq<char>,
    env: Environment,
)
    requires
        !before.contains('%'),
        !name.contains('%'),
    ensures
        percent_expanded(before, env) == Ok::<Seq<char>, Seq<char>>(before),
        percent_expanded(before + seq!['%'] + name, env) == Ok::<Seq<char>, Seq<char>>(before + seq!['%'] + name),
        name.len() > 0 ==> percent_expanded(before + seq!['%'] + name + seq!['%'] + after, env) == (match env.value_of(
            name,
        ) {
            None => Err::<Seq<char>, Seq<char>>(name),
            Some(value) => match percent_expanded(after, env) {
                Ok(tail) => Ok(before + value + tail),
                Err(bad) => Err(bad),
            },
        }),
        percent_expanded(before + seq!['%', '%'] + after, env) == (match percent_expanded(after, env) {
            Ok(tail) => Ok::<Seq<char>, Seq<char>>(before + seq!['%', '%'] + tail),
            Err(bad) => Err(bad),
        }),
{
    text::lemma_find_from(before, '%', 0);
    text::lemma_find_from(name, '%', 0);
    assert(text::find_from(before, '%', 0) is None) by {
        if let Some(k) = text::find_from(before, '%', 0) {
            assert(before[k] == '%');
        }
    }
    assert(text::find_from(name, '%', 0) is None) by {
        if let Some(k) = text::find_from(name, '%', 0) {
            assert(name[k] == '%');
        }
    }
    assert forall|i: int| 0 <= i < before.len() implies #[trigger] before[i] != '%' by {}
    assert forall|i: int| 0 <= i < name.len() implies #[trigger] name[i] != '%' by {}
    let n = before.len() as int;
    // One that is alone.
    let lone = before + seq!['%'] + name;
    assert forall|i: int| 0 <= i < n implies #[trigger] lone[i] != '%' by {
        assert(lone[i] == before[i]);
    }
    lemma_found_at(lone, '%', n);
    assert(lone.take(n) =~= before);
    assert(lone.skip(n + 1) =~= name);
    assert(percent_expanded(name, env) == Ok::<Seq<char>, Seq<char>>(name));
    // A name between two.
    if name.len() > 0 {
        let whole = before + seq!['%'] + name + seq!['%'] + after;
        let behind = name + seq!['%'] + after;
        assert forall|i: int| 0 <= i < n implies #[trigger] whole[i] != '%' by {
            assert(whole[i] == before[i]);
        }
        lemma_found_at(whole, '%', n);
        assert(whole.take(n) =~= before);
        assert(whole.skip(n + 1) =~= behind);
        assert forall|i: int| 0 <= i < name.len() implies #[trigger] behind[i] != '%' by {
            assert(behind[i] == name[i]);
        }
        lemma_found_at(behind, '%', name.len() as int);
        assert(behind.take(name.len() as int) =~= name);
        assert(behind.skip(name.len() as int + 1) =~= after);
    }
    // Two in a row.
    let twice = before + seq!['%', '%'] + after;
    let behind = seq!['%'] + after;
    assert forall|i: int| 0 <= i < n implies #[trigger] twice[i] != '%' by {
        assert(twice[i] == before[i]);
    }
    lemma_found_at(twice, '%', n);
    assert(twice.take(n) =~= before);
    assert(twice.skip(n + 1) =~= behind);
    lemma_found_at(behind, '%', 0);
    assert(behind.skip(1) =~= after);
}

/// Where variables are written between percent signs they are replaced first,
/// and then the tilde; elsewhere a percent sign is one.
pub proof fn law_variables_are_replaced_before_the_tilde(raw: Seq<char>, field: Seq<char>, env: Environment)
    ensures
        path_expanded(raw, field, env, false) == tilde_expanded(raw, field, env),
        percent_expanded(raw, env) matches Ok(text) ==> path_expanded(raw, field, env, true) == tilde_expanded(
            text,
            field,
            env,
        ),
        percent_expanded(raw, env) matches Err(name) ==> (path_expanded(raw, field, env, true) matches Err(
            Fault::PathExpansion { field: f, raw: r, reason: _ },
        ) && f == field && r == raw),
{
}

proof fn lemma_counted(s: Seq<char>, c: char)
    ensures
        !s.contains(c) ==> text::count_of(s, c) == 0,
        s.contains(c) ==> text::count_of(s, c) > 0,
    decreases s.len(),
{
    if s.len() > 0 {
        lemma_counted(s.drop_last(), c);
        if s.last() != c && s.contains(c) {
            let i = s.index_of(c);
            assert(s.drop_last()[i] == c);
        }
        if !s.contains(c) {
            assert(s[s.len() - 1] != c);
            assert forall|i: int| 0 <= i < s.len() - 1 implies s.drop_last()[i] != c by {
                assert(s[i] != c);
            }
        }
    }
}

proof fn lemma_counted_apart(a: Seq<char>, b: Seq<char>, c: char)
    ensures
        text::count_of(a + b, c) == text::count_of(a, c) + text::count_of(b, c),
    decreases b.len(),
{
    if b.len() == 0 {
        assert(a + b =~= a);
    } else {
        assert((a + b).drop_last() =~= a + b.drop_last());
        lemma_counted_apart(a, b.drop_last(), c);
    }
}

proof fn lemma_port(host: Seq<char>, port: nat)
    requires
        host.len() > 0,
    ensures
        host_port_fault(host, text::decimal(port)) is None <==> 1 <= port <= 65_535,
        !text::decimal(port).contains(':'),
{
    let digits = text::decimal(port);
    text::lemma_decimal_is_digits(port);
    if port <= 0xFFFF {
        text::law_numbers_survive_as_text(port, 0xFFFF);
    } else {
        text::law_numbers_survive_as_text(port, port);
    }
    if digits.contains(':') {
        let i = digits.index_of(':');
        assert('0' <= digits[i] && digits[i] <= '9');
    }
}

proof fn lemma_colons(host: Seq<char>, port: Seq<char>)
    requires
        !port.contains(':'),
    ensures
        host.contains(':') ==> text::count_of(host + seq![':'] + port, ':') > 1,
        !host.contains(':') ==> text::count_of(host + seq![':'] + port, ':') == 1,
{
    lemma_counted(host, ':');
    lemma_counted(port, ':');
    lemma_counted_apart(host + seq![':'], port, ':');
    lemma_counted_apart(host, seq![':'], ':');
    assert(seq![':'].drop_last() =~= Seq::<char>::empty());
    assert(text::count_of(seq![':'].drop_last(), ':') == 0);
    assert(text::count_of(seq![':'], ':') == 1);
}

proof fn lemma_plain_address(host: Seq<char>, port: Seq<char>)
    requires
        host.len() > 0,
        host[0] != '[',
        !port.contains(':'),
    ensures
        host.contains(':') ==> address_fault(host + seq![':'] + port) is Some,
        !host.contains(':') ==> address_fault(host + seq![':'] + port) == host_port_fault(host, port),
{
    let plain = host + seq![':'] + port;
    lemma_colons(host, port);
    assert(plain[0] == host[0]);
    if !host.contains(':') {
        assert forall|i: int| 0 <= i < host.len() implies #[trigger] plain[i] != ':' by {
            assert(plain[i] == host[i]);
            assert(host.contains(host[i]));
        }
        lemma_found_at(plain, ':', host.len() as int);
        assert(plain.take(host.len() as int) =~= host);
        assert(plain.skip(host.len() as int + 1) =~= port);
    }
}

proof fn lemma_bracketed_address(host: Seq<char>, port: Seq<char>)
    requires
        !host.contains(']'),
    ensures
        address_fault(seq!['['] + host + seq![']', ':'] + port) == host_port_fault(host, port),
{
    let bracketed = seq!['['] + host + seq![']', ':'] + port;
    let rest = host + seq![']', ':'] + port;
    assert(bracketed[0] == '[');
    assert(bracketed.skip(1) =~= rest);
    assert forall|i: int| 0 <= i < host.len() implies #[trigger] rest[i] != ']' by {
        assert(rest[i] == host[i]);
        assert(host.contains(host[i]));
    }
    lemma_found_at(rest, ']', host.len() as int);
    assert(rest.take(host.len() as int) =~= host);
    let after = rest.skip(host.len() as int + 1);
    assert(after =~= seq![':'] + port);
    assert(after.skip(1) =~= port);
}

/// A host and a port with a colon between them are an address, where the port
/// is a number from 1 to 65535; a host with colons in it stands in brackets.
pub proof fn law_a_host_and_a_port_are_an_address(host: Seq<char>, port: nat)
    requires
        host.len() > 0,
    ensures
        ({
            let good = 1 <= port <= 65_535;
            let plain = host + seq![':'] + text::decimal(port);
            let bracketed = seq!['['] + host + seq![']', ':'] + text::decimal(port);
            &&& !host.contains(':') && host[0] != '[' ==> (address_fault(plain) is None <==> good)
            &&& host.contains(':') && host[0] != '[' ==> address_fault(plain) is Some
            &&& !host.contains(']') ==> (address_fault(bracketed) is None <==> good)
        }),
{
    lemma_port(host, port);
    if host[0] != '[' {
        lemma_plain_address(host, text::decimal(port));
    }
    if !host.contains(']') {
        lemma_bracketed_address(host, text::decimal(port));
    }
}

/// Every address is a host and a port: a name without a port is none, nor is
/// one without a host, nor one with brackets that are not closed.
pub proof fn law_an_address_has_a_host_and_a_port(raw: Seq<char>) -> (parts: (Seq<char>, Seq<char>))
    requires
        address_fault(raw) is None,
    ensures
        parts.0.len() > 0,
        text::number(parts.1, 65_535) matches Some(n) && n > 0,
        raw == parts.0 + seq![':'] + parts.1 && !parts.0.contains(':') || raw == seq!['['] + parts.0 + seq![']', ':']
            + parts.1 && !parts.0.contains(']'),
{
    if raw.len() > 0 && raw[0] == '[' {
        let rest = raw.skip(1);
        text::lemma_find_from(rest, ']', 0);
        let at = text::find_from(rest, ']', 0)->0;
        let host = rest.take(at);
        let port = rest.skip(at + 1).skip(1);
        assert(raw =~= seq!['['] + host + seq![']', ':'] + port) by {
            assert(rest[at] == ']');
            assert(rest.skip(at + 1)[0] == rest[at + 1]);
        }
        assert(!host.contains(']')) by {
            if host.contains(']') {
                let i = host.index_of(']');
                assert(rest[i] == ']');
            }
        }
        (host, port)
    } else {
        text::lemma_find_from(raw, ':', 0);
        let at = text::find_from(raw, ':', 0)->0;
        let host = raw.take(at);
        let port = raw.skip(at + 1);
        assert(raw =~= host + seq![':'] + port);
        assert(!host.contains(':')) by {
            if host.contains(':') {
                let i = host.index_of(':');
                assert(raw[i] == ':');
            }
        }
        (host, port)
    }
}

/// A usable scale is a number above zero that is not infinite: the sign is
/// not set, the exponent is not all ones, and it is not zero. A usable anchor
/// is at most one, and not below zero.
pub proof fn law_usable_numbers_lie_in_their_range(scale: u64, anchor: u32)
    ensures
        usable_scale(scale) <==> scale != 0 && scale / 0x8000_0000_0000_0000 == 0 && scale / 0x10_0000_0000_0000 % 0x800
            != 0x7FF,
        usable_anchor(anchor) <==> (anchor / 0x8000_0000 == 0 && anchor <= 0x7F * 0x80_0000) || anchor == 0x8000_0000,
        usable_scale(ONE),
        ONE / 0x10_0000_0000_0000 == 0x3FF && ONE % 0x10_0000_0000_0000 == 0,
{
}

/// Whether an entry is the last of a number of them for its name.
pub open spec fn last_of_its_name(entries: Seq<(String, String)>, i: int) -> bool {
    &&& 0 <= i < entries.len()
    &&& forall|j: int| i < j < entries.len() ==> (#[trigger] entries[j]).0@ != entries[i].0@
}

/// The last line for a key counts. The key is turned into what its line says,
/// and no other key is turned into anything.
pub proof fn law_the_last_line_for_a_key_counts(peer: Seq<char>, remap: Seq<(String, String)>, i: int, other: Usage)
    requires
        rules_of(peer, remap) is Ok,
        last_of_its_name(remap, i),
    ensures
        ({
            let rules = rules_of(peer, remap)->Ok_0;
            &&& rules.contains_key(keymap::key_named(remap[i].0@)->0)
            &&& keymap::key_named(remap[i].1@) == Some(rules[keymap::key_named(remap[i].0@)->0])
            &&& rules.contains_key(other) ==> exists|j: int|
                0 <= j < remap.len() && keymap::key_named((#[trigger] remap[j]).0@) == Some(other)
        }),
    decreases remap.len(),
{
    law_no_remap_line_is_dropped(peer, remap, i);
    let start = remap.drop_last();
    let last = remap.len() - 1;
    assert(remap[last] == remap.last());
    law_no_remap_line_is_dropped(peer, remap, last);
    if i < last {
        assert(remap[last].0@ != remap[i].0@);
        if keymap::key_named(remap[last].0@) == keymap::key_named(remap[i].0@) {
            keymap::law_no_two_names_share_a_key(remap[last].0@, remap[i].0@);
        }
        assert(start[i] == remap[i]);
        assert(last_of_its_name(start, i)) by {
            assert forall|j: int| i < j < start.len() implies (#[trigger] start[j]).0@ != start[i].0@ by {
                assert(start[j] == remap[j]);
            }
        }
        law_the_last_line_for_a_key_counts(peer, start, i, other);
    }
    lemma_only_lines_make_rules(peer, remap, other);
}

proof fn lemma_only_lines_make_rules(peer: Seq<char>, remap: Seq<(String, String)>, other: Usage)
    requires
        rules_of(peer, remap) is Ok,
    ensures
        rules_of(peer, remap)->Ok_0.contains_key(other) ==> exists|j: int|
            0 <= j < remap.len() && keymap::key_named((#[trigger] remap[j]).0@) == Some(other),
    decreases remap.len(),
{
    if remap.len() > 0 {
        let start = remap.drop_last();
        lemma_only_lines_make_rules(peer, start, other);
        assert(remap[remap.len() - 1] == remap.last());
        if rules_of(peer, start)->Ok_0.contains_key(other) {
            let j = choose|j: int|
                0 <= j < start.len() && keymap::key_named((#[trigger] start[j]).0@) == Some(other);
            assert(remap[j] == start[j]);
        }
    }
}

/// The first line of a remap table that is none is named, with its peer: by
/// its key if that is no key's name, and else by its key and its value.
pub proof fn law_the_first_bad_line_is_named(peer: Seq<char>, remap: Seq<(String, String)>, i: int)
    requires
        0 <= i < remap.len(),
        forall|j: int|
            0 <= j < i ==> keymap::key_named((#[trigger] remap[j]).0@) is Some && keymap::key_named(remap[j].1@) is Some,
        keymap::key_named(remap[i].0@) is None || keymap::key_named(remap[i].1@) is None,
    ensures
        rules_of(peer, remap) == Err::<Map<Usage, Usage>, Fault>(
            if keymap::key_named(remap[i].0@) is None {
                Fault::UnknownRemapKey { peer, key: remap[i].0@ }
            } else {
                Fault::UnknownRemapValue { peer, key: remap[i].0@, value: remap[i].1@ }
            },
        ),
{
    lemma_good_lines(peer, remap, i);
    assert(remap.take(i + 1).drop_last() =~= remap.take(i));
    assert(remap.take(i + 1).last() == remap[i]);
    lemma_first_bad_rule(peer, remap, i + 1);
}

proof fn lemma_good_lines(peer: Seq<char>, remap: Seq<(String, String)>, i: int)
    requires
        0 <= i <= remap.len(),
        forall|j: int|
            0 <= j < i ==> keymap::key_named((#[trigger] remap[j]).0@) is Some && keymap::key_named(remap[j].1@) is Some,
    ensures
        rules_of(peer, remap.take(i)) is Ok,
    decreases i,
{
    if i > 0 {
        lemma_good_lines(peer, remap, i - 1);
        assert(remap.take(i).drop_last() =~= remap.take(i - 1));
        assert(remap.take(i).last() == remap[i - 1]);
    }
}

/// The peers are those of the file, one for one and in order, each with its
/// own id and its own rules.
pub proof fn law_each_peer_is_its_own_section(raw: Seq<RawPeer>, i: int)
    requires
        peers_of(raw) is Ok,
        0 <= i < raw.len(),
    ensures
        peers_of(raw)->Ok_0.len() == raw.len(),
        raw[i].id matches Some(id) && peers_of(raw)->Ok_0[i].id == id@ && rules_of(id@, raw[i].remap@) == Ok::<
            Map<Usage, Usage>,
            Fault,
        >(peers_of(raw)->Ok_0[i].rules),
    decreases raw.len(),
{
    let start = raw.drop_last();
    if start.len() > 0 {
        law_each_peer_is_its_own_section(start, if i < start.len() { i } else { 0 });
        if i < start.len() {
            assert(start[i] == raw[i]);
        }
    } else {
        assert(peers_of(start) == Ok::<Seq<PeerModel>, Fault>(Seq::empty()));
    }
    assert(raw[raw.len() - 1] == raw.last());
}

/// A peer without an id is refused by its place in the file.
pub proof fn law_a_peer_without_an_id_is_named_by_its_place(raw: Seq<RawPeer>, i: int)
    requires
        0 <= i < raw.len(),
        raw[i].id is None,
        peers_of(raw.take(i)) is Ok,
    ensures
        peers_of(raw) == Err::<Seq<PeerModel>, Fault>(
            Fault::MissingField { field: "peers["@ + text::decimal(i as nat) + "].id"@ },
        ),
{
    assert(raw.take(i + 1).drop_last() =~= raw.take(i));
    assert(raw.take(i + 1).last() == raw[i]);
    lemma_first_bad_peer(raw, i + 1);
}

/// At each edge there is the peer that the last line for that edge names, and
/// nobody where there is no such line.
pub proof fn law_the_last_line_for_an_edge_counts(raw: Seq<(String, String)>, i: int)
    requires
        layout_of(raw) is Ok,
    ensures
        ({
            let layout = layout_of(raw)->Ok_0;
            &&& last_of_its_name(raw, i) && raw[i].0@ == "top"@ ==> layout.top == Some(raw[i].1@)
            &&& last_of_its_name(raw, i) && raw[i].0@ == "bottom"@ ==> layout.bottom == Some(raw[i].1@)
            &&& last_of_its_name(raw, i) && raw[i].0@ == "left"@ ==> layout.left == Some(raw[i].1@)
            &&& last_of_its_name(raw, i) && raw[i].0@ == "right"@ ==> layout.right == Some(raw[i].1@)
            &&& (forall|j: int| 0 <= j < raw.len() ==> (#[trigger] raw[j]).0@ != "top"@) ==> layout.top is None
            &&& (forall|j: int| 0 <= j < raw.len() ==> (#[trigger] raw[j]).0@ != "bottom"@) ==> layout.bottom is None
            &&& (forall|j: int| 0 <= j < raw.len() ==> (#[trigger] raw[j]).0@ != "left"@) ==> layout.left is None
            &&& (forall|j: int| 0 <= j < raw.len() ==> (#[trigger] raw[j]).0@ != "right"@) ==> layout.right is None
        }),
    decreases raw.len(),
{
    crate::screen::law_a_side_goes_by_its_name("top"@);
    crate::screen::law_a_side_goes_by_its_name("bottom"@);
    crate::screen::law_a_side_goes_by_its_name("left"@);
    crate::screen::law_a_side_goes_by_its_name("right"@);
    if raw.len() > 0 {
        let start = raw.drop_last();
        assert(raw[raw.len() - 1] == raw.last());
        law_the_last_line_for_an_edge_counts(start, i);
        if last_of_its_name(raw, i) && i < start.len() {
            assert(start[i] == raw[i]);
            assert forall|j: int| i < j < start.len() implies (#[trigger] start[j]).0@ != start[i].0@ by {
                assert(start[j] == raw[j]);
            }
            assert(last_of_its_name(start, i));
        }
        assert forall|j: int| 0 <= j < start.len() implies #[trigger] start[j] == raw[j] by {}
    }
}

/// An edge that is none is named, the first one that is.
pub proof fn law_an_unknown_edge_is_named(raw: Seq<(String, String)>, i: int)
    requires
        0 <= i < raw.len(),
        layout_of(raw.take(i)) is Ok,
        crate::screen::side_named(raw[i].0@) is None,
    ensures
        layout_of(raw) == Err::<LayoutModel, Fault>(Fault::UnknownEdge { edge: raw[i].0@ }),
{
    crate::screen::law_a_side_goes_by_its_name(raw[i].0@);
    assert(raw.take(i + 1).drop_last() =~= raw.take(i));
    assert(raw.take(i + 1).last() == raw[i]);
    lemma_first_bad_edge(raw, i + 1);
}

/// What loads is what the file says, field by field. What it does not say is
/// off, unset, or a scale of one.
pub proof fn law_what_loads_is_what_the_file_says(raw: RawConfig, env: Environment, percent: bool, config: ConfigModel)
    requires
        config_of(raw, env, percent) == Ok::<ConfigModel, Fault>(config),
    ensures
        raw.role matches Some(role) && (config.role == Role::Server && role@ == "server"@ || config.role == Role::Client
            && role@ == "client"@),
        config.bind == said(raw.bind),
        config.id == said(raw.id),
        config.server == said(raw.server),
        peers_of(raw.peers@) == Ok::<Seq<PeerModel>, Fault>(config.peers),
        layout_of(raw.layout@) == Ok::<LayoutModel, Fault>(config.layout),
        raw.discovery is None ==> !config.discovery,
        raw.discovery matches Some(discovery) ==> config.discovery == (discovery.enabled == Some(true)),
        raw.security matches Some(security) && (security.key_file matches Some(written) && config.key_file_written
            == written@ && path_expanded(written@, "security.key_file"@, env, percent) == Ok::<PathModel, Fault>(
            config.key_file,
        )),
        raw.input is None ==> config.panic_hotkey is None && config.return_edge is None && config.mouse_scale
            == 0x3FF0_0000_0000_0000 && config.anchor is None,
        raw.input matches Some(input) ==> {
            &&& config.panic_hotkey == said(input.panic_hotkey)
            &&& config.return_edge == said(input.return_edge)
            &&& input.mouse_scale is None ==> config.mouse_scale == 0x3FF0_0000_0000_0000
            &&& input.mouse_scale matches Some(scale) ==> config.mouse_scale == scale.bits
            &&& input.anchor is None ==> config.anchor is None
            &&& input.anchor matches Some(anchor) ==> config.anchor == Some(anchor.bits)
        },
        usable_scale(config.mouse_scale),
        config.anchor matches Some(anchor) ==> usable_anchor(anchor),
{
    if let Some(discovery) = raw.discovery {
        if discovery.enabled == Some(true) {
            assert(discovery == RawDiscovery { enabled: Some(true) });
        }
    }
}

/// A file that has everything its role needs loads.
pub proof fn law_a_complete_file_loads(raw: RawConfig, env: Environment, percent: bool)
    requires
        raw.role matches Some(role) && (role@ == "server"@ || role@ == "client"@),
        raw.role->0@ == "server"@ ==> {
            &&& raw.bind is Some
            &&& raw.peers@.len() > 0
            &&& raw.input matches Some(input) && input.panic_hotkey is Some
        },
        raw.role->0@ == "client"@ ==> {
            &&& raw.id is Some
            &&& raw.server matches Some(server) && address_fault(server@) is None
            &&& raw.input matches Some(input) && (input.return_edge matches Some(edge) && crate::screen::side_named(
                edge@,
            ) is Some)
        },
        peers_of(raw.peers@) is Ok,
        layout_of(raw.layout@) is Ok,
        layout_of(raw.layout@)->Ok_0.top matches Some(id) ==> knows(peers_of(raw.peers@)->Ok_0, id),
        layout_of(raw.layout@)->Ok_0.bottom matches Some(id) ==> knows(peers_of(raw.peers@)->Ok_0, id),
        layout_of(raw.layout@)->Ok_0.left matches Some(id) ==> knows(peers_of(raw.peers@)->Ok_0, id),
        layout_of(raw.layout@)->Ok_0.right matches Some(id) ==> knows(peers_of(raw.peers@)->Ok_0, id),
        raw.security matches Some(security) && (security.key_file matches Some(written) && path_expanded(
            written@,
            "security.key_file"@,
            env,
            percent,
        ) is Ok),
        raw.input matches Some(input) ==> (input.mouse_scale matches Some(scale) ==> usable_scale(scale.bits)),
        raw.input matches Some(input) ==> (input.anchor matches Some(anchor) ==> usable_anchor(anchor.bits)),
    ensures
        config_of(raw, env, percent) is Ok,
{
    reveal_strlit("server");
    reveal_strlit("client");
    assert("server"@[0] == 's');
    assert("client"@[0] == 'c');
    if raw.peers@.len() > 0 {
        law_each_peer_is_its_own_section(raw.peers@, 0);
    }
}

/// What is missing is named: the first of what the role needs, and else the
/// first edge whose peer is not configured.
pub proof fn law_what_is_missing_is_named(c: ConfigModel)
    ensures
        c.role == Role::Server && c.bind is None ==> fault_in(c) == Some(Fault::ServerMissingBind),
        c.role == Role::Server && c.bind is Some && c.peers.len() == 0 ==> fault_in(c) == Some(
            Fault::ServerMissingPeers,
        ),
        c.role == Role::Server && c.bind is Some && c.peers.len() > 0 && c.panic_hotkey is None ==> fault_in(c) == Some(
            Fault::ServerMissingPanicHotkey,
        ),
        c.role == Role::Client && c.id is None ==> fault_in(c) == Some(Fault::ClientMissingId),
        c.role == Role::Client && c.id is Some && c.server is None ==> fault_in(c) == Some(Fault::ClientMissingServer),
        c.role == Role::Client && c.id is Some ==> (c.server matches Some(server) ==> (address_fault(server) matches Some(
            reason,
        ) ==> fault_in(c) == Some(Fault::InvalidServerAddress { value: server, reason }))),
        c.role == Role::Client && c.id is Some && c.return_edge is None ==> (c.server matches Some(server) ==> (
        address_fault(server) is None ==> fault_in(c) == Some(Fault::ClientMissingReturnEdge))),
        c.role == Role::Client && c.id is Some ==> (c.server matches Some(server) ==> (c.return_edge matches Some(edge)
            ==> (address_fault(server) is None && crate::screen::side_named(edge) is None ==> fault_in(c) == Some(
            Fault::UnknownReturnEdge { value: edge },
        )))),
        fault_in(c) matches Some(Fault::LayoutUnknownPeer { edge, peer }) ==> !knows(c.peers, peer) && (edge == "top"@
            && c.layout.top == Some(peer) || edge == "bottom"@ && c.layout.bottom == Some(peer) || edge == "left"@
            && c.layout.left == Some(peer) || edge == "right"@ && c.layout.right == Some(peer)),
{
}

/// A role that is missing, or that is none, is named before anything else.
pub proof fn law_a_role_is_server_or_client(raw: RawConfig, env: Environment, percent: bool)
    ensures
        raw.role is None ==> config_of(raw, env, percent) == Err::<ConfigModel, Fault>(
            Fault::MissingField { field: "role"@ },
        ),
        raw.role matches Some(role) ==> (role@ != "server"@ && role@ != "client"@ ==> config_of(raw, env, percent)
            == Err::<ConfigModel, Fault>(Fault::InvalidValue { field: "role"@, value: role@ })),
{
}

} // verus!
