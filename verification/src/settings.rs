//! The client's settings that its window can change, and the file they are
//! written to.
//!
//! Saving writes the whole file anew. How a number reads, and the file
//! itself, are the caller's.

use vstd::prelude::*;

use crate::config;
use crate::config::{anchor_is_usable, scale_is_usable, Config, ConfigModel, Environment, RawConfig, ONE};
use crate::screen;
use crate::screen::Side;
use crate::text;
use crate::text::{contains, trim};

verus! {

/// What the window can change.
#[derive(Debug, Clone, PartialEq)]
pub struct Settings {
    /// The server's host and port.
    pub server: String,
    /// This machine's id, as the server's list of peers knows it.
    pub id: String,
    /// Where the shared key lives, as written in the file.
    pub key_file: String,
    /// Which edge of this machine's desktop faces the Mac.
    pub return_edge: String,
    /// What motion is multiplied by: the bits of a double precision number.
    pub mouse_scale: u64,
    /// The bits of a single precision number, or `None` for "centred under
    /// the primary monitor".
    pub anchor: Option<u32>,
}

/// What [`Settings`] say.
#[verifier::ext_equal]
pub struct SettingsModel {
    pub server: Seq<char>,
    pub id: Seq<char>,
    pub key_file: Seq<char>,
    pub return_edge: Seq<char>,
    pub mouse_scale: u64,
    pub anchor: Option<u32>,
}

impl View for Settings {
    type V = SettingsModel;

    open spec fn view(&self) -> SettingsModel {
        SettingsModel {
            server: self.server@,
            id: self.id@,
            key_file: self.key_file@,
            return_edge: self.return_edge@,
            mouse_scale: self.mouse_scale,
            anchor: self.anchor,
        }
    }
}

impl SettingsModel {
    /// The settings of a machine that has no file yet.
    pub open spec fn defaults() -> SettingsModel {
        SettingsModel {
            server: Seq::empty(),
            id: "pc"@,
            key_file: "%APPDATA%\\hop\\key"@,
            return_edge: "bottom"@,
            mouse_scale: ONE,
            anchor: None,
        }
    }

    /// The settings in a configuration.
    pub open spec fn of(config: ConfigModel) -> SettingsModel {
        SettingsModel {
            server: match config.server {
                Some(server) => server,
                None => Seq::empty(),
            },
            id: match config.id {
                Some(id) => id,
                None => "pc"@,
            },
            key_file: config.key_file_written,
            return_edge: match config.return_edge {
                Some(edge) => edge,
                None => "bottom"@,
            },
            mouse_scale: config.mouse_scale,
            anchor: config.anchor,
        }
    }

    /// What is wrong with the settings, if anything is.
    pub open spec fn fault(self) -> Option<Seq<char>> {
        if text::trimmed(self.server).len() == 0 {
            Some("the server address is empty"@)
        } else if !self.server.contains(':') {
            Some("the server address needs a port, like 192.168.1.42:24810"@)
        } else if let Some(reason) = config::address_fault(self.server) {
            Some("the server address cannot be used: "@ + reason)
        } else if text::trimmed(self.id).len() == 0 {
            Some("this machine needs an id, matching the Mac's [[peers]] list"@)
        } else if text::trimmed(self.key_file).len() == 0 {
            Some("the key file path is empty"@)
        } else if !(writable(self.server) && writable(self.id) && writable(self.key_file)) {
            Some("the address, the id and the key file path cannot hold control characters"@)
        } else if config::in_other_home(self.key_file) {
            Some("the key file cannot be in another user's home directory; write an absolute path"@)
        } else if screen::side_named(self.return_edge) is None {
            Some(self.return_edge + " is not an edge name"@)
        } else if !config::usable_scale(self.mouse_scale) {
            Some("pointer speed must be greater than zero"@)
        } else {
            match self.anchor {
                Some(anchor) => if config::usable_anchor(anchor) {
                    None
                } else {
                    Some("the anchor must be between 0.0 and 1.0"@)
                },
                None => None,
            }
        }
    }

    /// The file that the settings describe, given how the numbers read.
    pub open spec fn written(self, mouse_scale: Seq<char>, anchor: Seq<char>) -> Seq<char> {
        "# Written by hop. Editing by hand is fine; hop\n# rewrites this whole file when you save from its window,\n# so comments you add here will not survive that.\n\nrole = \"client\"\nid = "@
            + quoted(self.id) + "\n# The Mac's address and port.\nserver = "@ + quoted(self.server)
            + "\n\n[security]\n# Both machines must hold the SAME key file.\nkey_file = "@ + quoted(
            self.key_file,
        )
            + "\n\n[input]\n# The edge of this desktop that faces the Mac. Focus both\n# arrives on and leaves through this edge, and it must be\n# the mirror of the Mac's [layout] edge.\nreturn_edge = "@
            + quoted(self.return_edge)
            + "\n# Lower this if the pointer travels further here than on\n# the Mac.\nmouse_scale = "@
            + mouse_scale + "\n# Where along return_edge the Mac sits, 0.0 to 1.0.\n"@ + (match self.anchor {
            Some(_) => "anchor = "@ + anchor + "\n"@,
            None => "# Unset means centred under the primary monitor.\n# anchor = 0.5\n"@,
        })
    }
}

/// Text with a backslash before every backslash and every quotation mark.
pub open spec fn escaped(s: Seq<char>) -> Seq<char>
    decreases s.len(),
{
    if s.len() == 0 {
        Seq::empty()
    } else {
        let before = escaped(s.drop_last());
        if s.last() == '\\' || s.last() == '"' {
            before.push('\\').push(s.last())
        } else {
            before.push(s.last())
        }
    }
}

/// Text as a TOML basic string.
pub open spec fn quoted(s: Seq<char>) -> Seq<char> {
    seq!['"'] + escaped(s) + seq!['"']
}

/// Whether TOML forbids a character in a basic string: the control
/// characters but for the tab.
pub open spec fn forbidden(c: char) -> bool {
    let n = c as u32;
    (n < 0x20 && n != 0x09) || n == 0x7F
}

/// Whether text can stand in a TOML basic string.
pub open spec fn writable(s: Seq<char>) -> bool {
    forall|i: int| 0 <= i < s.len() ==> !forbidden(#[trigger] s[i])
}

fn can_be_written(s: &str) -> (r: bool)
    ensures
        r == writable(s@),
{
    let cs: Vec<char> = text::chars(s);
    let mut i: usize = 0;
    while i < cs.len()
        invariant
            i <= cs@.len(),
            cs@ == s@,
            forall|j: int| 0 <= j < i ==> !forbidden(#[trigger] s@[j]),
        decreases cs@.len() - i,
    {
        let n: u32 = cs[i] as u32;
        if (n < 0x20 && n != 0x09) || n == 0x7F {
            assert(forbidden(s@[i as int]));
            return false;
        }
        i = i + 1;
    }
    true
}

/// What the inside of a TOML basic string stands for, where it holds no
/// escapes but those of a backslash and a quotation mark. `escape` says
/// whether a backslash came just before.
pub open spec fn unescaped(s: Seq<char>, escape: bool) -> Option<Seq<char>>
    decreases s.len(),
{
    if s.len() == 0 {
        if escape {
            None
        } else {
            Some(Seq::empty())
        }
    } else {
        let c = s[0];
        if escape {
            if c == '\\' || c == '"' {
                match unescaped(s.skip(1), false) {
                    Some(rest) => Some(seq![c] + rest),
                    None => None,
                }
            } else {
                None
            }
        } else if c == '\\' {
            unescaped(s.skip(1), true)
        } else if c == '"' || forbidden(c) {
            None
        } else {
            match unescaped(s.skip(1), false) {
                Some(rest) => Some(seq![c] + rest),
                None => None,
            }
        }
    }
}

/// What a TOML basic string stands for, if it is one.
pub open spec fn basic_string(s: Seq<char>) -> Option<Seq<char>> {
    if s.len() >= 2 && s[0] == '"' && s.last() == '"' {
        unescaped(s.subrange(1, s.len() - 1), false)
    } else {
        None
    }
}

proof fn lemma_escaped_first(s: Seq<char>)
    requires
        s.len() > 0,
    ensures
        escaped(s) == escaped(s.take(1)) + escaped(s.skip(1)),
    decreases s.len(),
{
    if s.len() == 1 {
        assert(s.take(1) =~= s);
        assert(escaped(s.skip(1)) =~= Seq::<char>::empty());
        assert(escaped(s) + Seq::<char>::empty() =~= escaped(s));
    } else {
        lemma_escaped_first(s.drop_last());
        assert(s.drop_last().take(1) =~= s.take(1));
        assert(s.drop_last().skip(1) =~= s.skip(1).drop_last());
        let a = escaped(s.take(1));
        let b = escaped(s.skip(1).drop_last());
        let c = s.last();
        assert(s.skip(1).last() == c);
        assert((a + b).push(c) =~= a + b.push(c));
        assert((a + b).push('\\').push(c) =~= a + b.push('\\').push(c));
    }
}

proof fn lemma_unescaped(s: Seq<char>)
    requires
        forall|i: int| 0 <= i < s.len() ==> !forbidden(#[trigger] s[i]),
    ensures
        unescaped(escaped(s), false) == Some(s),
    decreases s.len(),
{
    if s.len() > 0 {
        let rest = s.skip(1);
        assert forall|i: int| 0 <= i < rest.len() implies !forbidden(#[trigger] rest[i]) by {
            assert(rest[i] == s[i + 1]);
        }
        lemma_unescaped(rest);
        lemma_escaped_first(s);
        let c = s[0];
        let first = s.take(1);
        assert(first.drop_last() =~= Seq::<char>::empty());
        assert(escaped(first.drop_last()) =~= Seq::<char>::empty());
        let whole = escaped(s);
        assert(seq![c] + rest =~= s);
        if c == '\\' || c == '"' {
            assert(escaped(first) =~= seq!['\\', c]);
            assert(whole.skip(1).skip(1) =~= escaped(rest));
            assert(whole[0] == '\\');
            assert(whole.skip(1)[0] == c);
            assert(unescaped(whole.skip(1), true) == Some(seq![c] + rest));
        } else {
            assert(escaped(first) =~= seq![c]);
            assert(whole.skip(1) =~= escaped(rest));
            assert(whole[0] == c);
            assert(!forbidden(s[0]));
        }
    } else {
        assert(s =~= Seq::<char>::empty());
    }
}

/// What is written as a TOML string comes back as it was, backslashes of
/// Windows paths included, unless it holds a control character.
pub proof fn law_a_quoted_string_reads_back(s: Seq<char>)
    requires
        writable(s),
    ensures
        basic_string(quoted(s)) == Some(s),
{
    lemma_unescaped(s);
    assert(quoted(s).subrange(1, quoted(s).len() - 1) =~= escaped(s));
}

/// Text as a TOML basic string. A backslash is TOML's escape character, and
/// Windows paths are full of them.
pub fn quote(value: &str) -> (r: String)
    ensures
        r@ == quoted(value@),
{
    let cs: Vec<char> = text::chars(value);
    let mut out: String = "\"".to_owned();
    let mut i: usize = 0;
    proof {
        reveal_strlit("\"");
        assert(value@.take(0) =~= Seq::<char>::empty());
        assert(out@ =~= seq!['"'] + escaped(value@.take(0)));
    }
    while i < cs.len()
        invariant
            i <= cs@.len(),
            cs@ == value@,
            out@ == seq!['"'] + escaped(value@.take(i as int)),
        decreases cs@.len() - i,
    {
        let ghost before = escaped(value@.take(i as int));
        let ghost so_far = out@;
        let c: char = cs[i];
        assert(value@.take(i + 1).drop_last() =~= value@.take(i as int));
        if c == '\\' || c == '"' {
            out.append("\\");
            proof {
                reveal_strlit("\\");
                assert(out@ =~= so_far.push('\\'));
            }
        }
        let ghost marked = out@;
        let one: String = value.substring_char(i, i + 1).to_owned();
        out.append(one.as_str());
        proof {
            assert(one@ =~= seq![c]);
            assert(out@ =~= marked.push(c));
            assert(out@ =~= seq!['"'] + escaped(value@.take(i + 1)));
        }
        i = i + 1;
    }
    out.append("\"");
    proof {
        assert(value@.take(i as int) =~= value@);
        reveal_strlit("\"");
        assert("\""@ =~= seq!['"']);
        assert(out@ =~= quoted(value@));
    }
    out
}

/// Whether the bits are those of no number at all.
pub open spec fn not_a_double(bits: u64) -> bool {
    0x7FF0_0000_0000_0000 < bits <= 0x7FFF_FFFF_FFFF_FFFF || bits > 0xFFF0_0000_0000_0000
}

/// Whether the bits are those of no number at all.
pub open spec fn not_a_single(bits: u32) -> bool {
    0x7F80_0000 < bits <= 0x7FFF_FFFF || bits > 0xFF80_0000
}

/// Whether two double precision numbers are equal: zero has two signs, and
/// what is no number equals nothing.
pub open spec fn equal_doubles(a: u64, b: u64) -> bool {
    let zeros = (a == 0 || a == 0x8000_0000_0000_0000) && (b == 0 || b == 0x8000_0000_0000_0000);
    zeros || (a == b && !not_a_double(a))
}

/// Whether two single precision numbers are equal.
pub open spec fn equal_singles(a: u32, b: u32) -> bool {
    let zeros = (a == 0 || a == 0x8000_0000) && (b == 0 || b == 0x8000_0000);
    zeros || (a == b && !not_a_single(a))
}

impl SettingsModel {
    /// Whether two settings say the same, their numbers compared as
    /// numbers.
    pub open spec fn alike(self, other: SettingsModel) -> bool {
        &&& self.server == other.server
        &&& self.id == other.id
        &&& self.key_file == other.key_file
        &&& self.return_edge == other.return_edge
        &&& equal_doubles(self.mouse_scale, other.mouse_scale)
        &&& match (self.anchor, other.anchor) {
            (Some(a), Some(b)) => equal_singles(a, b),
            (None, None) => true,
            _ => false,
        }
    }
}

impl Default for Settings {
    fn default() -> (r: Settings)
        ensures
            r@ == SettingsModel::defaults(),
    {
        Settings {
            server: String::new(),
            id: "pc".to_owned(),
            key_file: "%APPDATA%\\hop\\key".to_owned(),
            return_edge: "bottom".to_owned(),
            mouse_scale: ONE,
            anchor: None,
        }
    }
}

impl Settings {
    /// Pulls what can be changed out of a loaded configuration.
    pub fn from_config(config: &Config) -> (r: Settings)
        ensures
            r@ == SettingsModel::of(config@),
    {
        Settings {
            server: match &config.server {
                Some(server) => server.clone(),
                None => String::new(),
            },
            id: match &config.id {
                Some(id) => id.clone(),
                None => "pc".to_owned(),
            },
            key_file: config.security.key_file_written.clone(),
            return_edge: match &config.input.return_edge {
                Some(edge) => edge.clone(),
                None => "bottom".to_owned(),
            },
            mouse_scale: config.input.mouse_scale,
            anchor: config.input.anchor,
        }
    }

    /// The same settings once more.
    pub fn duplicate(&self) -> (r: Settings)
        ensures
            r@ == self@,
    {
        Settings {
            server: self.server.clone(),
            id: self.id.clone(),
            key_file: self.key_file.clone(),
            return_edge: self.return_edge.clone(),
            mouse_scale: self.mouse_scale,
            anchor: self.anchor,
        }
    }

    /// Whether two settings say the same.
    pub fn same_as(&self, other: &Settings) -> (r: bool)
        ensures
            r == self@.alike(other@),
    {
        let (a, b) = (self.mouse_scale, other.mouse_scale);
        let scales: bool = ((a == 0 || a == 0x8000_0000_0000_0000) && (b == 0 || b
            == 0x8000_0000_0000_0000)) || (a == b && a <= 0xFFF0_0000_0000_0000 && !(0x7FF0_0000_0000_0000
            < a && a <= 0x7FFF_FFFF_FFFF_FFFF));
        let anchors: bool = match (self.anchor, other.anchor) {
            (Some(a), Some(b)) => ((a == 0 || a == 0x8000_0000) && (b == 0 || b == 0x8000_0000)) || (a == b && a
                <= 0xFF80_0000 && !(0x7F80_0000 < a && a <= 0x7FFF_FFFF)),
            (None, None) => true,
            _ => false,
        };
        text::same(self.server.as_str(), other.server.as_str()) && text::same(
            self.id.as_str(),
            other.id.as_str(),
        ) && text::same(self.key_file.as_str(), other.key_file.as_str()) && text::same(
            self.return_edge.as_str(),
            other.return_edge.as_str(),
        ) && scales && anchors
    }

    /// The settings of a machine whose file was loaded, or the defaults if
    /// it could not be: a missing file is what the first run looks like.
    pub fn load(loaded: Option<&Config>) -> (r: Settings)
        ensures
            r@ == match loaded {
                Some(config) => SettingsModel::of(config@),
                None => SettingsModel::defaults(),
            },
    {
        match loaded {
            Some(config) => Self::from_config(config),
            None => Self::default(),
        }
    }

    /// The complete file that these settings describe. `mouse_scale` and
    /// `anchor` are how the two numbers read.
    pub fn to_toml(&self, mouse_scale: &str, anchor: &str) -> (r: String)
        ensures
            r@ == self@.written(mouse_scale@, anchor@),
    {
        let out: String =
            "# Written by hop. Editing by hand is fine; hop\n# rewrites this whole file when you save from its window,\n# so comments you add here will not survive that.\n\nrole = \"client\"\nid = ".to_owned().concat(
            quote(self.id.as_str()).as_str(),
        ).concat("\n# The Mac's address and port.\nserver = ").concat(quote(self.server.as_str()).as_str()).concat(
            "\n\n[security]\n# Both machines must hold the SAME key file.\nkey_file = ",
        ).concat(quote(self.key_file.as_str()).as_str()).concat(
            "\n\n[input]\n# The edge of this desktop that faces the Mac. Focus both\n# arrives on and leaves through this edge, and it must be\n# the mirror of the Mac's [layout] edge.\nreturn_edge = ",
        ).concat(quote(self.return_edge.as_str()).as_str()).concat(
            "\n# Lower this if the pointer travels further here than on\n# the Mac.\nmouse_scale = ",
        ).concat(mouse_scale).concat("\n# Where along return_edge the Mac sits, 0.0 to 1.0.\n");
        let tail: String = match self.anchor {
            Some(_) => "anchor = ".to_owned().concat(anchor).concat("\n"),
            None =>
                "# Unset means centred under the primary monitor.\n# anchor = 0.5\n".to_owned(),
        };
        out.concat(tail.as_str())
    }

    /// The checks that would otherwise only fail when the file is loaded,
    /// so that nothing is written that could not be.
    pub fn validate(&self) -> (r: Result<(), String>)
        ensures
            match self@.fault() {
                None => r is Ok,
                Some(reason) => r matches Err(got) && got@ == reason,
            },
    {
        if trim(self.server.as_str()).as_str().unicode_len() == 0 {
            return Err("the server address is empty".to_owned());
        }
        let server: Vec<char> = text::chars(self.server.as_str());
        if !contains(&server, ':') {
            return Err("the server address needs a port, like 192.168.1.42:24810".to_owned());
        }
        if let Err(reason) = config::validate_server_address(self.server.as_str()) {
            return Err("the server address cannot be used: ".to_owned().concat(reason.as_str()));
        }
        if trim(self.id.as_str()).as_str().unicode_len() == 0 {
            return Err("this machine needs an id, matching the Mac's [[peers]] list".to_owned());
        }
        if trim(self.key_file.as_str()).as_str().unicode_len() == 0 {
            return Err("the key file path is empty".to_owned());
        }
        if !(can_be_written(self.server.as_str()) && can_be_written(self.id.as_str()) && can_be_written(
            self.key_file.as_str(),
        )) {
            return Err(
                "the address, the id and the key file path cannot hold control characters".to_owned(),
            );
        }
        if config::names_other_home(self.key_file.as_str()) {
            return Err(
                "the key file cannot be in another user's home directory; write an absolute path".to_owned(),
            );
        }
        if Side::parse(self.return_edge.as_str()).is_none() {
            return Err(self.return_edge.clone().concat(" is not an edge name"));
        }
        if !scale_is_usable(self.mouse_scale) {
            return Err("pointer speed must be greater than zero".to_owned());
        }
        if let Some(anchor) = self.anchor {
            if !anchor_is_usable(anchor) {
                return Err("the anchor must be between 0.0 and 1.0".to_owned());
            }
        }
        Ok(())
    }

    /// The file to write for these settings, or why they are not saved.
    /// `mouse_scale` and `anchor` are how the two numbers read.
    pub fn save(&self, mouse_scale: &str, anchor: &str) -> (r: Result<String, String>)
        ensures
            match self@.fault() {
                None => r matches Ok(file) && file@ == self@.written(mouse_scale@, anchor@),
                Some(reason) => r matches Err(got) && got@ == reason,
            },
    {
        match self.validate() {
            Ok(()) => Ok(self.to_toml(mouse_scale, anchor)),
            Err(reason) => Err(reason),
        }
    }
}

/// Whether a file says what settings say.
pub open spec fn tells(raw: RawConfig, settings: SettingsModel) -> bool {
    &&& config::said(raw.role) == Some("client"@)
    &&& config::said(raw.id) == Some(settings.id)
    &&& config::said(raw.server) == Some(settings.server)
    &&& raw.peers@.len() == 0
    &&& raw.layout@.len() == 0
    &&& config::written_key_file(raw.security) == Some(settings.key_file)
    &&& raw.input matches Some(input)
    &&& config::said(input.return_edge) == Some(settings.return_edge)
    &&& input.mouse_scale matches Some(scale)
    &&& scale.bits == settings.mouse_scale
    &&& match (input.anchor, settings.anchor) {
        (Some(given), Some(anchor)) => given.bits == anchor,
        (None, None) => true,
        _ => false,
    }
}

/// The texts in a file that is saved read back as they were.
pub proof fn law_saved_texts_read_back(settings: SettingsModel)
    requires
        settings.fault() is None,
    ensures
        basic_string(quoted(settings.server)) == Some(settings.server),
        basic_string(quoted(settings.id)) == Some(settings.id),
        basic_string(quoted(settings.key_file)) == Some(settings.key_file),
        basic_string(quoted(settings.return_edge)) == Some(settings.return_edge),
{
    reveal_strlit("top");
    reveal_strlit("bottom");
    reveal_strlit("left");
    reveal_strlit("right");
    law_a_quoted_string_reads_back(settings.server);
    law_a_quoted_string_reads_back(settings.id);
    law_a_quoted_string_reads_back(settings.key_file);
    law_a_quoted_string_reads_back(settings.return_edge);
}

/// Everything that is saved loads back unchanged, where the environment
/// lets the path of the key file be made out.
pub proof fn law_saved_settings_load_back(raw: RawConfig, settings: SettingsModel, env: Environment, percent: bool)
    requires
        tells(raw, settings),
        settings.fault() is None,
        config::path_expanded(settings.key_file, "security.key_file"@, env, percent) is Ok,
    ensures
        config::config_of(raw, env, percent) matches Ok(config) && SettingsModel::of(config) == settings,
{
    reveal_strlit("server");
    reveal_strlit("client");
    assert("server"@[0] != "client"@[0]);
}

/// The parts of the path where the file is kept if nobody says otherwise:
/// below a directory of the user's, or the current one if that is not
/// known.
pub open spec fn default_path(base: Option<Seq<char>>, windows: bool) -> Seq<Seq<char>> {
    let start = match base {
        Some(base) => base,
        None => "."@,
    };
    if windows {
        seq![start, "hop"@, "config.toml"@]
    } else {
        seq![start, ".config"@, "hop"@, "config.toml"@]
    }
}

/// The parts of the path where the file is kept if nobody says otherwise.
/// `base` is the value of APPDATA on Windows, of HOME elsewhere.
pub fn default_config_path(base: Option<String>, windows: bool) -> (r: Vec<String>)
    ensures
        text::views(r@) == default_path(config::said(base), windows),
{
    let start: String = match base {
        Some(ref base) => base.clone(),
        None => ".".to_owned(),
    };
    let mut parts: Vec<String> = Vec::new();
    parts.push(start);
    if !windows {
        parts.push(".config".to_owned());
    }
    parts.push("hop".to_owned());
    parts.push("config.toml".to_owned());
    assert(text::views(parts@) =~= default_path(config::said(base), windows));
    parts
}

/// Settings are saved exactly if each of them can be used: the address is a
/// host and a port, there are an id and a path, none of them with control
/// characters and the path not in another user's home, the edge is one, and
/// the numbers lie in their range.
pub proof fn law_usable_settings_are_saved_and_no_others(settings: SettingsModel)
    ensures
        settings.fault() is None <==> {
            &&& text::trimmed(settings.server).len() > 0
            &&& settings.server.contains(':')
            &&& config::address_fault(settings.server) is None
            &&& text::trimmed(settings.id).len() > 0
            &&& text::trimmed(settings.key_file).len() > 0
            &&& forall|i: int|
                0 <= i < settings.server.len() ==> (#[trigger] settings.server[i] as u32 >= 0x20 || settings.server[i] as u32
                    == 0x09) && settings.server[i] as u32 != 0x7F
            &&& forall|i: int|
                0 <= i < settings.id.len() ==> (#[trigger] settings.id[i] as u32 >= 0x20 || settings.id[i] as u32 == 0x09)
                    && settings.id[i] as u32 != 0x7F
            &&& forall|i: int|
                0 <= i < settings.key_file.len() ==> (#[trigger] settings.key_file[i] as u32 >= 0x20
                    || settings.key_file[i] as u32 == 0x09) && settings.key_file[i] as u32 != 0x7F
            &&& !(settings.key_file.len() > 1 && settings.key_file[0] == '~' && settings.key_file[1] != '/'
                && settings.key_file[1] != '\\' && settings.key_file[1] != '%')
            &&& settings.return_edge == "top"@ || settings.return_edge == "bottom"@ || settings.return_edge == "left"@
                || settings.return_edge == "right"@
            &&& 0 < settings.mouse_scale < 0x7FF0_0000_0000_0000
            &&& settings.anchor matches Some(anchor) ==> anchor <= 0x3F80_0000 || anchor == 0x8000_0000
        },
{
    screen::law_a_side_goes_by_its_name(settings.return_edge);
    assert(writable(settings.server) <==> forall|i: int|
        0 <= i < settings.server.len() ==> (#[trigger] settings.server[i] as u32 >= 0x20 || settings.server[i] as u32 == 0x09)
            && settings.server[i] as u32 != 0x7F) by {
        lemma_writable(settings.server);
    }
    assert(writable(settings.id) <==> forall|i: int|
        0 <= i < settings.id.len() ==> (#[trigger] settings.id[i] as u32 >= 0x20 || settings.id[i] as u32 == 0x09)
            && settings.id[i] as u32 != 0x7F) by {
        lemma_writable(settings.id);
    }
    assert(writable(settings.key_file) <==> forall|i: int|
        0 <= i < settings.key_file.len() ==> (#[trigger] settings.key_file[i] as u32 >= 0x20 || settings.key_file[i] as u32
            == 0x09) && settings.key_file[i] as u32 != 0x7F) by {
        lemma_writable(settings.key_file);
    }
}

proof fn lemma_writable(s: Seq<char>)
    ensures
        writable(s) <==> forall|i: int|
            0 <= i < s.len() ==> (#[trigger] s[i] as u32 >= 0x20 || s[i] as u32 == 0x09) && s[i] as u32 != 0x7F,
{
    assert forall|i: int| 0 <= i < s.len() implies forbidden(#[trigger] s[i]) == !((s[i] as u32 >= 0x20 || s[i] as u32 == 0x09)
        && s[i] as u32 != 0x7F) by {}
    if writable(s) {
        assert forall|i: int| 0 <= i < s.len() implies (#[trigger] s[i] as u32 >= 0x20 || s[i] as u32 == 0x09) && s[i] as u32
            != 0x7F by {
            assert(!forbidden(s[i]));
        }
    }
}

/// The settings are those of the configuration, with the path of the key file
/// as it was written. Without a file the client is called "pc", keeps its key
/// with the user's other data, and goes back over the bottom edge at the
/// mouse's own speed.
pub proof fn law_settings_come_from_the_configuration(config: ConfigModel)
    ensures
        ({
            let settings = SettingsModel::of(config);
            &&& config.server matches Some(server) ==> settings.server == server
            &&& config.id matches Some(id) ==> settings.id == id
            &&& config.return_edge matches Some(edge) ==> settings.return_edge == edge
            &&& settings.key_file == config.key_file_written
            &&& settings.mouse_scale == config.mouse_scale
            &&& settings.anchor == config.anchor
        }),
        ({
            let fresh = SettingsModel::defaults();
            &&& fresh.server.len() == 0
            &&& fresh.id == "pc"@
            &&& fresh.key_file == "%APPDATA%\\hop\\key"@
            &&& fresh.return_edge == "bottom"@
            &&& fresh.mouse_scale == 0x3FF0_0000_0000_0000
            &&& fresh.anchor is None
        }),
{
}

/// Settings are alike if their texts are the same and their numbers equal, as
/// numbers: zero equals zero whatever its sign, and what is no number equals
/// nothing.
pub proof fn law_settings_are_alike_as_numbers(a: SettingsModel, b: SettingsModel)
    ensures
        a.alike(b) ==> b.alike(a),
        a.alike(b) ==> a.server == b.server && a.id == b.id && a.key_file == b.key_file && a.return_edge
            == b.return_edge && (a.anchor is Some <==> b.anchor is Some),
        a.fault() is None ==> a.alike(a),
        a.fault() is None && a.alike(b) ==> a.mouse_scale == b.mouse_scale,
        a.alike(b) && a.mouse_scale != b.mouse_scale ==> a.mouse_scale % 0x8000_0000_0000_0000 == 0 && b.mouse_scale
            % 0x8000_0000_0000_0000 == 0,
        a.mouse_scale % 0x8000_0000_0000_0000 > 0x7FF0_0000_0000_0000 ==> !a.alike(b),
        a.alike(b) && a.anchor is Some && a.anchor != b.anchor ==> a.anchor->0 % 0x8000_0000 == 0 && b.anchor->0
            % 0x8000_0000 == 0,
        a.anchor matches Some(anchor) ==> (anchor % 0x8000_0000 > 0x7F80_0000 ==> !a.alike(b)),
{
}

/// The file lies in a directory of its own: on Windows right below the user's
/// data, elsewhere below the hidden directory of configurations. Without
/// either it lies below the current one.
pub proof fn law_the_file_lies_in_a_directory_of_its_own(base: Option<Seq<char>>, windows: bool)
    ensures
        ({
            let parts = default_path(base, windows);
            let n = parts.len();
            &&& n == if windows { 3nat } else { 4 }
            &&& base matches Some(start) ==> parts[0] == start
            &&& base is None ==> parts[0] == "."@
            &&& !windows ==> parts[1] == ".config"@
            &&& parts[n - 2] == "hop"@
            &&& parts[n - 1] == "config.toml"@
        }),
{
}

} // verus!
