//! Updating from published releases: which release to install, and whether
//! a download can be one.
//!
//! Fetching, and swapping the program's file, are the caller's.

use vstd::prelude::*;
use vstd::utf8::*;

use crate::json;
use crate::json::{open, Json, Tree};
use crate::text;
use crate::text::{decimal_text, same};

verus! {

/// The repository that releases are published from.
pub const REPO: &'static str = "MuhammadTalhaMT/hop";

/// The largest download that is accepted. A build is a few megabytes.
pub const MAX_DOWNLOAD_BYTES: u64 = 64 * 1024 * 1024;

/// The smallest download that can be a build rather than an error page.
pub const MIN_DOWNLOAD_BYTES: u64 = 500_000;

/// Why there was no update.
#[derive(Debug, Clone, PartialEq, Eq)]
pub enum UpdateError {
    /// The system's reason.
    Network(String),
    /// What was wrong with the reply.
    Malformed(String),
    /// The platform for which there is no build.
    NoAssetForPlatform(String),
    ImplausibleSize { got: u64 },
    /// The system's reason.
    NoInstallPath(String),
    Replace { path: String, source: String },
    NotOnMacos,
}

/// What an [`UpdateError`] says.
pub enum UpdateFault {
    Network(Seq<char>),
    Malformed(Seq<char>),
    NoAssetForPlatform(Seq<char>),
    ImplausibleSize { got: u64 },
    NoInstallPath(Seq<char>),
    Replace { path: Seq<char>, source: Seq<char> },
    NotOnMacos,
}

impl View for UpdateError {
    type V = UpdateFault;

    open spec fn view(&self) -> UpdateFault {
        match *self {
            UpdateError::Network(reason) => UpdateFault::Network(reason@),
            UpdateError::Malformed(what) => UpdateFault::Malformed(what@),
            UpdateError::NoAssetForPlatform(platform) => UpdateFault::NoAssetForPlatform(platform@),
            UpdateError::ImplausibleSize { got } => UpdateFault::ImplausibleSize { got },
            UpdateError::NoInstallPath(reason) => UpdateFault::NoInstallPath(reason@),
            UpdateError::Replace { path, source } => UpdateFault::Replace {
                path: path@,
                source: source@,
            },
            UpdateError::NotOnMacos => UpdateFault::NotOnMacos,
        }
    }
}

impl UpdateError {
    /// What went wrong, for a person to read.
    pub open spec fn spec_message(self) -> Seq<char> {
        match self {
            UpdateError::Network(reason) => "could not reach GitHub: "@ + reason@,
            UpdateError::Malformed(what) => "GitHub's reply was not what this build expects: "@ + what@,
            UpdateError::NoAssetForPlatform(platform) => "this release has no "@ + platform@
                + " build attached to it"@,
            UpdateError::ImplausibleSize { got } => "the download was "@ + text::decimal(got as nat)
                + " bytes, which is not a plausible hop build"@,
            UpdateError::NoInstallPath(reason) =>
                "could not work out where this hop is installed: "@ + reason@,
            UpdateError::Replace { path, source } => "could not replace "@ + path@ + ": "@ + source@,
            UpdateError::NotOnMacos =>
                "hop updates itself only on Windows. On the Mac, Accessibility permission is tied to the signing certificate, and a build downloaded from CI is not signed with yours, so replacing this binary would silently break input capture. Rebuild locally instead: ./update-mac.sh"@,
        }
    }

    /// What went wrong, for a person to read.
    pub fn message(&self) -> (r: String)
        ensures
            r@ == self.spec_message(),
    {
        match self {
            UpdateError::Network(reason) => "could not reach GitHub: ".to_owned().concat(reason.as_str()),
            UpdateError::Malformed(what) =>
                "GitHub's reply was not what this build expects: ".to_owned().concat(what.as_str()),
            UpdateError::NoAssetForPlatform(platform) => "this release has no ".to_owned().concat(
                platform.as_str(),
            ).concat(" build attached to it"),
            UpdateError::ImplausibleSize { got } => "the download was ".to_owned().concat(
                decimal_text(*got).as_str(),
            ).concat(" bytes, which is not a plausible hop build"),
            UpdateError::NoInstallPath(reason) =>
                "could not work out where this hop is installed: ".to_owned().concat(reason.as_str()),
            UpdateError::Replace { path, source } => "could not replace ".to_owned().concat(
                path.as_str(),
            ).concat(": ").concat(source.as_str()),
            UpdateError::NotOnMacos =>
                "hop updates itself only on Windows. On the Mac, Accessibility permission is tied to the signing certificate, and a build downloaded from CI is not signed with yours, so replacing this binary would silently break input capture. Rebuild locally instead: ./update-mac.sh".to_owned(),
        }
    }
}

/// A version in three parts.
#[derive(Debug, Clone, Copy, PartialEq, Eq, PartialOrd, Ord, Structural)]
pub struct Version {
    pub major: u64,
    pub minor: u64,
    pub patch: u64,
}

/// The version of this build.
pub open spec fn current_version() -> Version {
    Version { major: 0, minor: 1, patch: 0 }
}

/// A version as it is written.
pub open spec fn written(version: Version) -> Seq<char> {
    text::decimal(version.major as nat) + "."@ + text::decimal(version.minor as nat) + "."@
        + text::decimal(version.patch as nat)
}

/// Whether a tag names a version: as it is written, perhaps with a "v" in
/// front.
pub open spec fn names(raw: Seq<char>, version: Version) -> bool {
    raw == written(version) || raw == seq!['v'] + written(version)
}

/// The version that a tag names.
pub open spec fn version_in(raw: Seq<char>) -> Option<Version> {
    if exists|version: Version| names(raw, version) {
        Some(choose|version: Version| names(raw, version))
    } else {
        None
    }
}

/// The parts of a written version are its three numbers.
proof fn lemma_written_parts(version: Version)
    ensures
        text::pieces(written(version), '.') == seq![
            text::decimal(version.major as nat),
            text::decimal(version.minor as nat),
            text::decimal(version.patch as nat),
        ],
        written(version).len() > 0,
        written(version)[0] != 'v',
{
    reveal_strlit(".");
    let major = text::decimal(version.major as nat);
    let minor = text::decimal(version.minor as nat);
    let patch = text::decimal(version.patch as nat);
    text::lemma_decimal_is_digits(version.major as nat);
    text::lemma_decimal_is_digits(version.minor as nat);
    text::lemma_decimal_is_digits(version.patch as nat);
    assert("."@ =~= seq!['.']);
    text::lemma_one_piece(major, '.');
    text::lemma_last_piece(major, '.', minor);
    text::lemma_last_piece(major + seq!['.'] + minor, '.', patch);
    assert(written(version) =~= major + seq!['.'] + minor + seq!['.'] + patch);
    assert(seq![major].push(minor).push(patch) =~= seq![major, minor, patch]);
    assert(written(version)[0] == major[0]);
}

/// A tag without its "v".
pub open spec fn bare_tag(raw: Seq<char>) -> Seq<char> {
    if raw.len() > 0 && raw[0] == 'v' {
        raw.skip(1)
    } else {
        raw
    }
}

proof fn lemma_named_by_bare_tag(raw: Seq<char>, version: Version)
    ensures
        names(raw, version) <==> bare_tag(raw) == written(version),
{
    lemma_written_parts(version);
    if names(raw, version) {
        assert(bare_tag(raw) =~= written(version));
    }
    if bare_tag(raw) == written(version) && raw.len() > 0 && raw[0] == 'v' {
        assert(raw =~= seq!['v'] + written(version));
    }
}

/// A tag names one version at most, and each version is named by its
/// written form, with and without a "v", and by nothing else.
pub proof fn law_a_tag_names_one_version(raw: Seq<char>, version: Version)
    ensures
        version_in(raw) == Some(version) <==> raw == written(version) || raw == seq!['v'] + written(version),
{
    if names(raw, version) {
        let found = version_in(raw)->0;
        assert(names(raw, found));
        lemma_named_by_bare_tag(raw, version);
        lemma_named_by_bare_tag(raw, found);
        lemma_written_parts(version);
        lemma_written_parts(found);
        let parts = text::pieces(written(version), '.');
        text::law_numbers_survive_as_text(version.major as nat, u64::MAX as nat);
        text::law_numbers_survive_as_text(version.minor as nat, u64::MAX as nat);
        text::law_numbers_survive_as_text(version.patch as nat, u64::MAX as nat);
        text::law_numbers_survive_as_text(found.major as nat, u64::MAX as nat);
        text::law_numbers_survive_as_text(found.minor as nat, u64::MAX as nat);
        text::law_numbers_survive_as_text(found.patch as nat, u64::MAX as nat);
        assert(parts[0] == text::decimal(found.major as nat));
        assert(parts[1] == text::decimal(found.minor as nat));
        assert(parts[2] == text::decimal(found.patch as nat));
    }
}

impl Version {
    /// Parses a tag. `None` for anything that is not exactly a version,
    /// including one with a suffix: a tag that cannot be read exactly is
    /// no reason to overwrite a working program.
    pub fn parse(raw: &str) -> (r: Option<Version>)
        ensures
            r == version_in(raw@),
    {
        let cs: Vec<char> = text::chars(raw);
        let from: usize = if cs.len() > 0 && cs[0] == 'v' {
            1
        } else {
            0
        };
        let bare: &str = raw.substring_char(from, cs.len());
        let parts: Vec<String> = text::split(bare, '.');
        proof {
            assert(bare@ =~= bare_tag(raw@));
            assert(text::views(parts@).len() == parts@.len());
            assert forall|version: Version| names(raw@, version) implies {
                &&& parts@.len() == 3
                &&& text::plain_number(parts@[0]@, u64::MAX as nat) == Some(version.major as nat)
                &&& text::plain_number(parts@[1]@, u64::MAX as nat) == Some(version.minor as nat)
                &&& text::plain_number(parts@[2]@, u64::MAX as nat) == Some(version.patch as nat)
            } by {
                lemma_named_by_bare_tag(raw@, version);
                lemma_written_parts(version);
                assert(text::views(parts@)[0] == parts@[0]@);
                assert(text::views(parts@)[1] == parts@[1]@);
                assert(text::views(parts@)[2] == parts@[2]@);
                text::law_plain_numbers_have_one_form(parts@[0]@, u64::MAX as nat, version.major as nat);
                text::law_plain_numbers_have_one_form(parts@[1]@, u64::MAX as nat, version.minor as nat);
                text::law_plain_numbers_have_one_form(parts@[2]@, u64::MAX as nat, version.patch as nat);
            }
        }
        if parts.len() != 3 {
            return None;
        }
        match (
            text::parse_plain(parts[0].as_str(), u64::MAX),
            text::parse_plain(parts[1].as_str(), u64::MAX),
            text::parse_plain(parts[2].as_str(), u64::MAX),
        ) {
            (Some(major), Some(minor), Some(patch)) => {
                let version = Version { major, minor, patch };
                if !text::same(bare, version.text().as_str()) {
                    assert forall|other: Version| !names(raw@, other) by {
                        lemma_named_by_bare_tag(raw@, other);
                        assert(names(raw@, other) ==> other == version);
                    }
                    return None;
                }
                proof {
                    lemma_named_by_bare_tag(raw@, version);
                    law_a_tag_names_one_version(raw@, version);
                }
                Some(version)
            },
            _ => None,
        }
    }

    /// This build's own version.
    pub fn current() -> (r: Option<Version>)
        ensures
            r == Some(current_version()),
    {
        Some(Version { major: 0, minor: 1, patch: 0 })
    }

    /// The version as it is written.
    pub fn text(&self) -> (r: String)
        ensures
            r@ == written(*self),
    {
        decimal_text(self.major).concat(".").concat(decimal_text(self.minor).as_str()).concat(".").concat(
            decimal_text(self.patch).as_str(),
        )
    }
}

/// Whether one version is newer than another. The parts count as numbers,
/// the first that differs decides.
pub open spec fn newer(a: Version, b: Version) -> bool {
    a.major > b.major || (a.major == b.major && (a.minor > b.minor || (a.minor == b.minor && a.patch
        > b.patch)))
}

/// Whether `available` is worth installing over `current`: strictly newer,
/// never merely different.
pub fn is_upgrade(current: Version, available: Version) -> (r: bool)
    ensures
        r == newer(available, current),
{
    available.major > current.major || (available.major == current.major && (available.minor
        > current.minor || (available.minor == current.minor && available.patch > current.patch)))
}

/// Nothing is an upgrade of itself, and of two versions at most one is an
/// upgrade of the other: an update never goes backwards.
pub proof fn law_upgrades_only_go_forwards(a: Version, b: Version, c: Version)
    ensures
        !newer(a, a),
        !(newer(a, b) && newer(b, a)),
        a == b || newer(a, b) || newer(b, a),
        newer(a, b) && newer(b, c) ==> newer(a, c),
{
}

/// The name of a platform's build among a release's files.
pub fn asset_name(windows: bool) -> (r: &'static str)
    ensures
        r@ == if windows {
            "hop.exe"@
        } else {
            "hop"@
        },
{
    if windows {
        "hop.exe"
    } else {
        "hop"
    }
}

/// A release, reduced to what matters here.
#[derive(Debug, Clone, PartialEq, Eq)]
pub struct Release {
    pub version: Version,
    pub download_url: String,
}

/// What a [`Release`] says.
#[verifier::ext_equal]
pub struct ReleaseModel {
    pub version: Version,
    pub download_url: Seq<char>,
}

impl View for Release {
    type V = ReleaseModel;

    open spec fn view(&self) -> ReleaseModel {
        ReleaseModel { version: self.version, download_url: self.download_url@ }
    }
}

/// A file of a release, as far as the reply says what it is.
#[derive(Debug, Clone, PartialEq, Eq)]
pub struct Asset {
    pub name: Option<String>,
    pub url: Option<String>,
}

/// The name and the address of a file of a release.
pub open spec fn asset_model(asset: Asset) -> (Option<Seq<char>>, Option<Seq<char>>) {
    (crate::config::said(asset.name), crate::config::said(asset.url))
}

/// The names and addresses of a release's files.
pub open spec fn asset_models(assets: Seq<Asset>) -> Seq<(Option<Seq<char>>, Option<Seq<char>>)> {
    assets.map_values(|a: Asset| asset_model(a))
}

/// The names and addresses of the files that a reply lists, if it lists
/// any.
pub open spec fn listed(assets: Option<Vec<Asset>>) -> Option<Seq<(Option<Seq<char>>, Option<Seq<char>>)>> {
    match assets {
        Some(assets) => Some(asset_models(assets@)),
        None => None,
    }
}

/// The address of the first file of a name, from `from` on.
pub open spec fn address_of(
    assets: Seq<(Option<Seq<char>>, Option<Seq<char>>)>,
    name: Seq<char>,
    from: int,
) -> Option<Seq<char>>
    decreases assets.len() - from,
{
    if from < 0 || from >= assets.len() {
        None
    } else if assets[from].0 == Some(name) {
        assets[from].1
    } else {
        address_of(assets, name, from + 1)
    }
}

/// The release that a reply's tag and files describe.
pub open spec fn release_in(
    tag: Option<Seq<char>>,
    assets: Option<Seq<(Option<Seq<char>>, Option<Seq<char>>)>>,
    asset: Seq<char>,
    platform: Seq<char>,
) -> Result<ReleaseModel, UpdateFault> {
    match tag {
        None => Err(UpdateFault::Malformed("no tag_name"@)),
        Some(tag) => match version_in(tag) {
            None => Err(UpdateFault::Malformed("tag "@ + tag + " is not a version"@)),
            Some(version) => match assets {
                None => Err(UpdateFault::Malformed("no assets"@)),
                Some(assets) => match address_of(assets, asset, 0) {
                    None => Err(UpdateFault::NoAssetForPlatform(platform)),
                    Some(download_url) => Ok(ReleaseModel { version, download_url }),
                },
            },
        },
    }
}

/// Whether a result is what is expected, in what it says.
pub open spec fn release_result(r: Result<Release, UpdateError>, expected: Result<ReleaseModel, UpdateFault>) -> bool {
    match (r, expected) {
        (Ok(got), Ok(want)) => got@ == want,
        (Err(got), Err(want)) => got@ == want,
        _ => false,
    }
}

/// The release that a reply's tag and files describe.
pub fn release_from_parts(tag: Option<String>, assets: Option<Vec<Asset>>, asset: &str, platform: &str) -> (r: Result<Release, UpdateError>)
    ensures
        release_result(
            r,
            release_in(
                crate::config::said(tag),
                listed(assets),
                asset@,
                platform@,
            ),
        ),
{
    let tag: String = match tag {
        None => {
            return Err(UpdateError::Malformed("no tag_name".to_owned()));
        },
        Some(tag) => tag,
    };
    let version: Version = match Version::parse(tag.as_str()) {
        None => {
            return Err(
                UpdateError::Malformed("tag ".to_owned().concat(tag.as_str()).concat(" is not a version")),
            );
        },
        Some(version) => version,
    };
    let assets: Vec<Asset> = match assets {
        None => {
            return Err(UpdateError::Malformed("no assets".to_owned()));
        },
        Some(assets) => assets,
    };
    match find_address(&assets, asset) {
        Some(url) => Ok(Release { version, download_url: url }),
        None => Err(UpdateError::NoAssetForPlatform(platform.to_owned())),
    }
}

/// The address of the first file of a name.
fn find_address(assets: &Vec<Asset>, name: &str) -> (r: Option<String>)
    ensures
        crate::config::said(r) == address_of(asset_models(assets@), name@, 0),
{
    let ghost models = asset_models(assets@);
    let mut i: usize = 0;
    while i < assets.len()
        invariant
            i <= assets@.len(),
            models == asset_models(assets@),
            address_of(models, name@, 0) == address_of(models, name@, i as int),
        decreases assets@.len() - i,
    {
        let one: &Asset = &assets[i];
        assert(models[i as int] == asset_model(*one));
        let named: bool = match &one.name {
            Some(known) => same(known.as_str(), name),
            None => false,
        };
        if named {
            return match &one.url {
                Some(url) => Some(url.clone()),
                None => None,
            };
        }
        i = i + 1;
    }
    None
}

/// The name and the address that a reply gives for a file.
pub open spec fn asset_in(tree: Tree) -> (Option<Seq<char>>, Option<Seq<char>>) {
    (
        json::text_of(json::member(tree, "name"@)),
        json::text_of(json::member(tree, "browser_download_url"@)),
    )
}

/// The files that a reply lists.
pub open spec fn assets_in(tree: Tree) -> Option<Seq<(Option<Seq<char>>, Option<Seq<char>>)>> {
    match json::items_of(json::member(tree, "assets"@)) {
        Some(items) => Some(items.map_values(|t: Tree| asset_in(t))),
        None => None,
    }
}

/// The release that a reply describes.
pub open spec fn release_of(body: Seq<char>, asset: Seq<char>, platform: Seq<char>) -> Result<ReleaseModel, UpdateFault> {
    match json::parsed(body) {
        Err(complaint) => Err(UpdateFault::Malformed(complaint)),
        Ok(tree) => release_in(
            json::text_of(json::member(tree, "tag_name"@)),
            assets_in(tree),
            asset,
            platform,
        ),
    }
}

/// What members say.
pub open spec fn member_trees(members: Seq<(String, serde_json::Value)>) -> Seq<(Seq<char>, Tree)> {
    members.map_values(|m: (String, serde_json::Value)| (m.0@, json::tree_of(m.1)))
}

proof fn lemma_member_found(members: Seq<(Seq<char>, Tree)>, name: Seq<char>, from: int, at: int)
    requires
        0 <= from <= at < members.len(),
        members[at].0 == name,
        forall|j: int| from <= j < at ==> (#[trigger] members[j]).0 != name,
    ensures
        json::member_from(members, name, from) == Some(members[at].1),
    decreases at - from,
{
    if from < at {
        assert(members[from].0 != name);
        lemma_member_found(members, name, from + 1, at);
    }
}

proof fn lemma_no_member(members: Seq<(Seq<char>, Tree)>, name: Seq<char>, from: int)
    requires
        0 <= from <= members.len(),
        forall|j: int| from <= j < members.len() ==> (#[trigger] members[j]).0 != name,
    ensures
        json::member_from(members, name, from) is None,
    decreases members.len() - from,
{
    if from < members.len() {
        assert(members[from].0 != name);
        lemma_no_member(members, name, from + 1);
    }
}

/// Taking one member away leaves every other to be found.
proof fn lemma_other_member(members: Seq<(Seq<char>, Tree)>, at: int, name: Seq<char>, from: int)
    requires
        0 <= at < members.len(),
        members[at].0 != name,
        0 <= from <= members.len() - 1,
    ensures
        json::member_from(members.remove(at), name, from) == json::member_from(
            members,
            name,
            if from <= at {
                from
            } else {
                from + 1
            },
        ),
    decreases members.len() - from,
{
    let less = members.remove(at);
    if from < less.len() {
        if from < at {
            assert(less[from] == members[from]);
            if less[from].0 != name {
                lemma_other_member(members, at, name, from + 1);
            }
        } else {
            assert(less[from] == members[from + 1]);
            if less[from].0 != name {
                lemma_other_member(members, at, name, from + 1);
            }
            if from == at {
                assert(json::member_from(members, name, at) == json::member_from(members, name, at + 1));
            }
        }
    } else {
        if from == at {
            assert(json::member_from(members, name, at) == json::member_from(members, name, at + 1));
        }
    }
}

/// Takes a member out of an object's members.
fn take_member(members: &mut Vec<(String, serde_json::Value)>, name: &str) -> (r: Option<serde_json::Value>)
    ensures
        match r {
            Some(value) => json::member_from(member_trees(old(members)@), name@, 0) == Some(
                json::tree_of(value),
            ),
            None => json::member_from(member_trees(old(members)@), name@, 0) is None,
        },
        forall|other: Seq<char>|
            other != name@ ==> #[trigger] json::member_from(member_trees(final(members)@), other, 0)
                == json::member_from(member_trees(old(members)@), other, 0),
{
    let ghost trees = member_trees(members@);
    let mut i: usize = 0;
    while i < members.len()
        invariant
            i <= members@.len(),
            members@ == old(members)@,
            trees == member_trees(members@),
            forall|j: int| 0 <= j < i ==> (#[trigger] trees[j]).0 != name@,
        decreases members@.len() - i,
    {
        assert(trees[i as int].0 == members@[i as int].0@);
        if same(members[i].0.as_str(), name) {
            let (_, value) = members.remove(i);
            proof {
                lemma_member_found(trees, name@, 0, i as int);
                assert(member_trees(members@) =~= trees.remove(i as int));
                assert forall|other: Seq<char>| other != name@ implies #[trigger] json::member_from(
                    member_trees(members@),
                    other,
                    0,
                ) == json::member_from(trees, other, 0) by {
                    lemma_other_member(trees, i as int, other, 0);
                }
            }
            return Some(value);
        }
        i = i + 1;
    }
    proof {
        lemma_no_member(trees, name@, 0);
    }
    None
}

/// The text that a value is, if it is text.
fn as_text(value: Option<serde_json::Value>) -> (r: Option<String>)
    ensures
        crate::config::said(r) == (match value {
            Some(value) => json::text_of(Some(json::tree_of(value))),
            None => None,
        }),
{
    match value {
        Some(value) => match open(value) {
            Json::Text(s) => Some(s),
            _ => None,
        },
        None => None,
    }
}

/// The name and the address that a reply gives for a file.
fn asset_from(value: serde_json::Value) -> (r: Asset)
    ensures
        asset_model(r) == asset_in(json::tree_of(value)),
{
    proof {
        reveal_strlit("name");
        reveal_strlit("browser_download_url");
        assert("name"@.len() != "browser_download_url"@.len());
    }
    match open(value) {
        Json::Object(members) => {
            let mut members: Vec<(String, serde_json::Value)> = members;
            let name = take_member(&mut members, "name");
            let url = take_member(&mut members, "browser_download_url");
            Asset { name: as_text(name), url: as_text(url) }
        },
        _ => Asset { name: None, url: None },
    }
}

/// The files that a reply lists.
fn assets_from(items: Vec<serde_json::Value>) -> (r: Vec<Asset>)
    ensures
        asset_models(r@) == items@.map_values(|v: serde_json::Value| asset_in(json::tree_of(v))),
{
    let ghost all = items@;
    let mut left: Vec<serde_json::Value> = items;
    let mut out: Vec<Asset> = Vec::new();
    while left.len() > 0
        invariant
            out@.len() + left@.len() == all.len(),
            left@ == all.skip(out@.len() as int),
            asset_models(out@) == all.take(out@.len() as int).map_values(
                |v: serde_json::Value| asset_in(json::tree_of(v)),
            ),
        decreases left@.len(),
    {
        let ghost done = out@;
        let value = left.remove(0);
        let one = asset_from(value);
        out.push(one);
        proof {
            assert(value == all[done.len() as int]);
            assert(left@ =~= all.skip(out@.len() as int));
            assert(asset_models(out@) =~= asset_models(done).push(asset_model(one)));
            assert(asset_models(out@) =~= all.take(out@.len() as int).map_values(
                |v: serde_json::Value| asset_in(json::tree_of(v)),
            ));
        }
    }
    assert(all.take(out@.len() as int) =~= all);
    out
}

/// Pulls a platform's release out of the reply that describes the newest
/// one. `asset` is the name of the platform's build.
pub fn release_from_json(body: &str, asset: &str, platform: &str) -> (r: Result<Release, UpdateError>)
    ensures
        release_result(r, release_of(body@, asset@, platform@)),
{
    let value: serde_json::Value = match json::parse(body) {
        Err(complaint) => {
            return Err(UpdateError::Malformed(complaint));
        },
        Ok(value) => value,
    };
    let ghost tree = json::tree_of(value);
    proof {
        reveal_strlit("tag_name");
        reveal_strlit("assets");
        assert("tag_name"@.len() != "assets"@.len());
    }
    match open(value) {
        Json::Object(members) => {
            let mut members: Vec<(String, serde_json::Value)> = members;
            let tag: Option<String> = as_text(take_member(&mut members, "tag_name"));
            let assets: Option<Vec<Asset>> = match take_member(&mut members, "assets") {
                Some(list) => match open(list) {
                    Json::Array(items) => {
                        let out = assets_from(items);
                        proof {
                            let trees = items@.map_values(|v: serde_json::Value| json::tree_of(v));
                            assert(asset_models(out@) =~= trees.map_values(|t: Tree| asset_in(t)));
                        }
                        Some(out)
                    },
                    _ => None,
                },
                None => None,
            };
            release_from_parts(tag, assets, asset, platform)
        },
        _ => release_from_parts(None, None, asset, platform),
    }
}

/// `String::from_utf8`. Claimed: bytes that are valid UTF-8 become the text
/// they encode, and nothing else becomes text.
#[verifier::external_body]
fn text_in(bytes: Vec<u8>) -> (r: Option<String>)
    ensures
        valid_utf8(bytes@) ==> r is Some && r->0@ == decode_utf8(bytes@),
        !valid_utf8(bytes@) ==> r is None,
{
    String::from_utf8(bytes).ok()
}

/// Pulls a platform's release out of the reply as it came.
pub fn release_from_reply(reply: Vec<u8>, asset: &str, platform: &str) -> (r: Result<Release, UpdateError>)
    ensures
        release_result(
            r,
            if valid_utf8(reply@) {
                release_of(decode_utf8(reply@), asset@, platform@)
            } else {
                Err(UpdateFault::Malformed("the reply was not text"@))
            },
        ),
{
    match text_in(reply) {
        Some(body) => release_from_json(body.as_str(), asset, platform),
        None => Err(UpdateError::Malformed("the reply was not text".to_owned())),
    }
}

/// Where the newest release is described.
pub fn latest_url() -> (r: String)
    ensures
        r@ == "https://api.github.com/repos/"@ + REPO@ + "/releases/latest"@,
{
    "https://api.github.com/repos/".to_owned().concat(REPO).concat("/releases/latest")
}

/// The host and the path of an address that begins with "https://".
pub open spec fn split_url(url: Seq<char>) -> Option<(Seq<char>, Seq<char>)> {
    if url.len() >= 8 && url.take(8) == "https://"@ {
        let rest = url.skip(8);
        let (host, path) = match text::find_from(rest, '/', 0) {
            Some(at) => (rest.take(at), rest.skip(at)),
            None => (rest, "/"@),
        };
        if host.len() == 0 || host.contains('@') {
            None
        } else {
            Some((host, path))
        }
    } else {
        None
    }
}

/// Splits an address into its host and its path. Only "https" is accepted:
/// what comes back is about to replace the program itself.
pub fn split_https_url(url: &str) -> (r: Option<(String, String)>)
    ensures
        match r {
            Some((host, path)) => split_url(url@) == Some((host@, path@)),
            None => split_url(url@) is None,
        },
{
    let cs: Vec<char> = text::chars(url);
    if cs.len() < 8 {
        return None;
    }
    let scheme: &str = url.substring_char(0, 8);
    assert(scheme@ =~= url@.take(8));
    if !same(scheme, "https://") {
        return None;
    }
    let rest: &str = url.substring_char(8, cs.len());
    assert(rest@ =~= url@.skip(8));
    let rs: Vec<char> = text::chars(rest);
    let (host, path): (String, String) = match text::find(&rs, '/', 0) {
        Some(at) => {
            let host: String = rest.substring_char(0, at).to_owned();
            let path: String = rest.substring_char(at, rs.len()).to_owned();
            assert(host@ =~= rest@.take(at as int));
            assert(path@ =~= rest@.skip(at as int));
            (host, path)
        },
        None => (rest.to_owned(), "/".to_owned()),
    };
    let hs: Vec<char> = text::chars(host.as_str());
    if hs.len() == 0 || text::contains(&hs, '@') {
        return None;
    }
    Some((host, path))
}

/// The host and the path to ask for an address, or why it is not asked for.
pub fn request_parts(url: &str) -> (r: Result<(String, String), UpdateError>)
    ensures
        match split_url(url@) {
            Some((host, path)) => r matches Ok(parts) && parts.0@ == host && parts.1@ == path,
            None => r matches Err(e) && e@ == UpdateFault::Malformed("bad url "@ + url@),
        },
{
    match split_https_url(url) {
        Some(parts) => Ok(parts),
        None => Err(UpdateError::Malformed("bad url ".to_owned().concat(url))),
    }
}

/// Whether a download is large enough to be a build rather than an error
/// page, and no larger than a build can be.
pub open spec fn plausible(bytes: u64) -> bool {
    MIN_DOWNLOAD_BYTES <= bytes <= MAX_DOWNLOAD_BYTES
}

/// Whether a download can be a build. Writing an error page over the
/// program would leave nothing that runs.
pub fn is_plausible_build(bytes: u64) -> (r: bool)
    ensures
        r == plausible(bytes),
{
    MIN_DOWNLOAD_BYTES <= bytes && bytes <= MAX_DOWNLOAD_BYTES
}

/// Checks the size of a download.
pub fn check_download(bytes: u64) -> (r: Result<(), UpdateError>)
    ensures
        plausible(bytes) ==> r is Ok,
        !plausible(bytes) ==> (r matches Err(e) && e@ == (UpdateFault::ImplausibleSize { got: bytes })),
{
    if is_plausible_build(bytes) {
        Ok(())
    } else {
        Err(UpdateError::ImplausibleSize { got: bytes })
    }
}

/// What to do about the newest release.
#[derive(Debug, Clone, PartialEq, Eq)]
pub enum UpdateStep {
    /// This build is already current.
    UpToDate,
    /// A newer version exists, and that is all that was asked.
    Report(Version),
    /// Download this and put it in the program's place.
    Install(Release),
}

/// Whether a published version is downloaded and put in the program's place.
pub open spec fn installs(windows: bool, available: Version, check_only: bool) -> bool {
    windows && !check_only && newer(available, current_version())
}

/// Only Windows replaces itself, only if that was asked for, and only by
/// something newer: an update never goes backwards or sideways.
pub proof fn law_only_windows_installs_and_only_something_newer(windows: bool, available: Version, check_only: bool)
    ensures
        installs(windows, available, check_only) ==> windows && !check_only && available != current_version()
            && !newer(current_version(), available),
        windows && !check_only && newer(available, current_version()) ==> installs(windows, available, check_only),
{
}

/// Decides about the newest release, given what became of asking for it.
/// Only Windows updates itself: on the Mac a downloaded build would lose
/// the permission that capturing depends on.
pub fn update(windows: bool, latest: Result<Release, UpdateError>, check_only: bool) -> (r: Result<UpdateStep, UpdateError>)
    ensures
        !windows ==> (r matches Err(e) && e@ == UpdateFault::NotOnMacos),
        latest matches Ok(release) ==> ((r matches Ok(step) && step is Install) <==> installs(
            windows,
            release.version,
            check_only,
        )),
        windows ==> match latest {
            Err(e) => r matches Err(got) && got@ == e@,
            Ok(release) => if !newer(release.version, current_version()) {
                r matches Ok(step) && step is UpToDate
            } else if check_only {
                r matches Ok(step) && step == UpdateStep::Report(release.version)
            } else {
                r matches Ok(step) && step == UpdateStep::Install(release)
            },
        },
{
    if !windows {
        return Err(UpdateError::NotOnMacos);
    }
    let release: Release = match latest {
        Err(e) => {
            return Err(e);
        },
        Ok(release) => release,
    };
    let current: Version = match Version::current() {
        Some(version) => version,
        None => Version { major: 0, minor: 0, patch: 0 },
    };
    if !is_upgrade(current, release.version) {
        Ok(UpdateStep::UpToDate)
    } else if check_only {
        Ok(UpdateStep::Report(release.version))
    } else {
        Ok(UpdateStep::Install(release))
    }
}

/// The first part of two versions that differs decides which is newer, by its
/// value as a number.
pub proof fn law_the_first_part_that_differs_decides(a: Version, b: Version)
    ensures
        a.major > b.major ==> newer(a, b),
        a.major == b.major && a.minor > b.minor ==> newer(a, b),
        a.major == b.major && a.minor == b.minor && a.patch > b.patch ==> newer(a, b),
        newer(a, b) ==> a.major >= b.major,
        newer(a, b) && a.major == b.major ==> a.minor >= b.minor,
        newer(a, b) && a.major == b.major && a.minor == b.minor ==> a.patch > b.patch,
{
}

/// This build goes by 0.1.0, so that any other version that is not a patch
/// level of 0.0 is an upgrade of it.
pub proof fn law_this_build_is_the_first_minor_version(version: Version)
    ensures
        newer(version, current_version()) <==> version.major > 0 || version.minor > 1 || (version.minor == 1
            && version.patch > 0),
{
}

proof fn lemma_address_of(assets: Seq<(Option<Seq<char>>, Option<Seq<char>>)>, name: Seq<char>, from: int, at: int)
    requires
        0 <= from <= at < assets.len(),
        assets[at].0 == Some(name),
        forall|j: int| from <= j < at ==> (#[trigger] assets[j]).0 != Some(name),
    ensures
        address_of(assets, name, from) == assets[at].1,
    decreases at - from,
{
    if from < at {
        assert(assets[from].0 != Some(name));
        lemma_address_of(assets, name, from + 1, at);
    }
}

proof fn lemma_no_address(assets: Seq<(Option<Seq<char>>, Option<Seq<char>>)>, name: Seq<char>, from: int)
    requires
        0 <= from <= assets.len(),
        forall|j: int| from <= j < assets.len() ==> (#[trigger] assets[j]).0 != Some(name),
    ensures
        address_of(assets, name, from) is None,
    decreases assets.len() - from,
{
    if from < assets.len() {
        assert(assets[from].0 != Some(name));
        lemma_no_address(assets, name, from + 1);
    }
}

/// A release is described by a tag that names its version and by a file of
/// the platform's name: of several the first, and its address is the one to
/// download.
pub proof fn law_a_release_is_a_version_and_the_platforms_file(
    tag: Seq<char>,
    assets: Seq<(Option<Seq<char>>, Option<Seq<char>>)>,
    asset: Seq<char>,
    platform: Seq<char>,
    version: Version,
    at: int,
)
    requires
        tag == written(version) || tag == seq!['v'] + written(version),
        0 <= at < assets.len(),
        assets[at].0 == Some(asset),
        forall|j: int| 0 <= j < at ==> (#[trigger] assets[j]).0 != Some(asset),
    ensures
        release_in(Some(tag), Some(assets), asset, platform) == match assets[at].1 {
            Some(url) => Ok::<ReleaseModel, UpdateFault>(ReleaseModel { version, download_url: url }),
            None => Err(UpdateFault::NoAssetForPlatform(platform)),
        },
{
    law_a_tag_names_one_version(tag, version);
    lemma_address_of(assets, asset, 0, at);
}

/// A reply without a tag, with a tag that is no version, or without files is
/// none that can be read; one without the platform's file has no build for
/// it.
pub proof fn law_an_incomplete_reply_is_no_release(
    tag: Option<Seq<char>>,
    assets: Option<Seq<(Option<Seq<char>>, Option<Seq<char>>)>>,
    asset: Seq<char>,
    platform: Seq<char>,
)
    ensures
        tag is None ==> release_in(tag, assets, asset, platform) == Err::<ReleaseModel, UpdateFault>(
            UpdateFault::Malformed("no tag_name"@),
        ),
        tag matches Some(t) ==> (version_in(t) is None ==> release_in(tag, assets, asset, platform) == Err::<
            ReleaseModel,
            UpdateFault,
        >(UpdateFault::Malformed("tag "@ + t + " is not a version"@))),
        tag matches Some(t) ==> (version_in(t) is Some && assets is None ==> release_in(tag, assets, asset, platform)
            == Err::<ReleaseModel, UpdateFault>(UpdateFault::Malformed("no assets"@))),
        tag matches Some(t) ==> (assets matches Some(all) ==> (version_in(t) is Some && (forall|j: int|
            0 <= j < all.len() ==> (#[trigger] all[j]).0 != Some(asset)) ==> release_in(tag, assets, asset, platform)
            == Err::<ReleaseModel, UpdateFault>(UpdateFault::NoAssetForPlatform(platform)))),
{
    if let Some(all) = assets {
        if forall|j: int| 0 <= j < all.len() ==> (#[trigger] all[j]).0 != Some(asset) {
            lemma_no_address(all, asset, 0);
        }
    }
}

/// A reply is read by the names of its members: the tag by "tag_name", the
/// files by "assets", and of each file "name" and "browser_download_url".
pub proof fn law_a_reply_is_read_by_its_members(
    body: Seq<char>,
    asset: Seq<char>,
    platform: Seq<char>,
    tree: Tree,
    tag: Seq<char>,
    items: Seq<Tree>,
)
    requires
        json::parsed(body) == Ok::<Tree, Seq<char>>(tree),
        json::member(tree, "tag_name"@) == Some(Tree::Text(tag)),
        json::member(tree, "assets"@) == Some(Tree::Array(items)),
    ensures
        release_of(body, asset, platform) == release_in(
            Some(tag),
            Some(
                Seq::new(
                    items.len(),
                    |i: int|
                        (
                            match json::member(items[i], "name"@) {
                                Some(Tree::Text(name)) => Some(name),
                                _ => None,
                            },
                            match json::member(items[i], "browser_download_url"@) {
                                Some(Tree::Text(url)) => Some(url),
                                _ => None,
                            },
                        ),
                ),
            ),
            asset,
            platform,
        ),
{
    let all = Seq::new(
        items.len(),
        |i: int|
            (
                match json::member(items[i], "name"@) {
                    Some(Tree::Text(name)) => Some(name),
                    _ => None,
                },
                match json::member(items[i], "browser_download_url"@) {
                    Some(Tree::Text(url)) => Some(url),
                    _ => None,
                },
            ),
    );
    assert(assets_in(tree)->0 =~= all);
}

/// An address that is asked for is "https://", a host and a path: the host
/// ends at the first slash, and without one the path is the root. There is no
/// other scheme, no empty host and no user in front of it.
pub proof fn law_only_https_addresses_are_asked(url: Seq<char>, host: Seq<char>, path: Seq<char>)
    requires
        !host.contains('/'),
        path.len() == 0 || path[0] == '/',
    ensures
        host.len() > 0 && !host.contains('@') ==> split_url("https://"@ + host + path) == Some(
            (
                host,
                if path.len() == 0 {
                    "/"@
                } else {
                    path
                },
            ),
        ),
        host.len() == 0 || host.contains('@') ==> split_url("https://"@ + host + path) is None,
        url.len() < 8 || url.take(8) != "https://"@ ==> split_url(url) is None,
{
    reveal_strlit("https://");
    let whole = "https://"@ + host + path;
    let rest = host + path;
    assert(whole.take(8) =~= "https://"@);
    assert(whole.skip(8) =~= rest);
    text::lemma_find_from(rest, '/', 0);
    match text::find_from(rest, '/', 0) {
        Some(at) => {
            if at < host.len() {
                assert(host[at] == '/');
            }
            assert(path.len() > 0);
            if at > host.len() {
                assert(rest[host.len() as int] == '/');
            }
            assert(rest.take(at) =~= host);
            assert(rest.skip(at) =~= path);
        },
        None => {
            if path.len() > 0 {
                assert(rest[host.len() as int] == '/');
            }
            assert(rest =~= host);
        },
    }
}

/// A build has between half a million bytes and 64 MiB.
pub proof fn law_a_build_has_a_plausible_size(bytes: u64)
    ensures
        plausible(bytes) <==> 500_000 <= bytes <= 67_108_864,
{
}

} // verus!
