use hop::replace::Step;
use hop::update::{
    asset_name, check_download, is_plausible_build, is_upgrade, latest_url, release_from_json, release_from_parts,
    release_from_reply, request_parts, split_https_url, update, Asset, Release, UpdateError, UpdateStep, Version,
};

#[test]
fn parses_a_tag_with_or_without_its_v() {
    let want = Version {
        major: 1,
        minor: 2,
        patch: 3,
    };
    assert_eq!(Version::parse("1.2.3"), Some(want));
    assert_eq!(Version::parse("v1.2.3"), Some(want));
}

#[test]
fn refuses_a_tag_it_cannot_read_exactly() {
    for bad in ["1.2", "1.2.3.4", "v1.2.3-rc1", "latest", "", "v", "1.2.x"] {
        assert_eq!(Version::parse(bad), None, "{bad} should not parse");
    }
}

#[test]
fn versions_order_by_component_not_by_string() {
    let ten = Version::parse("0.10.0").unwrap();
    let nine = Version::parse("0.9.0").unwrap();
    assert!(ten > nine);
    assert!(is_upgrade(nine, ten));
    assert!(!is_upgrade(ten, nine));
}

#[test]
fn the_same_version_is_not_an_upgrade() {
    let v = Version::parse("0.1.0").unwrap();
    assert!(!is_upgrade(v, v));
}

#[test]
fn an_older_release_never_drags_the_binary_backwards() {
    let installed = Version::parse("0.4.0").unwrap();
    let published = Version::parse("0.3.9").unwrap();
    assert!(!is_upgrade(installed, published));
}

#[test]
fn this_build_knows_its_own_version() {
    assert!(
        Version::current().is_some(),
        "the crate version must stay parseable, since the updater compares against it"
    );
}

const RELEASE_JSON: &str = r#"{
    "tag_name": "v0.2.0",
    "name": "v0.2.0",
    "assets": [
        {
            "name": "hop",
            "browser_download_url": "https://example.invalid/hop"
        },
        {
            "name": "hop.exe",
            "browser_download_url": "https://example.invalid/hop.exe"
        }
    ]
}"#;

#[test]
fn picks_this_platforms_asset_out_of_the_release() {
    let release = release_from_json(RELEASE_JSON, "hop.exe", "Windows").expect("should parse");
    assert_eq!(release.version, Version::parse("0.2.0").unwrap());
    assert_eq!(release.download_url, "https://example.invalid/hop.exe");

    let mac = release_from_json(RELEASE_JSON, "hop", "macOS").expect("should parse");
    assert_eq!(mac.download_url, "https://example.invalid/hop");
}

#[test]
fn a_release_without_this_platforms_build_is_an_error_not_a_guess() {
    let json = r#"{"tag_name": "v0.2.0", "assets": [{"name": "hop", "browser_download_url": "https://example.invalid/hop"}]}"#;
    assert!(matches!(
        release_from_json(json, "hop.exe", "Windows"),
        Err(UpdateError::NoAssetForPlatform(_))
    ));
}

#[test]
fn a_reply_that_is_not_a_release_is_rejected() {
    for bad in [
        "not json at all",
        "{}",
        r#"{"tag_name": "nightly", "assets": []}"#,
        r#"{"tag_name": "v0.2.0"}"#,
    ] {
        assert!(
            release_from_json(bad, "hop.exe", "Windows").is_err(),
            "{bad} should be refused"
        );
    }
}

#[test]
fn splits_a_url_into_the_host_and_path_the_platform_call_wants() {
    assert_eq!(
        split_https_url("https://api.github.com/repos/a/b/releases/latest"),
        Some(("api.github.com".into(), "/repos/a/b/releases/latest".into()))
    );
    assert_eq!(
        split_https_url("https://github.com/a/b/releases/download/v1.0.0/hop.exe"),
        Some((
            "github.com".into(),
            "/a/b/releases/download/v1.0.0/hop.exe".into()
        ))
    );
    assert_eq!(
        split_https_url("https://example.invalid"),
        Some(("example.invalid".into(), "/".into()))
    );
}

#[test]
fn refuses_a_url_that_is_not_plain_https() {
    for bad in [
        "http://example.invalid/hop.exe",
        "ftp://example.invalid/hop.exe",
        "https://",
        "/repos/a/b",
        "https://user@evil.invalid/hop.exe",
    ] {
        assert_eq!(split_https_url(bad), None, "{bad} should be refused");
    }
}

#[test]
fn an_error_page_is_never_mistaken_for_a_build() {
    assert!(!is_plausible_build(0));
    assert!(!is_plausible_build(4_096));
    assert!(!is_plausible_build(499_999));
    assert!(is_plausible_build(2_400_000));
    assert!(!is_plausible_build(u64::MAX));
}

#[test]
fn what_is_missing_in_a_reply_is_named() {
    let missing = |json: &str| match release_from_json(json, "hop.exe", "Windows") {
        Err(UpdateError::Malformed(what)) => what,
        other => panic!("expected Malformed, got {other:?}"),
    };
    assert!(missing("{}").contains("tag_name"));
    assert!(missing(r#"{"tag_name": "v0.2.0"}"#).contains("assets"));
    assert!(missing(r#"{"tag_name": "nightly", "assets": []}"#).contains("nightly"));
    assert!(!missing("not json at all").is_empty());
}

#[test]
fn the_first_file_of_that_name_is_taken() {
    let asset = |name: Option<&str>, url: Option<&str>| Asset {
        name: name.map(str::to_string),
        url: url.map(str::to_string),
    };
    let release = release_from_parts(
        Some("v1.0.0".to_string()),
        Some(vec![asset(None, Some("a")), asset(Some("hop.exe"), Some("b")), asset(Some("hop.exe"), Some("c"))]),
        "hop.exe",
        "Windows",
    )
    .expect("release");
    assert_eq!(release.download_url, "b");
    assert_eq!(release.version.text(), "1.0.0");
}

fn published(tag: &str) -> Result<Release, UpdateError> {
    Ok(Release {
        version: Version::parse(tag).unwrap(),
        download_url: "https://example.invalid/hop.exe".to_string(),
    })
}

#[test]
fn only_a_newer_release_is_installed() {
    assert_eq!(update(true, published("0.1.0"), false), Ok(UpdateStep::UpToDate));
    assert_eq!(update(true, published("0.0.9"), false), Ok(UpdateStep::UpToDate));
    assert_eq!(
        update(true, published("0.2.0"), true),
        Ok(UpdateStep::Report(Version::parse("0.2.0").unwrap()))
    );
    assert_eq!(
        update(true, published("0.2.0"), false),
        Ok(UpdateStep::Install(published("0.2.0").unwrap()))
    );
    assert_eq!(
        update(true, Err(UpdateError::Network("down".to_string())), false),
        Err(UpdateError::Network("down".to_string()))
    );
    assert_eq!(update(false, published("0.2.0"), false), Err(UpdateError::NotOnMacos));
}

#[test]
fn a_download_of_the_wrong_size_is_refused() {
    assert_eq!(check_download(2_400_000), Ok(()));
    assert_eq!(check_download(17), Err(UpdateError::ImplausibleSize { got: 17 }));
}

#[test]
fn each_platform_has_its_own_file() {
    assert_eq!(asset_name(true), "hop.exe");
    assert_eq!(asset_name(false), "hop");
}

#[test]
fn update_errors_have_words() {
    assert_eq!(UpdateError::Network("down".to_string()).message(), "could not reach GitHub: down");
    assert_eq!(
        UpdateError::NoAssetForPlatform("Windows".to_string()).message(),
        "this release has no Windows build attached to it"
    );
}

#[test]
fn a_reply_is_read_as_it_came() {
    assert_eq!(
        release_from_reply(RELEASE_JSON.as_bytes().to_vec(), "hop.exe", "Windows"),
        release_from_json(RELEASE_JSON, "hop.exe", "Windows")
    );
    assert_eq!(
        release_from_reply(vec![0xFF, 0xFE], "hop.exe", "Windows"),
        Err(UpdateError::Malformed("the reply was not text".to_string()))
    );
}

#[test]
fn addresses_are_taken_apart_or_named() {
    assert_eq!(
        request_parts(&latest_url()),
        Ok((
            "api.github.com".to_string(),
            "/repos/MuhammadTalhaMT/hop/releases/latest".to_string()
        ))
    );
    assert_eq!(
        request_parts("http://x/"),
        Err(UpdateError::Malformed("bad url http://x/".to_string()))
    );
}

#[test]
fn a_replacement_goes_step_by_step() {
    let mut step = Step::first();
    for expected in [Step::Stage, Step::Permit, Step::Clear, Step::SetAside, Step::PutInPlace] {
        assert_eq!(step, expected);
        step = step.next(true);
    }
    assert_eq!(step, Step::Done);
    assert_eq!(step.next(false), Step::Done);
}

#[test]
fn what_could_not_be_put_in_place_is_undone() {
    assert_eq!(Step::Stage.next(false), Step::Failed);
    assert_eq!(Step::Permit.next(false), Step::Failed);
    assert_eq!(Step::Clear.next(false), Step::SetAside);
    assert_eq!(Step::SetAside.next(false), Step::Failed);
    assert_eq!(Step::PutInPlace.next(false), Step::PutBack);
    assert_eq!(Step::PutBack.next(false), Step::Discard);
    assert_eq!(Step::Discard.next(true), Step::Failed);
    assert!(Step::PutInPlace.decides() && Step::Stage.decides());
    assert!(!Step::Clear.decides() && !Step::PutBack.decides());
}

#[test]
fn a_tag_has_one_spelling() {
    for tag in ["+1.2.3", "01.2.3", "1.+2.3", "1.2.03", "vv1.2.3", "v", "v1.2.3 ", "1.2.3.", "18446744073709551616.0.0"] {
        assert_eq!(Version::parse(tag), None, "{tag}");
    }
    let large = Version { major: u64::MAX, minor: 0, patch: 10 };
    assert_eq!(Version::parse(&large.text()), Some(large));
    assert_eq!(Version::parse(&format!("v{}", large.text())), Some(large));
}
