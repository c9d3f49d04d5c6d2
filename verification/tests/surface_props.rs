use core::cmp::Ordering;
use player_store::codec::Timestamp;
use player_store::config::{Redirects, State};
use player_store::domain::{compare, decode_pm_mode, encode_pm_mode, Mail, PmMode, Punishment};
use player_store::errors::{BackendError, StorageError};
use player_store::mods::{bytes_to_hex, digest_hex, extract_toml_entry, ModMetadata};
use player_store::microsoft::{MicrosoftTokens, MinecraftData, SigninState, UserCredentials,
    XboxLiveTokensData};
use player_store::routing::Method;
use player_store::states::MinecraftLoginData;
use player_store::user::User;

fn ts(year: u16, month: u8, day: u8) -> Timestamp {
    Timestamp { year, month, day, hour: 0, minute: 0, second: 0 }
}

fn pun(id: u64, flags: [bool; 5], exp: Option<Timestamp>) -> Punishment {
    Punishment {
        id,
        title: "t".to_string(),
        creation_date: ts(2023, 1, 1),
        expiration_date: exp,
        reason: "r".to_string(),
        alsoip: flags[0],
        allow_chat: flags[1],
        allow_ranked: flags[2],
        allow_unranked: flags[3],
        allow_join_minigames: flags[4],
    }
}

#[test]
fn priority_counts_withdrawn_capabilities() {
    assert_eq!(pun(1, [true, true, true, true, true], None).get_priority(), 0);
    assert_eq!(pun(1, [false, false, false, false, false], None).get_priority(), 5);
    assert_eq!(pun(1, [true, false, true, false, true], None).get_priority(), 2);
}

#[test]
fn compare_orders_by_severity_then_expiry() {
    let light = pun(1, [true, true, true, true, true], None);
    let heavy = pun(2, [false, false, false, false, false], None);
    assert_eq!(compare(&light, &heavy), Ordering::Less);
    assert_eq!(compare(&heavy, &light), Ordering::Greater);
    let forever = pun(3, [true, true, true, true, true], None);
    let until = pun(4, [true, true, true, true, true], Some(ts(2024, 1, 1)));
    assert_eq!(compare(&forever, &until), Ordering::Less);
    assert_eq!(compare(&until, &forever), Ordering::Greater);
    let sooner = pun(5, [true, true, true, true, true], Some(ts(2024, 1, 1)));
    let later = pun(6, [true, true, true, true, true], Some(ts(2025, 1, 1)));
    // of two equally severe records the one expiring later ranks first
    assert_eq!(compare(&later, &sooner), Ordering::Less);
    assert_eq!(compare(&sooner, &sooner), Ordering::Equal);
}

#[test]
fn coins_mail_claims_once() {
    let mut user = User::new_default("u", "Ada", ts(2020, 1, 1), None);
    user.coins = 10;
    let mut grant = Mail::Coins {
        sender: "console".to_string(),
        submission_date: ts(2021, 1, 1),
        message: "gift".to_string(),
        deleted: false,
        coins: 90,
        claimed: false,
    };
    assert!(!grant.is_claimed());
    grant.claim(&mut user);
    assert_eq!(user.coins, 100);
    assert!(grant.is_claimed());
    grant.claim(&mut user);
    assert_eq!(user.coins, 100);
    let mut note = Mail::Message {
        sender: "u2".to_string(),
        submission_date: ts(2021, 1, 1),
        message: "hi".to_string(),
        deleted: false,
    };
    assert!(!note.is_claimed());
    note.claim(&mut user);
    assert_eq!(user.coins, 100);
}

#[test]
fn pm_mode_bytes_round_trip() {
    for m in [PmMode::Enabled, PmMode::FriendsOnly, PmMode::Disabled] {
        assert_eq!(decode_pm_mode(encode_pm_mode(m)), Some(m));
    }
    assert_eq!(decode_pm_mode(3), None);
}

#[test]
fn method_names_parse() {
    assert_eq!(Method::from_name("POST"), Method::Post);
    assert_eq!(Method::from_name("DELETE"), Method::Delete);
    assert_eq!(Method::from_name("PATCH"), Method::Patch);
    assert_eq!(Method::from_name("PUT"), Method::Put);
    assert_eq!(Method::from_name("GET"), Method::Get);
    assert_eq!(Method::from_name("anything"), Method::Get);
}

#[test]
fn hex_and_digest_text() {
    assert_eq!(bytes_to_hex(&[0xde, 0xad, 0xbe, 0xef]), "deadbeef");
    assert_eq!(bytes_to_hex(&[]), "");
    assert_eq!(
        digest_hex(b""),
        "e3b0c44298fc1c149afbf4c8996fb92427ae41e4649b934ca495991b7852b855"
    );
    assert_eq!(
        digest_hex(b"abc"),
        "ba7816bf8f01cfea414140de5dae2223b00361a396177a9cb410ff61f20015ad"
    );
}

#[test]
fn manifest_entries_extract() {
    assert_eq!(extract_toml_entry("modId = \"enhanced\"").unwrap(), "enhanced");
    assert_eq!(extract_toml_entry("version = \"1.2.0\"").unwrap(), "1.2.0");
    assert!(extract_toml_entry("no quotes here").is_err());
}

#[test]
fn manifest_scan_reads_the_mods_section() {
    let lines: Vec<String> = vec![
        "something = \"ignored\"".to_string(),
        "[[mods]]".to_string(),
        "modId = \"enhanced\"".to_string(),
        "version = \"1.2.0\"".to_string(),
        "authors = \"ada, bea\"".to_string(),
        "[other]".to_string(),
        "modId = \"not-this-one\"".to_string(),
    ];
    let md = ModMetadata::from_manifest(&lines, "enhanced-1.2.0.jar", "cafe").unwrap();
    assert_eq!(md.name, "enhanced");
    assert_eq!(md.version, "1.2.0");
    assert_eq!(md.authors, "ada, bea");
    assert_eq!(md.filename, "enhanced-1.2.0.jar");
    assert_eq!(md.sha256, "cafe");
}

#[test]
fn manifest_scan_wants_all_fields() {
    let lines: Vec<String> = vec!["[[mods]]".to_string(), "modId = \"x\"".to_string()];
    assert!(ModMetadata::from_manifest(&lines, "x.jar", "00").is_err());
}

#[test]
fn redirects_resolve_first_match() {
    let mut r = Redirects::new();
    r.add("wiki".to_string(), "https://wiki.example.test".to_string());
    r.add("wiki".to_string(), "https://second.example.test".to_string());
    r.add("map".to_string(), "https://map.example.test".to_string());
    assert_eq!(r.resolve("wiki").map(|s| s.as_str()), Some("https://wiki.example.test"));
    assert_eq!(r.resolve("map").map(|s| s.as_str()), Some("https://map.example.test"));
    assert!(r.resolve("missing").is_none());
}

#[test]
fn state_fallback_values() {
    let s = State::fallback();
    assert_eq!(s.launcher_url, "launcher_url");
    assert_eq!(s.launcher_version, "0.0");
    assert_eq!(s.minecraft_version, "1.20.1");
}

#[test]
fn backend_error_carries_its_parts() {
    let e = BackendError::new("missing field", 400);
    assert_eq!(*e.get_status(), 400);
    assert_eq!(e.get_msg(), "missing field");
}

#[test]
fn storage_error_describes_itself() {
    assert_eq!(StorageError::NotFound.describe(), "not found");
    assert_eq!(StorageError::BadRequest.describe(), "bad request");
    assert_eq!(StorageError::CorruptData.describe(), "corrupt data");
    assert_eq!(StorageError::StoreError.describe(), "store error");
}

#[test]
fn signin_state_tracks_the_flow() {
    let mut s = SigninState::new();
    assert!(!s.is_authenticated());
    assert!(s.get_code().is_none());
    s.set_code("abc123");
    s.set_authenticated(true);
    assert!(s.is_authenticated());
    assert_eq!(s.get_code().as_deref(), Some("abc123"));
}

#[test]
fn login_data_fills_in_steps() {
    let mut d = MinecraftLoginData::new();
    assert!(d.get_uuid().is_none());
    d.set_uuid("u-1".to_string());
    d.set_token("tok".to_string());
    d.set_refresh_token("ref".to_string());
    d.set_expiration(3600);
    assert_eq!(d.get_uuid().as_deref(), Some("u-1"));
    assert_eq!(d.get_token().as_deref(), Some("tok"));
    assert_eq!(d.get_refresh_token().as_deref(), Some("ref"));
    assert_eq!(*d.get_expiration(), Some(3600));
}

#[test]
fn token_holders_hold() {
    let mc = MinecraftData::new("u-1", "tok", 99);
    assert_eq!(mc.get_uuid().as_str(), "u-1");
    assert_eq!(mc.get_token().as_str(), "tok");
    assert_eq!(*mc.get_expiration(), 99);
    let xb = XboxLiveTokensData::new("xt".to_string(), "uhs".to_string());
    assert_eq!(xb.get_token().as_str(), "xt");
    assert_eq!(xb.get_uhs().as_str(), "uhs");
    let mut ms = MicrosoftTokens::new("a".to_string(), "r".to_string(), 1);
    ms.set_token("a2".to_string());
    ms.set_refresh_token("r2".to_string());
    ms.set_expiration(2);
    assert_eq!(ms.get_token().as_str(), "a2");
    assert_eq!(ms.get_refresh_token().as_str(), "r2");
    assert_eq!(*ms.get_expiration(), 2);
    let mut uc = UserCredentials::new(
        "u".to_string(),
        "m".to_string(),
        "a".to_string(),
        "r".to_string(),
        1,
    );
    uc.set_uuid("u2".to_string());
    uc.set_token("a2".to_string());
    uc.set_refresh_token("r2".to_string());
    uc.set_expiration(2);
    assert_eq!(uc.get_uuid().as_str(), "u2");
    assert_eq!(uc.get_token().as_str(), "a2");
    assert_eq!(uc.get_refresh_token().as_str(), "r2");
    assert_eq!(*uc.get_expiration(), 2);
}
