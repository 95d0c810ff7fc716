use chromeprofiles::chromeprofiles::{
    configure, detect_chrome_profile_file_path, detect_chrome_profiles_home_dir,
    detect_local_state_file_path, list_profile_ids, load_profile, profile_selected,
    report_extensions, ProfileError,
};
use chromeprofiles::util::{MatchesFilter, SafeValue};

const INDEX_DOC: &str = r#"{
  "profile": {
    "info_cache": {
      "Default": {"name": "Alice", "shortcut_name": "Alice", "user_name": "alice@example.com"},
      "Profile 1": {"name": "Bob", "shortcut_name": "Bob", "user_name": "bob@example.com"}
    }
  }
}"#;

const ALICE_PREFS: &str = r#"{
  "profile": {"name": "Alice"},
  "extensions": {
    "settings": {
      "aaaabbbbccccddddeeeeffffgggghhhh": {
        "active_bit": true,
        "from_webstore": true,
        "state": 1,
        "first_install_time": "13320000000000000",
        "manifest": {
          "name": "Sample Extension",
          "version": "1.2.3",
          "description": "does things",
          "manifest_version": 3,
          "version_name": "one dot two"
        }
      }
    }
  }
}"#;

const BOB_PREFS: &str = r#"{
  "profile": {"name": "Bob"},
  "extensions": {"settings": {}}
}"#;

fn ok(text: &str) -> Result<String, String> {
    Ok(text.to_string())
}

// Profile enumeration returns exactly the key set of profile.info_cache.
#[test]
fn lists_profile_ids_from_index() {
    let ids = list_profile_ids(&ok(INDEX_DOC)).expect("index parses");
    assert_eq!(ids, vec!["Default".to_string(), "Profile 1".to_string()]);
}

#[test]
fn duplicate_index_keys_are_listed_once() {
    let text = r#"{"profile": {"info_cache": {"Default": {}, "Default": {}, "Profile 1": {}}}}"#;
    let ids = list_profile_ids(&ok(text)).expect("index parses");
    assert_eq!(ids, vec!["Default".to_string(), "Profile 1".to_string()]);
}

// A missing index file yields IoFailure, never a panic or a silent empty
// success.
#[test]
fn missing_index_is_io_failure() {
    let outcome = list_profile_ids(&Err("No such file or directory".to_string()));
    assert_eq!(
        outcome,
        Err(ProfileError::IoFailure(
            "No such file or directory".to_string()
        ))
    );
}

#[test]
fn malformed_index_is_parse_failure() {
    assert!(matches!(
        list_profile_ids(&ok("{ not json")),
        Err(ProfileError::ParseFailure(_))
    ));
    assert!(matches!(
        list_profile_ids(&ok("{\"profile\": {}}")),
        Err(ProfileError::ParseFailure(_))
    ));
    assert!(matches!(
        list_profile_ids(&ok("{\"profile\": {\"info_cache\": 3}}")),
        Err(ProfileError::ParseFailure(_))
    ));
}

#[test]
fn loads_a_full_profile() {
    let prefs = load_profile(&ok(ALICE_PREFS)).expect("profile parses");
    assert_eq!(prefs.profile.name, "Alice");
    assert_eq!(prefs.extensions.settings.len(), 1);
    let (id, ext) = &prefs.extensions.settings[0];
    assert_eq!(id, "aaaabbbbccccddddeeeeffffgggghhhh");
    assert_eq!(ext.active_bit, Some(true));
    assert_eq!(ext.from_webstore, Some(true));
    assert_eq!(ext.state, Some(1));
    let man = ext.manifest.as_ref().expect("manifest present");
    assert_eq!(man.name, "Sample Extension");
    assert_eq!(man.version, "1.2.3");
    assert_eq!(man.description, Some("does things".to_string()));
    assert_eq!(man.manifest_version, Some(3));
    assert_eq!(man.version_name, Some("one dot two".to_string()));
}

// Optional fields that are absent parse successfully and resolve to the
// documented type defaults.
#[test]
fn absent_optional_fields_default() {
    let text = r#"{
      "profile": {"name": "P"},
      "extensions": {"settings": {"ext": {"active_bit": true}}}
    }"#;
    let prefs = load_profile(&ok(text)).expect("profile parses");
    let (_, ext) = &prefs.extensions.settings[0];
    assert_eq!(ext.active_bit.safe_value(), true);
    assert_eq!(ext.first_install_time.safe_value(), "");
    assert_eq!(ext.last_update_time.safe_value(), "");
    assert_eq!(ext.from_webstore.safe_value(), false);
    assert_eq!(ext.state.safe_value(), 0);
    assert_eq!(ext.was_installed_by_default.safe_value(), false);
    assert_eq!(ext.was_installed_by_oem.safe_value(), false);
    assert_eq!(ext.withholding_permissions.safe_value(), false);
    assert!(ext.manifest.is_none());
}

// null reads the same as absent, and a manifest lacking name or version
// still parses, with empty strings in their place.
#[test]
fn null_fields_default_too() {
    let text = r#"{
      "profile": {"name": "P"},
      "extensions": {"settings": {"ext": {
        "active_bit": null,
        "state": null,
        "first_install_time": null,
        "manifest": {"description": "d"}
      }}}
    }"#;
    let prefs = load_profile(&ok(text)).expect("profile parses");
    let (_, ext) = &prefs.extensions.settings[0];
    assert_eq!(ext.active_bit, None);
    assert_eq!(ext.state, None);
    assert_eq!(ext.first_install_time, None);
    let man = ext.manifest.as_ref().expect("manifest present");
    assert_eq!(man.name, "");
    assert_eq!(man.version, "");
    assert_eq!(man.description, Some("d".to_string()));
}

#[test]
fn malformed_settings_entry_is_skipped() {
    let text = r#"{
      "profile": {"name": "P"},
      "extensions": {"settings": {"bad": 7, "good": {"active_bit": true}}}
    }"#;
    let prefs = load_profile(&ok(text)).expect("profile parses");
    assert_eq!(prefs.extensions.settings.len(), 1);
    assert_eq!(prefs.extensions.settings[0].0, "good");
}

// Malformed JSON in a preference file yields ParseFailure for that
// profile (strict policy).
#[test]
fn truncated_preferences_are_parse_failure() {
    assert!(matches!(
        load_profile(&ok("{\"profile\": {\"name\": \"P\"")),
        Err(ProfileError::ParseFailure(_))
    ));
}

#[test]
fn preferences_without_required_structure_fail() {
    assert!(matches!(
        load_profile(&ok("{\"extensions\": {\"settings\": {}}}")),
        Err(ProfileError::ParseFailure(_))
    ));
    assert!(matches!(
        load_profile(&ok("{\"profile\": {\"name\": \"P\"}}")),
        Err(ProfileError::ParseFailure(_))
    ));
    assert!(matches!(
        load_profile(&ok(
            "{\"profile\": {\"name\": 3}, \"extensions\": {\"settings\": {}}}"
        )),
        Err(ProfileError::ParseFailure(_))
    ));
    assert!(matches!(
        load_profile(&ok(
            "{\"profile\": {\"name\": \"P\"}, \"extensions\": {\"settings\": []}}"
        )),
        Err(ProfileError::ParseFailure(_))
    ));
}

// Round trip: a literal index document plus matching preference
// documents come back as exactly two entries with the right names.
#[test]
fn configure_round_trip() {
    let reads = vec![
        ("Default".to_string(), ok(ALICE_PREFS)),
        ("Profile 1".to_string(), ok(BOB_PREFS)),
    ];
    let profiles = configure(&ok(INDEX_DOC), &reads).expect("batch load succeeds");
    assert_eq!(profiles.len(), 2);
    assert_eq!(profiles[0].0, "Default");
    assert_eq!(profiles[0].1.profile.name, "Alice");
    assert_eq!(profiles[1].0, "Profile 1");
    assert_eq!(profiles[1].1.profile.name, "Bob");
}

// Strict batch policy: one failing profile aborts the whole batch.
#[test]
fn configure_aborts_on_first_failure() {
    let reads = vec![
        ("Default".to_string(), ok("{ truncated")),
        ("Profile 1".to_string(), ok(BOB_PREFS)),
    ];
    assert!(matches!(
        configure(&ok(INDEX_DOC), &reads),
        Err(ProfileError::ParseFailure(_))
    ));
}

#[test]
fn configure_requires_every_profile_text() {
    let reads = vec![("Default".to_string(), ok(ALICE_PREFS))];
    assert!(matches!(
        configure(&ok(INDEX_DOC), &reads),
        Err(ProfileError::IoFailure(_))
    ));
}

#[test]
fn configure_fails_on_unreadable_profile() {
    let reads = vec![
        ("Default".to_string(), Err("permission denied".to_string())),
        ("Profile 1".to_string(), ok(BOB_PREFS)),
    ];
    assert_eq!(
        configure(&ok(INDEX_DOC), &reads),
        Err(ProfileError::IoFailure("permission denied".to_string()))
    );
}

// Manifest presence is a hard filter: an entry with manifest null is
// excluded from the report, one with a full manifest appears.
#[test]
fn report_filters_manifestless_extensions() {
    let text = r#"{
      "profile": {"name": "P"},
      "extensions": {"settings": {
        "noman": {"active_bit": true, "manifest": null},
        "withman": {"state": 2, "manifest": {"name": "Kept", "version": "0.1"}}
      }}
    }"#;
    let prefs = load_profile(&ok(text)).expect("profile parses");
    let report = report_extensions(&prefs);
    assert_eq!(report.len(), 1);
    let entry = &report[0];
    assert_eq!(entry.id, "withman");
    assert_eq!(entry.name, "Kept");
    assert_eq!(entry.version, "0.1");
    assert_eq!(entry.state, 2);
    // defaults for everything the entry left out
    assert_eq!(entry.active_bit, false);
    assert_eq!(entry.first_install_time, "");
    assert_eq!(entry.last_update_time, "");
    assert_eq!(entry.description, "");
    assert_eq!(entry.manifest_version, 0);
    assert_eq!(entry.version_name, "");
    assert_eq!(entry.from_webstore, false);
    assert_eq!(entry.was_installed_by_default, false);
    assert_eq!(entry.was_installed_by_oem, false);
    assert_eq!(entry.withholding_permissions, false);
}

// Filtering: only the profile whose name or identifier contains the
// filter string is selected; containment is case-sensitive.
#[test]
fn filter_selects_matching_profiles() {
    let filter = vec!["Bob".to_string()];
    assert!(!profile_selected(
        &"Default".to_string(),
        &"Alice".to_string(),
        &filter
    ));
    assert!(profile_selected(
        &"Profile 1".to_string(),
        &"Bob".to_string(),
        &filter
    ));
    // identifier matches count too
    assert!(profile_selected(
        &"Bobs profile".to_string(),
        &"Zoe".to_string(),
        &filter
    ));
    // substring, not equality
    let part = vec!["ob".to_string()];
    assert!(profile_selected(
        &"Profile 1".to_string(),
        &"Bob".to_string(),
        &part
    ));
    // case-sensitive
    let lower = vec!["bob".to_string()];
    assert!(!profile_selected(
        &"Profile 1".to_string(),
        &"Bob".to_string(),
        &lower
    ));
    // no filter selects everything
    assert!(profile_selected(
        &"Default".to_string(),
        &"Alice".to_string(),
        &Vec::new()
    ));
}

#[test]
fn matches_one_of_is_substring_containment() {
    let hay = "Profile 1".to_string();
    assert!(hay.matches_one_of(&vec!["file".to_string()]));
    assert!(hay.matches_one_of(&vec!["zzz".to_string(), "1".to_string()]));
    assert!(!hay.matches_one_of(&vec!["zzz".to_string()]));
    assert!(!hay.matches_one_of(&Vec::new()));
    // the empty needle is contained in everything
    assert!(hay.matches_one_of(&vec!["".to_string()]));
}

#[test]
fn safe_value_defaults() {
    let some_s: Option<String> = Some("x".to_string());
    let no_s: Option<String> = None;
    let some_i: Option<i32> = Some(-7);
    let no_i: Option<i32> = None;
    let some_b: Option<bool> = Some(true);
    let no_b: Option<bool> = None;
    assert_eq!(some_s.safe_value(), "x");
    assert_eq!(no_s.safe_value(), "");
    assert_eq!(some_i.safe_value(), -7);
    assert_eq!(no_i.safe_value(), 0);
    assert_eq!(some_b.safe_value(), true);
    assert_eq!(no_b.safe_value(), false);
    assert_eq!("plain".to_string().safe_value(), "plain");
}

#[test]
fn resolves_paths() {
    assert_eq!(
        detect_chrome_profiles_home_dir("/home/u/.local"),
        "/home/u/.local/Google/Chrome/User Data"
    );
    // an unset base collapses to a relative path
    assert_eq!(
        detect_chrome_profiles_home_dir(""),
        "Google/Chrome/User Data"
    );
    assert_eq!(
        detect_local_state_file_path("/root dir"),
        "/root dir/Local State"
    );
    assert_eq!(
        detect_chrome_profile_file_path("/root dir", "Profile 1"),
        "/root dir/Profile 1/Preferences"
    );
}
