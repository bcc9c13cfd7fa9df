use creamlinux::config::{
    config_file_name, is_config_marker, locate_config_entry, write_config, write_config_to_dir,
    write_default_config, ScreamAPIConfig,
};

fn check_default(c: &ScreamAPIConfig) {
    assert_eq!(
        c.schema,
        "https://raw.githubusercontent.com/acidicoala/ScreamAPI/master/res/ScreamAPI.schema.json"
    );
    assert_eq!(c.version, 3);
    assert!(!c.logging);
    assert!(!c.log_eos);
    assert!(!c.block_metrics);
    assert_eq!(c.namespace_id, "");
    assert_eq!(c.default_dlc_status, "unlocked");
    assert!(c.override_dlc_status.is_empty());
    assert!(c.extra_graphql_endpoints.is_empty());
    assert!(c.extra_entitlements.is_empty());
}

#[test]
fn default_config_unlocks_everything() {
    check_default(&ScreamAPIConfig::default());
    check_default(&ScreamAPIConfig::new_default());
}

#[test]
fn default_config_goes_to_the_given_directory() {
    let w = write_default_config("/games/x/Binaries");
    assert_eq!(w.dir, "/games/x/Binaries");
    assert_eq!(w.file_name, "ScreamAPI.config.json");
    check_default(&w.config);
}

#[test]
fn config_write_keeps_the_config() {
    let mut c = ScreamAPIConfig::default();
    c.logging = true;
    c.namespace_id = "abc".to_string();
    c.extra_graphql_endpoints.push("https://example".to_string());
    let w = write_config_to_dir("d", c);
    assert_eq!(w.dir, "d");
    assert_eq!(w.file_name, config_file_name());
    assert!(w.config.logging);
    assert_eq!(w.config.namespace_id, "abc");
    assert_eq!(w.config.extra_graphql_endpoints, vec!["https://example".to_string()]);
}

#[test]
fn config_for_a_game_goes_where_it_was_found_or_to_the_root() {
    let w = write_config("/g", Some("/g/bin".to_string()), ScreamAPIConfig::default());
    assert_eq!(w.dir, "/g/bin");
    let w = write_config("/g", None, ScreamAPIConfig::default());
    assert_eq!(w.dir, "/g");
    assert_eq!(w.file_name, "ScreamAPI.config.json");
}

#[test]
fn markers_of_the_config_directory() {
    assert!(is_config_marker("EOSSDK-Win64-Shipping_o.dll"));
    assert!(is_config_marker("EOSSDK-Win32-Shipping_o.dll"));
    assert!(is_config_marker("ScreamAPI.config.json"));
    assert!(!is_config_marker("eossdk-win64-shipping_o.dll"));
    assert!(!is_config_marker("EOSSDK-Win64-Shipping.dll"));
    assert!(!is_config_marker("screamapi.config.json"));
}

#[test]
fn first_marker_of_the_walk_is_located() {
    let names = vec![
        Some("game".to_string()),
        Some("readme.txt".to_string()),
        Some("ScreamAPI.config.json".to_string()),
        Some("EOSSDK-Win64-Shipping_o.dll".to_string()),
    ];
    assert_eq!(locate_config_entry(&names), Some(2));
    let none = vec![Some("a".to_string()), Some("b".to_string())];
    assert_eq!(locate_config_entry(&none), None);
    assert_eq!(locate_config_entry(&Vec::new()), None);
}

#[test]
fn entries_without_a_name_are_passed_over() {
    let names = vec![
        None,
        Some("Binaries".to_string()),
        Some("Win64".to_string()),
        Some("EOSSDK-Win64-Shipping_o.dll".to_string()),
    ];
    assert_eq!(locate_config_entry(&names), Some(3));
    assert_eq!(locate_config_entry(&vec![None, None]), None);
}
