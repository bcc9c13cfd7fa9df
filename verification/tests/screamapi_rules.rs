use creamlinux::config::is_config_marker;
use creamlinux::screamapi::{
    backup_file_name, cached_version, extract_target, install_mode, is_eos_backup, is_eossdk_dll,
    payload_dll_names, plan_direct_install, release_version, restore_target, restored_file_name,
    scream_dll_for, should_extract, zip_asset_url, InstallMode, ReleaseAsset, ReleaseInfo,
    ScreamAPI,
};

fn names(v: &[&str]) -> Vec<String> {
    v.iter().map(|s| s.to_string()).collect()
}

fn asset(name: Option<&str>, url: Option<&str>) -> ReleaseAsset {
    ReleaseAsset { name: name.map(|s| s.to_string()), download_url: url.map(|s| s.to_string()) }
}

#[test]
fn unlocker_name() {
    assert_eq!(ScreamAPI::name(), "ScreamAPI");
}

#[test]
fn eossdk_dlls_are_found_case_blind_without_backups() {
    let files = names(&[
        "Game",
        "EOSSDK-Win64-Shipping.dll",
        "EOSSDK-Win64-Shipping_o.dll",
        "eossdk-win32-shipping.DLL",
        "EOSSDK-Win64-Shipping.dll.bak",
        "other.dll",
    ]);
    assert_eq!(ScreamAPI::find_eossdk_dlls(&files), vec![1, 3]);
    assert!(ScreamAPI::find_eossdk_dlls(&Vec::new()).is_empty());
    assert!(is_eossdk_dll("EOSSDK-WIN64-SHIPPING.DLL"));
    assert!(!is_eossdk_dll("EOSSDK-Win64-Shipping_o.dll"));
}

#[test]
fn backups_and_restores() {
    assert_eq!(backup_file_name("EOSSDK-Win64-Shipping.dll"), "EOSSDK-Win64-Shipping_o.dll");
    assert_eq!(backup_file_name("x.dll.dll"), "x_o.dll");
    assert_eq!(backup_file_name("noext"), "noext_o.dll");
    assert_eq!(restored_file_name("EOSSDK-Win64-Shipping_o.dll"), "EOSSDK-Win64-Shipping.dll");
    assert_eq!(restored_file_name("a_o.dll_o.dll"), "a.dll");
    // the backup name is matched case-blind, but trimmed case-sensitively
    assert_eq!(
        restore_target("EOSSDK-Win64-Shipping_O.DLL"),
        Some("EOSSDK-Win64-Shipping_O.DLL.dll".to_string())
    );
    assert_eq!(restore_target("EOSSDK-Win64-Shipping.dll"), None);
    assert!(is_eos_backup("eossdk-win32-shipping_o.dll"));
    assert!(!is_eos_backup("steam_api_o.dll"));
}

#[test]
fn restore_undoes_backup() {
    for n in ["EOSSDK-Win64-Shipping.dll", "EOSSDK-Win32-Shipping.dll", "a.dll"] {
        assert_eq!(restored_file_name(&backup_file_name(n)), n);
    }
    // a name with two ".dll"s comes back with one
    assert_eq!(restored_file_name(&backup_file_name("a.dll.dll")), "a.dll");
}

#[test]
fn scream_dll_by_bitness_of_the_name() {
    assert_eq!(scream_dll_for("EOSSDK-Win64-Shipping.dll"), "ScreamAPI64.dll");
    assert_eq!(scream_dll_for("EOSSDK-Win32-Shipping.dll"), "ScreamAPI32.dll");
}

#[test]
fn direct_install_plan() {
    let plan = plan_direct_install(
        "/g",
        &names(&["EOSSDK-Win64-Shipping.dll", "EOSSDK-Win32-Shipping.dll"]),
    )
    .unwrap();
    assert_eq!(plan.len(), 2);
    assert_eq!(plan[0].backup_name, "EOSSDK-Win64-Shipping_o.dll");
    assert_eq!(plan[0].scream_dll, "ScreamAPI64.dll");
    assert_eq!(plan[1].backup_name, "EOSSDK-Win32-Shipping_o.dll");
    assert_eq!(plan[1].scream_dll, "ScreamAPI32.dll");
    let err = plan_direct_install("/games/x", &Vec::new()).err().unwrap();
    assert_eq!(err, "No EOSSDK-Win*-Shipping.dll found in /games/x");
}

#[test]
fn cached_version_must_exist() {
    assert_eq!(cached_version("v4.0.0"), Ok("v4.0.0".to_string()));
    assert_eq!(
        cached_version(""),
        Err("ScreamAPI is not cached. Please restart the app.".to_string())
    );
}

#[test]
fn install_context() {
    assert!(matches!(install_mode("koaloader"), InstallMode::KoaloaderPayload));
    assert!(matches!(install_mode(""), InstallMode::Direct));
    assert!(matches!(install_mode("Koaloader"), InstallMode::Direct));
}

#[test]
fn payload_dlls() {
    assert_eq!(payload_dll_names(), vec!["ScreamAPI32.dll", "ScreamAPI64.dll"]);
}

#[test]
fn archive_entries_kept() {
    assert!(should_extract("ScreamAPI64.dll"));
    assert!(should_extract("ScreamAPI32.DLL"));
    assert!(should_extract("ScreamAPI.config.json"));
    assert!(!should_extract("screamapi.config.json"));
    assert!(!should_extract("README.md"));
}

#[test]
fn release_tag_is_the_version() {
    let info = ReleaseInfo { tag_name: Some("v4.0.0".to_string()), assets: None };
    assert_eq!(release_version(&info), Ok("v4.0.0".to_string()));
    let info = ReleaseInfo { tag_name: None, assets: None };
    assert_eq!(
        release_version(&info),
        Err("Failed to extract version from release info".to_string())
    );
}

#[test]
fn first_zip_asset_gives_the_url() {
    let info = ReleaseInfo {
        tag_name: None,
        assets: Some(vec![
            asset(Some("notes.txt"), Some("u0")),
            asset(None, Some("u1")),
            asset(Some("ScreamAPI.zip"), Some("u2")),
            asset(Some("other.zip"), Some("u3")),
        ]),
    };
    assert_eq!(zip_asset_url(&info), Ok("u2".to_string()));
}

#[test]
fn zip_asset_errors() {
    let msg = Err("No zip asset found in ScreamAPI release".to_string());
    assert_eq!(zip_asset_url(&ReleaseInfo { tag_name: None, assets: None }), msg);
    assert_eq!(zip_asset_url(&ReleaseInfo { tag_name: None, assets: Some(vec![]) }), msg);
    let info = ReleaseInfo {
        tag_name: None,
        assets: Some(vec![asset(Some("a.zip"), None), asset(Some("b.zip"), Some("u"))]),
    };
    assert_eq!(zip_asset_url(&info), msg);
}

#[test]
fn backup_of_an_eos_dll_marks_the_config_directory() {
    assert!(is_config_marker(&backup_file_name("EOSSDK-Win64-Shipping.dll")));
    assert!(is_config_marker(&backup_file_name("EOSSDK-Win32-Shipping.dll")));
}

#[test]
fn archive_entries_go_to_their_base_name() {
    assert_eq!(extract_target("ScreamAPI/ScreamAPI64.dll"), Some("ScreamAPI64.dll".to_string()));
    assert_eq!(extract_target("x/ScreamAPI.config.json"), Some("ScreamAPI.config.json".to_string()));
    assert_eq!(extract_target("ScreamAPI32.DLL"), Some("ScreamAPI32.DLL".to_string()));
    assert_eq!(extract_target("docs/README.md"), None);
    assert_eq!(extract_target("ScreamAPI/"), None);
    assert_eq!(extract_target("a/.."), None);
}
