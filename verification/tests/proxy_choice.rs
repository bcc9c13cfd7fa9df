use creamlinux::proxy::{
    fallback_proxy, is_pe_extension, koa_variant_names, select_proxy, ProxyScanResult, ScannedPe,
};

fn pe(name: &str, imports: &[&str]) -> ScannedPe {
    ScannedPe {
        file_name: name.to_string(),
        imports: imports.iter().map(|s| s.to_string()).collect(),
    }
}

fn chosen(r: &ProxyScanResult) -> (&str, bool) {
    (r.proxy_name.as_str(), r.is_fallback)
}

#[test]
fn variants_are_listed_in_preference_order() {
    let v = koa_variant_names();
    assert_eq!(v.len(), 22);
    assert_eq!(v[0], "version.dll");
    assert_eq!(v[1], "winmm.dll");
    assert_eq!(v[21], "xinput9_1_0.dll");
}

#[test]
fn main_exe_import_wins_by_preference() {
    let files = vec![
        pe("game.exe", &["kernel32.dll", "d3d11.dll", "winmm.dll"]),
        pe("helper.dll", &["version.dll"]),
    ];
    let r = select_proxy(&files, "game.exe");
    assert_eq!(chosen(&r), ("winmm.dll", false));
}

#[test]
fn sibling_import_used_when_main_exe_has_none() {
    let files = vec![
        pe("game.exe", &["kernel32.dll", "user32.dll"]),
        pe("a.dll", &["dxgi.dll"]),
        pe("b.dll", &["hid.dll", "d3d9.dll"]),
    ];
    let r = select_proxy(&files, "game.exe");
    assert_eq!(chosen(&r), ("dxgi.dll", false));
}

#[test]
fn imports_of_every_file_named_like_the_exe_count_as_main() {
    let files = vec![pe("game.exe", &["kernel32.dll"]), pe("game.exe", &["opengl32.dll"])];
    let r = select_proxy(&files, "game.exe");
    assert_eq!(chosen(&r), ("opengl32.dll", false));
}

#[test]
fn no_variant_anywhere_falls_back_to_version_dll() {
    let files = vec![pe("game.exe", &["kernel32.dll"]), pe("x.dll", &["user32.dll"])];
    let r = select_proxy(&files, "game.exe");
    assert_eq!(chosen(&r), ("version.dll", true));
    let r = select_proxy(&Vec::new(), "game.exe");
    assert_eq!(chosen(&r), ("version.dll", true));
}

#[test]
fn version_dll_imported_is_not_a_fallback() {
    let files = vec![pe("game.exe", &["version.dll"])];
    assert_eq!(chosen(&select_proxy(&files, "game.exe")), ("version.dll", false));
}

#[test]
fn unscannable_directory_falls_back() {
    assert_eq!(chosen(&fallback_proxy()), ("version.dll", true));
}

#[test]
fn pe_extensions_ignore_ascii_case() {
    assert!(is_pe_extension(Some("exe")));
    assert!(is_pe_extension(Some("EXE")));
    assert!(is_pe_extension(Some("Dll")));
    assert!(!is_pe_extension(Some("so")));
    assert!(!is_pe_extension(Some("exe2")));
    assert!(!is_pe_extension(Some("")));
    assert!(!is_pe_extension(None));
}

#[test]
fn every_variant_imported_by_the_exe_is_chosen() {
    for v in koa_variant_names() {
        let files = vec![pe("game.exe", &["kernel32.dll", v])];
        assert_eq!(chosen(&select_proxy(&files, "game.exe")), (v, false));
    }
}

#[test]
fn choice_does_not_depend_on_scan_order() {
    let a = pe("game.exe", &["kernel32.dll"]);
    let b = pe("x.dll", &["hid.dll"]);
    let c = pe("y.dll", &["dinput8.dll"]);
    let r1 = select_proxy(&vec![pe("x.dll", &["hid.dll"]), a, c], "game.exe");
    let r2 = select_proxy(&vec![pe("y.dll", &["dinput8.dll"]), b, pe("game.exe", &["kernel32.dll"])], "game.exe");
    assert_eq!(chosen(&r1), ("dinput8.dll", false));
    assert_eq!(chosen(&r1), chosen(&r2));
}
