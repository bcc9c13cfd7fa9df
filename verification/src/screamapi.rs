//! The decisions of installing ScreamAPI: which release asset to fetch,
//! which archive entries to keep, which game files are EOS SDK DLLs and
//! backups, and the names of backups and of the DLLs put in their place.
use vstd::prelude::*;
use vstd::string::StringExecFns;
use crate::text::{
    contains, ends_with, has_infix, has_prefix, has_suffix, path_file_name, path_file_name_of,
    starts_with, strip_suffixes, text_eq, to_lowercase, trim_end_matches, unicode_lowercase,
};
use crate::config::{config_file_name, config_file_name_spec};

verus! {

/// The ScreamAPI unlocker (EOS SDK DLC unlocker for Epic games).
pub struct ScreamAPI;

/// One asset of a GitHub release: its name and download URL, each present
/// only when the release JSON gives it as a string.
pub struct ReleaseAsset {
    pub name: Option<String>,
    pub download_url: Option<String>,
}

/// What the installer reads of a GitHub release: its tag (when a string)
/// and its assets (when an array).
pub struct ReleaseInfo {
    pub tag_name: Option<String>,
    pub assets: Option<Vec<ReleaseAsset>>,
}

/// How ScreamAPI goes into a game.
pub enum InstallMode {
    /// In place of the game's EOS SDK DLLs, which are kept as backups.
    Direct,
    /// As a Koaloader payload next to the executable.
    KoaloaderPayload,
}

/// The error when a release has no tag.
pub open spec fn missing_version_error() -> Seq<char> {
    "Failed to extract version from release info"@
}

/// The error when a release has no zip asset with a URL.
pub open spec fn missing_zip_error() -> Seq<char> {
    "No zip asset found in ScreamAPI release"@
}

/// The error when no version of ScreamAPI is cached.
pub open spec fn not_cached_error() -> Seq<char> {
    "ScreamAPI is not cached. Please restart the app."@
}

/// The error when a game has no EOS SDK DLL.
pub open spec fn no_eos_dll_error(game_path: Seq<char>) -> Seq<char> {
    "No EOSSDK-Win*-Shipping.dll found in "@ + game_path
}

/// The position of the first asset, from `i` on, whose name ends in `.zip`.
pub open spec fn first_zip_asset(assets: Seq<ReleaseAsset>, i: int) -> Option<int>
    decreases assets.len() - i,
{
    if i < 0 || i >= assets.len() {
        None
    } else if assets[i].name matches Some(n) && has_suffix(n@, ".zip"@) {
        Some(i)
    } else {
        first_zip_asset(assets, i + 1)
    }
}

/// The download URL of a release's archive: that of its first asset whose
/// name ends in `.zip`, when that asset has one.
pub open spec fn zip_asset_url_spec(info: ReleaseInfo) -> Option<Seq<char>> {
    match info.assets {
        None => None,
        Some(assets) => match first_zip_asset(assets@, 0) {
            None => None,
            Some(k) => match assets@[k].download_url {
                Some(u) => Some(u@),
                None => None,
            },
        },
    }
}

/// A file that is one of a game's EOS SDK DLLs (and not a backup of one).
pub open spec fn is_eossdk_dll_spec(name: Seq<char>) -> bool {
    let l = unicode_lowercase(name);
    has_prefix(l, "eossdk-win"@) && has_suffix(l, "-shipping.dll"@) && !has_infix(l, "_o"@)
}

/// A file that is the backup of an EOS SDK DLL.
pub open spec fn is_eos_backup_spec(name: Seq<char>) -> bool {
    let l = unicode_lowercase(name);
    has_prefix(l, "eossdk-win"@) && has_suffix(l, "_o.dll"@)
}

/// The name under which an EOS SDK DLL is kept before ScreamAPI replaces it.
pub open spec fn backup_name_spec(name: Seq<char>) -> Seq<char> {
    strip_suffixes(name, ".dll"@) + "_o.dll"@
}

/// The name that a backup is restored to.
pub open spec fn restored_name_spec(backup: Seq<char>) -> Seq<char> {
    strip_suffixes(backup, "_o.dll"@) + ".dll"@
}

/// The ScreamAPI DLL that replaces an EOS SDK DLL: the 64-bit one when the
/// lower-cased name holds "64".
pub open spec fn scream_dll_spec(name: Seq<char>) -> Seq<char> {
    if has_infix(unicode_lowercase(name), "64"@) {
        "ScreamAPI64.dll"@
    } else {
        "ScreamAPI32.dll"@
    }
}

/// An archive entry (by its base name) that is kept: a DLL, by its
/// lower-cased name, or the configuration file.
pub open spec fn should_extract_spec(base_name: Seq<char>) -> bool {
    has_suffix(unicode_lowercase(base_name), ".dll"@) || base_name == config_file_name_spec()
}

impl ScreamAPI {
    /// The unlocker's name.
    pub fn name() -> (r: &'static str)
        ensures
            r@ == "ScreamAPI"@,
    {
        "ScreamAPI"
    }

    /// Among the file names of a walk of a game's files, the positions of
    /// the EOS SDK DLLs, in walk order.
    pub fn find_eossdk_dlls(file_names: &Vec<String>) -> (r: Vec<usize>)
        ensures
            forall|k: int|
                0 <= k < r@.len() ==> r@[k] < file_names@.len() && is_eossdk_dll_spec(
                    file_names@[#[trigger] r@[k] as int]@,
                ),
            forall|k: int, l: int| 0 <= k < l < r@.len() ==> r@[k] < r@[l],
            forall|i: int|
                0 <= i < file_names@.len() && is_eossdk_dll_spec(#[trigger] file_names@[i]@)
                    ==> r@.contains(i as usize),
    {
        let mut found: Vec<usize> = Vec::new();
        let mut i: usize = 0;
        while i < file_names.len()
            invariant
                i <= file_names@.len(),
                forall|k: int|
                    0 <= k < found@.len() ==> found@[k] < i && is_eossdk_dll_spec(
                        file_names@[#[trigger] found@[k] as int]@,
                    ),
                forall|k: int, l: int| 0 <= k < l < found@.len() ==> found@[k] < found@[l],
                forall|j: int|
                    0 <= j < i && is_eossdk_dll_spec(#[trigger] file_names@[j]@) ==> found@.contains(
                        j as usize,
                    ),
            decreases file_names.len() - i,
        {
            if is_eossdk_dll(file_names[i].as_str()) {
                let ghost before = found@;
                found.push(i);
                assert forall|j: int|
                    0 <= j < i + 1 && is_eossdk_dll_spec(
                        #[trigger] file_names@[j]@,
                    ) implies found@.contains(j as usize) by {
                    if j < i {
                        let w = choose|w: int| 0 <= w < before.len() && before[w] == j as usize;
                        assert(found@[w] == j as usize);
                    } else {
                        assert(found@[before.len() as int] == i);
                    }
                }
            }
            i += 1;
        }
        found
    }
}

/// Whether a file is an EOS SDK DLL: its lower-cased name starts with
/// `eossdk-win`, ends with `-shipping.dll` and does not hold `_o`.
pub fn is_eossdk_dll(name: &str) -> (r: bool)
    ensures
        r == is_eossdk_dll_spec(name@),
{
    let l = to_lowercase(name);
    starts_with(l.as_str(), "eossdk-win") && ends_with(l.as_str(), "-shipping.dll") && !contains(
        l.as_str(),
        "_o",
    )
}

/// Whether a file is the backup of an EOS SDK DLL: its lower-cased name
/// starts with `eossdk-win` and ends with `_o.dll`.
pub fn is_eos_backup(name: &str) -> (r: bool)
    ensures
        r == is_eos_backup_spec(name@),
{
    let l = to_lowercase(name);
    starts_with(l.as_str(), "eossdk-win") && ends_with(l.as_str(), "_o.dll")
}

/// The backup name of an EOS SDK DLL: its name without trailing `.dll`s,
/// followed by `_o.dll`.
pub fn backup_file_name(name: &str) -> (r: String)
    ensures
        r@ == backup_name_spec(name@),
{
    let stem = trim_end_matches(name, ".dll");
    stem.to_owned().concat("_o.dll")
}

/// The name a backup is restored to: its name without trailing `_o.dll`s,
/// followed by `.dll`.
pub fn restored_file_name(backup: &str) -> (r: String)
    ensures
        r@ == restored_name_spec(backup@),
{
    let stem = trim_end_matches(backup, "_o.dll");
    stem.to_owned().concat(".dll")
}

/// The name that a walked file is restored to when it is a backup.
pub fn restore_target(name: &str) -> (r: Option<String>)
    ensures
        r is Some <==> is_eos_backup_spec(name@),
        r matches Some(t) ==> t@ == restored_name_spec(name@),
{
    if is_eos_backup(name) {
        Some(restored_file_name(name))
    } else {
        None
    }
}

/// The ScreamAPI DLL that replaces the EOS SDK DLL `name`.
pub fn scream_dll_for(name: &str) -> (r: &'static str)
    ensures
        r@ == scream_dll_spec(name@),
{
    let l = to_lowercase(name);
    if contains(l.as_str(), "64") {
        "ScreamAPI64.dll"
    } else {
        "ScreamAPI32.dll"
    }
}

/// What replacing one EOS SDK DLL takes: the name of its backup, and the
/// ScreamAPI DLL that is copied over it.
pub struct DllReplacement {
    pub backup_name: String,
    pub scream_dll: &'static str,
}

/// The replacements for a game's EOS SDK DLLs (given by file name, in walk
/// order); an error when the game has none.
pub fn plan_direct_install(game_path: &str, eos_file_names: &Vec<String>) -> (r: Result<
    Vec<DllReplacement>,
    String,
>)
    ensures
        r is Err <==> eos_file_names@.len() == 0,
        r matches Err(e) ==> e@ == no_eos_dll_error(game_path@),
        r matches Ok(v) ==> {
            &&& v@.len() == eos_file_names@.len()
            &&& forall|i: int|
                0 <= i < v@.len() ==> {
                    &&& (#[trigger] v@[i]).backup_name@ == backup_name_spec(eos_file_names@[i]@)
                    &&& v@[i].scream_dll@ == scream_dll_spec(eos_file_names@[i]@)
                }
        },
{
    if eos_file_names.len() == 0 {
        return Err(String::from_str("No EOSSDK-Win*-Shipping.dll found in ").concat(game_path));
    }
    let mut plan: Vec<DllReplacement> = Vec::new();
    let mut i: usize = 0;
    while i < eos_file_names.len()
        invariant
            i <= eos_file_names@.len(),
            plan@.len() == i,
            forall|j: int|
                0 <= j < i ==> {
                    &&& (#[trigger] plan@[j]).backup_name@ == backup_name_spec(
                        eos_file_names@[j]@,
                    )
                    &&& plan@[j].scream_dll@ == scream_dll_spec(eos_file_names@[j]@)
                },
        decreases eos_file_names.len() - i,
    {
        let name = eos_file_names[i].as_str();
        plan.push(
            DllReplacement { backup_name: backup_file_name(name), scream_dll: scream_dll_for(name) },
        );
        i += 1;
    }
    Ok(plan)
}

/// The cached ScreamAPI version to install from; an error when none is
/// cached (the latest version is empty).
pub fn cached_version(latest: &str) -> (r: Result<String, String>)
    ensures
        r is Err <==> latest@.len() == 0,
        r matches Ok(v) ==> v@ == latest@,
        r matches Err(e) ==> e@ == not_cached_error(),
{
    if latest.is_empty() {
        Err(String::from_str("ScreamAPI is not cached. Please restart the app."))
    } else {
        Ok(latest.to_owned())
    }
}

/// The install mode that a context names: `koaloader` for a Koaloader
/// payload, anything else for a direct install.
pub fn install_mode(context: &str) -> (r: InstallMode)
    ensures
        r is KoaloaderPayload <==> context@ == "koaloader"@,
{
    if text_eq(context, "koaloader") {
        InstallMode::KoaloaderPayload
    } else {
        InstallMode::Direct
    }
}

/// The ScreamAPI DLLs placed next to an executable as a Koaloader payload.
pub fn payload_dll_names() -> (r: Vec<&'static str>)
    ensures
        r@.map_values(|s: &str| s@) == seq!["ScreamAPI32.dll"@, "ScreamAPI64.dll"@],
{
    let r = vec!["ScreamAPI32.dll", "ScreamAPI64.dll"];
    assert(r@.map_values(|s: &str| s@) =~= seq!["ScreamAPI32.dll"@, "ScreamAPI64.dll"@]);
    r
}

/// Whether an archive entry (by its base name) is extracted into the cache.
pub fn should_extract(base_name: &str) -> (r: bool)
    ensures
        r == should_extract_spec(base_name@),
{
    let l = to_lowercase(base_name);
    ends_with(l.as_str(), ".dll") || text_eq(base_name, config_file_name())
}

/// The base name of an archive entry (empty when its path has no file
/// name), when that entry is extracted into the cache.
pub open spec fn extract_target_spec(entry_name: Seq<char>) -> Option<Seq<char>> {
    let base = match path_file_name(entry_name) {
        Some(b) => b,
        None => Seq::empty(),
    };
    if should_extract_spec(base) {
        Some(base)
    } else {
        None
    }
}

/// The name under which an archive entry is extracted into the cache: its
/// base name, when it is a DLL or the configuration file.
pub fn extract_target(entry_name: &str) -> (r: Option<String>)
    ensures
        match r {
            Some(b) => extract_target_spec(entry_name@) == Some(b@),
            None => extract_target_spec(entry_name@) is None,
        },
{
    let base = match path_file_name_of(entry_name) {
        Some(b) => b.to_owned(),
        None => String::new(),
    };
    if should_extract(base.as_str()) {
        Some(base)
    } else {
        None
    }
}

/// The asset's name is given and ends in ".zip".
pub open spec fn is_zip_named(a: ReleaseAsset) -> bool {
    a.name matches Some(n) && has_suffix(n@, ".zip"@)
}

/// The archive asset of a release is the first asset, in the release's
/// order and the last one included, whose name ends in ".zip"; there is none
/// when no asset's name does.
pub proof fn law_first_zip_asset(assets: Seq<ReleaseAsset>)
    ensures
        forall|k: int|
            #![trigger is_zip_named(assets[k])]
            0 <= k < assets.len() && is_zip_named(assets[k]) && (forall|j: int|
                0 <= j < k ==> !is_zip_named(#[trigger] assets[j])) ==> first_zip_asset(assets, 0)
                == Some(k),
        (forall|j: int| 0 <= j < assets.len() ==> !is_zip_named(#[trigger] assets[j]))
            ==> first_zip_asset(assets, 0) is None,
{
    assert forall|k: int|
        #![trigger is_zip_named(assets[k])]
        0 <= k < assets.len() && is_zip_named(assets[k]) && (forall|j: int|
            0 <= j < k ==> !is_zip_named(#[trigger] assets[j])) implies first_zip_asset(assets, 0)
        == Some(k) by {
        lemma_first_zip_hit(assets, 0, k);
    }
    if forall|j: int| 0 <= j < assets.len() ==> !is_zip_named(#[trigger] assets[j]) {
        lemma_first_zip_miss(assets, 0);
    }
}

proof fn lemma_first_zip_hit(assets: Seq<ReleaseAsset>, s: int, k: int)
    requires
        0 <= s <= k < assets.len(),
        is_zip_named(assets[k]),
        forall|j: int| s <= j < k ==> !is_zip_named(#[trigger] assets[j]),
    ensures
        first_zip_asset(assets, s) == Some(k),
    decreases k - s,
{
    if s < k {
        assert(!is_zip_named(assets[s]));
        lemma_first_zip_hit(assets, s + 1, k);
    }
}

proof fn lemma_first_zip_miss(assets: Seq<ReleaseAsset>, s: int)
    requires
        0 <= s,
        forall|j: int| s <= j < assets.len() ==> !is_zip_named(#[trigger] assets[j]),
    ensures
        first_zip_asset(assets, s) is None,
    decreases assets.len() - s,
{
    if s < assets.len() {
        assert(!is_zip_named(assets[s]));
        lemma_first_zip_miss(assets, s + 1);
    }
}

/// The version of a release: its tag.
pub fn release_version(info: &ReleaseInfo) -> (r: Result<String, String>)
    ensures
        r is Ok <==> info.tag_name is Some,
        r matches Ok(v) ==> v@ == info.tag_name->0@,
        r matches Err(e) ==> e@ == missing_version_error(),
{
    match &info.tag_name {
        Some(t) => Ok(t.clone()),
        None => Err(String::from_str("Failed to extract version from release info")),
    }
}

/// The download URL of a release's archive.
pub fn zip_asset_url(info: &ReleaseInfo) -> (r: Result<String, String>)
    ensures
        r is Ok <==> zip_asset_url_spec(*info) is Some,
        r matches Ok(u) ==> zip_asset_url_spec(*info) == Some(u@),
        r matches Err(e) ==> e@ == missing_zip_error(),
        info.assets is None ==> r is Err,
        info.assets matches Some(a) ==> forall|k: int|
            #![trigger is_zip_named(a@[k])]
            0 <= k < a@.len() && is_zip_named(a@[k]) && (forall|j: int|
                0 <= j < k ==> !is_zip_named(#[trigger] a@[j])) ==> match a@[k].download_url {
                Some(u) => r matches Ok(v) && v@ == u@,
                None => r is Err,
            },
        info.assets matches Some(a) && (forall|j: int|
            0 <= j < a@.len() ==> !is_zip_named(#[trigger] a@[j])) ==> r is Err,
{
    proof {
        if info.assets is Some {
            law_first_zip_asset(info.assets->0@);
        }
    }
    let assets = match &info.assets {
        None => {
            return Err(String::from_str("No zip asset found in ScreamAPI release"));
        },
        Some(a) => a,
    };
    let mut i: usize = 0;
    #[verifier::loop_isolation(false)]
    while i < assets.len()
        invariant
            i <= assets@.len(),
            info.assets == Some(*assets),
            first_zip_asset(assets@, 0) == first_zip_asset(assets@, i as int),
        decreases assets.len() - i,
    {
        let hit = match &assets[i].name {
            Some(n) => ends_with(n.as_str(), ".zip"),
            None => false,
        };
        if hit {
            return match &assets[i].download_url {
                Some(u) => Ok(u.clone()),
                None => Err(String::from_str("No zip asset found in ScreamAPI release")),
            };
        }
        i += 1;
    }
    Err(String::from_str("No zip asset found in ScreamAPI release"))
}


/// Stripping every trailing `p` leaves a string that does not end with `p`.
pub proof fn lemma_strip_suffixes_done(s: Seq<char>, p: Seq<char>)
    requires
        p.len() > 0,
    ensures
        !has_suffix(strip_suffixes(s, p), p),
        has_prefix(s, strip_suffixes(s, p)),
    decreases s.len(),
{
    if has_suffix(s, p) {
        let t = s.subrange(0, s.len() - p.len());
        lemma_strip_suffixes_done(t, p);
        let r = strip_suffixes(t, p);
        assert(s.subrange(0, r.len() as int) =~= t.subrange(0, r.len() as int));
    } else {
        assert(s.subrange(0, s.len() as int) =~= s);
    }
}

/// Restoring the backup of a DLL gives the DLL's name without its trailing
/// `.dll`s, followed by one `.dll`; so a name that ends in exactly one `.dll`
/// comes back unchanged.
pub proof fn lemma_restore_undoes_backup(name: Seq<char>)
    ensures
        restored_name_spec(backup_name_spec(name)) == strip_suffixes(name, ".dll"@) + ".dll"@,
        (has_suffix(name, ".dll"@) && !has_suffix(
            name.subrange(0, name.len() - ".dll"@.len()),
            ".dll"@,
        )) ==> restored_name_spec(backup_name_spec(name)) == name,
{
    reveal_strlit(".dll");
    reveal_strlit("_o.dll");
    let dll = ".dll"@;
    let bak = "_o.dll"@;
    let stem = strip_suffixes(name, dll);
    lemma_strip_suffixes_done(name, dll);
    let b = stem + bak;
    assert(b.subrange(b.len() - bak.len(), b.len() as int) =~= bak);
    assert(b.subrange(0, b.len() - bak.len()) =~= stem);
    // `stem` does not end in ".dll", so it does not end in "_o.dll" either.
    if has_suffix(stem, bak) {
        assert(bak.subrange(2, 6) =~= dll);
        assert(stem.subrange(stem.len() - dll.len(), stem.len() as int) =~= stem.subrange(
            stem.len() - bak.len(),
            stem.len() as int,
        ).subrange(2, 6));
        assert(has_suffix(stem, dll));
    }
    assert(!has_suffix(stem, bak));
    assert(strip_suffixes(b, bak) == strip_suffixes(stem, bak));
    assert(strip_suffixes(stem, bak) == stem);
    if has_suffix(name, dll) && !has_suffix(name.subrange(0, name.len() - dll.len()), dll) {
        let t = name.subrange(0, name.len() - dll.len());
        assert(strip_suffixes(t, dll) == t);
        assert(t + dll =~= name);
    }
}

/// The backup of a DLL whose name (without its trailing `.dll`s) starts
/// with `EOSSDK-Win` marks the directory of the ScreamAPI configuration, so
/// the configuration is looked for where a direct install wrote it.
pub proof fn lemma_backup_marks_config_dir(name: Seq<char>)
    requires
        has_prefix(strip_suffixes(name, ".dll"@), "EOSSDK-Win"@),
    ensures
        crate::config::is_config_marker_spec(backup_name_spec(name)),
{
    reveal_strlit("_o.dll");
    let stem = strip_suffixes(name, ".dll"@);
    let p = "EOSSDK-Win"@;
    let bak = "_o.dll"@;
    let b = stem + bak;
    assert(b.subrange(0, p.len() as int) =~= stem.subrange(0, p.len() as int));
    assert(b.subrange(b.len() - bak.len(), b.len() as int) =~= bak);
}

} // verus!
