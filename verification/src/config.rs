//! The ScreamAPI configuration: its default values, where it is written, and
//! how its location is found among the files of a game.
use vstd::prelude::*;
use vstd::string::StringExecFns;
use std::collections::HashMap;
use crate::text::{ends_with, has_prefix, has_suffix, starts_with, text_eq};

verus! {

/// The configuration file that ScreamAPI reads, next to its DLL.
#[derive(Clone, Debug)]
pub struct ScreamAPIConfig {
    pub schema: String,
    pub version: u32,
    pub logging: bool,
    pub log_eos: bool,
    pub block_metrics: bool,
    pub namespace_id: String,
    pub default_dlc_status: String,
    pub override_dlc_status: HashMap<String, String>,
    pub extra_graphql_endpoints: Vec<String>,
    pub extra_entitlements: HashMap<String, String>,
}

/// The JSON schema that the configuration names.
pub open spec fn default_schema() -> Seq<char> {
    "https://raw.githubusercontent.com/acidicoala/ScreamAPI/master/res/ScreamAPI.schema.json"@
}

/// The configuration format version written by default.
pub open spec fn default_version() -> u32 {
    3
}

/// `c` holds the default settings: logging off, metrics not blocked, no
/// namespace, every DLC unlocked, and no overrides, endpoints or
/// entitlements.
pub open spec fn is_default_config(c: ScreamAPIConfig) -> bool {
    &&& c.schema@ == default_schema()
    &&& c.version == default_version()
    &&& !c.logging
    &&& !c.log_eos
    &&& !c.block_metrics
    &&& c.namespace_id@ == Seq::<char>::empty()
    &&& c.default_dlc_status@ == "unlocked"@
    &&& c.override_dlc_status@ == Map::<String, String>::empty()
    &&& c.extra_graphql_endpoints@ == Seq::<String>::empty()
    &&& c.extra_entitlements@ == Map::<String, String>::empty()
}

impl ScreamAPIConfig {
    /// The default configuration.
    pub fn new_default() -> (c: ScreamAPIConfig)
        ensures
            is_default_config(c),
    {
        ScreamAPIConfig {
            schema: String::from_str(
                "https://raw.githubusercontent.com/acidicoala/ScreamAPI/master/res/ScreamAPI.schema.json",
            ),
            version: 3,
            logging: false,
            log_eos: false,
            block_metrics: false,
            namespace_id: String::new(),
            default_dlc_status: String::from_str("unlocked"),
            override_dlc_status: HashMap::new(),
            extra_graphql_endpoints: Vec::new(),
            extra_entitlements: HashMap::new(),
        }
    }
}

impl Default for ScreamAPIConfig {
    fn default() -> (c: ScreamAPIConfig)
        ensures
            is_default_config(c),
    {
        ScreamAPIConfig::new_default()
    }
}

/// The name of the configuration file.
pub open spec fn config_file_name_spec() -> Seq<char> {
    "ScreamAPI.config.json"@
}

/// The name of the configuration file.
pub fn config_file_name() -> (r: &'static str)
    ensures
        r@ == config_file_name_spec(),
{
    "ScreamAPI.config.json"
}

/// A configuration to be written as pretty-printed JSON to the file
/// `file_name` in the directory `dir`.
pub struct ConfigWrite {
    pub dir: String,
    pub file_name: String,
    pub config: ScreamAPIConfig,
}

/// Where and what to write to store `config` in `dir`: the file
/// `ScreamAPI.config.json` of that directory.
pub fn write_config_to_dir(dir: &str, config: ScreamAPIConfig) -> (r: ConfigWrite)
    ensures
        r.dir@ == dir@,
        r.file_name@ == config_file_name_spec(),
        r.config == config,
{
    ConfigWrite { dir: dir.to_owned(), file_name: config_file_name().to_owned(), config }
}

/// Where and what to write to give `dir` the default configuration: the
/// same as `write_config_to_dir` with the default configuration.
pub fn write_default_config(dir: &str) -> (r: ConfigWrite)
    ensures
        r.dir@ == dir@,
        r.file_name@ == config_file_name_spec(),
        is_default_config(r.config),
{
    write_config_to_dir(dir, ScreamAPIConfig::default())
}

/// Where and what to write to store `config` for a game: in the directory
/// where a configuration or an EOS SDK backup was found (`found_dir`), or
/// else in the game's root directory.
pub fn write_config(game_path: &str, found_dir: Option<String>, config: ScreamAPIConfig) -> (r:
    ConfigWrite)
    ensures
        r.dir@ == match found_dir {
            Some(d) => d@,
            None => game_path@,
        },
        r.file_name@ == config_file_name_spec(),
        r.config == config,
{
    match found_dir {
        Some(d) => write_config_to_dir(d.as_str(), config),
        None => write_config_to_dir(game_path, config),
    }
}

/// A file whose directory holds the ScreamAPI configuration: an EOS SDK
/// backup (`EOSSDK-Win…_o.dll`) or the configuration itself.
pub open spec fn is_config_marker_spec(name: Seq<char>) -> bool {
    (has_prefix(name, "EOSSDK-Win"@) && has_suffix(name, "_o.dll"@)) || name
        == config_file_name_spec()
}

/// Whether a file name marks the directory of the ScreamAPI configuration.
pub fn is_config_marker(name: &str) -> (r: bool)
    ensures
        r == is_config_marker_spec(name@),
{
    (starts_with(name, "EOSSDK-Win") && ends_with(name, "_o.dll")) || text_eq(
        name,
        config_file_name(),
    )
}

/// The first marker among the walk's entries from `i` on; entries without a
/// file name (`None`) mark nothing and are passed over.
pub open spec fn config_entry_from(names: Seq<Option<Seq<char>>>, i: int) -> Option<int>
    decreases names.len() - i,
{
    if i < 0 || i >= names.len() {
        None
    } else {
        match names[i] {
            Some(n) if is_config_marker_spec(n) => Some(i),
            _ => config_entry_from(names, i + 1),
        }
    }
}

/// The entry has a file name, and that name marks the configuration's
/// directory.
pub open spec fn names_marker(n: Option<Seq<char>>) -> bool {
    n matches Some(x) && is_config_marker_spec(x)
}

proof fn lemma_config_hit(names: Seq<Option<Seq<char>>>, s: int, k: int)
    requires
        0 <= s <= k < names.len(),
        names_marker(names[k]),
        forall|j: int| s <= j < k ==> !names_marker(#[trigger] names[j]),
    ensures
        config_entry_from(names, s) == Some(k),
    decreases k - s,
{
    if s < k {
        assert(!names_marker(names[s]));
        lemma_config_hit(names, s + 1, k);
    }
}

proof fn lemma_config_miss(names: Seq<Option<Seq<char>>>, s: int)
    requires
        0 <= s,
        forall|j: int| s <= j < names.len() ==> !names_marker(#[trigger] names[j]),
    ensures
        config_entry_from(names, s) is None,
    decreases names.len() - s,
{
    if s < names.len() {
        assert(!names_marker(names[s]));
        lemma_config_miss(names, s + 1);
    }
}

/// The configuration's directory is that of the first entry of the walk,
/// the last one included, whose file name is a marker; entries before it
/// (named or not) are passed over; there is none when no entry is a marker.
pub proof fn law_config_search(names: Seq<Option<Seq<char>>>)
    ensures
        forall|k: int|
            #![trigger names_marker(names[k])]
            0 <= k < names.len() && names_marker(names[k]) && (forall|j: int|
                0 <= j < k ==> !names_marker(#[trigger] names[j])) ==> config_entry_from(names, 0)
                == Some(k),
        (forall|j: int| 0 <= j < names.len() ==> !names_marker(#[trigger] names[j]))
            ==> config_entry_from(names, 0) is None,
{
    assert forall|k: int|
        #![trigger names_marker(names[k])]
        0 <= k < names.len() && names_marker(names[k]) && (forall|j: int|
            0 <= j < k ==> !names_marker(#[trigger] names[j])) implies config_entry_from(names, 0)
        == Some(k) by {
        lemma_config_hit(names, 0, k);
    }
    if forall|j: int| 0 <= j < names.len() ==> !names_marker(#[trigger] names[j]) {
        lemma_config_miss(names, 0);
    }
}

/// The views of a sequence of optional file names.
pub open spec fn optional_views(v: Seq<Option<String>>) -> Seq<Option<Seq<char>>> {
    v.map_values(
        |o: Option<String>|
            match o {
                Some(s) => Some(s@),
                None => None,
            },
    )
}

/// Among the entries of a walk of a game's files (their file names, in walk
/// order; `None` for an entry without one), the entry whose directory holds
/// the configuration: the first that is a marker. The whole walk is
/// searched; entries without a file name are passed over.
pub fn locate_config_entry(names: &Vec<Option<String>>) -> (r: Option<usize>)
    ensures
        match r {
            Some(i) => config_entry_from(optional_views(names@), 0) == Some(i as int),
            None => config_entry_from(optional_views(names@), 0) is None,
        },
{
    let ghost views = optional_views(names@);
    let mut i: usize = 0;
    while i < names.len()
        invariant
            i <= names@.len(),
            views == optional_views(names@),
            config_entry_from(views, 0) == config_entry_from(views, i as int),
        decreases names.len() - i,
    {
        if let Some(n) = &names[i] {
            if is_config_marker(n.as_str()) {
                return Some(i);
            }
        }
        i += 1;
    }
    None
}

} // verus!
