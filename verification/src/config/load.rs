//! Merging the configuration layers: applying one file onto the merged
//! configuration, and computing the merged configuration from what reading
//! the global and the repository file gave.

use vstd::prelude::*;

use crate::config::model::{
    is_status_of, key_map, model_id, set_key, unique_keys, ConfigFile, ConfigStatus, MergedConfig, ModelSpec,
};
use crate::config::state::ConfigState;
use crate::text::{concat, join, seq_join, views};

verus! {

/// The name of the per-repository config file.
pub const CONFIG_FILE_NAME: &'static str = ".orange-yeoman.json";

/// A model entry of a file takes its slot when it is present and its id is
/// not empty; otherwise the earlier layer stays.
pub open spec fn applied_slot(earlier: Option<ModelSpec>, entry: Option<ModelSpec>) -> Option<ModelSpec> {
    match entry {
        Some(s) => if model_id(s).len() > 0 {
            Some(s)
        } else {
            earlier
        },
        None => earlier,
    }
}

fn apply_slot(slot: &mut Option<ModelSpec>, entry: &Option<ModelSpec>)
    ensures
        *final(slot) == applied_slot(*old(slot), *entry),
{
    match entry {
        Some(s) => {
            if !crate::text::is_empty_str(s.id()) {
                *slot = Some(s.copy());
            }
        },
        None => {},
    }
}

/// Applies one config file onto the merged configuration: its API keys are
/// set per provider (a key is never cleared by omission), a model entry that
/// is present with a non-empty id takes its slot, and a supplied flag
/// replaces the earlier one.
pub fn apply_file(merged: &mut MergedConfig, file: &ConfigFile)
    requires
        old(merged).wf(),
    ensures
        final(merged).wf(),
        final(merged).keys() == old(merged).keys().union_prefer_right(key_map(file.api_keys@)),
        final(merged).small == applied_slot(old(merged).small, file.models.small),
        final(merged).large == applied_slot(old(merged).large, file.models.large),
        final(merged).debug == match file.debug {
            Some(d) => d,
            None => old(merged).debug,
        },
        final(merged).mock_llm == match file.mock_llm {
            Some(d) => d,
            None => old(merged).mock_llm,
        },
        final(merged).global_loaded == old(merged).global_loaded,
        final(merged).project_loaded == old(merged).project_loaded,
        final(merged).project_path == old(merged).project_path,
        final(merged).error == old(merged).error,
{
    let ghost start = key_map(merged.api_keys@);
    let mut i: usize = 0;
    while i < file.api_keys.len()
        invariant
            i <= file.api_keys@.len(),
            unique_keys(merged.api_keys@),
            key_map(merged.api_keys@) == start.union_prefer_right(key_map(file.api_keys@.take(i as int))),
            merged.small == old(merged).small,
            merged.large == old(merged).large,
            merged.debug == old(merged).debug,
            merged.mock_llm == old(merged).mock_llm,
            merged.global_loaded == old(merged).global_loaded,
            merged.project_loaded == old(merged).project_loaded,
            merged.project_path == old(merged).project_path,
            merged.error == old(merged).error,
        decreases file.api_keys@.len() - i,
    {
        set_key(&mut merged.api_keys, &file.api_keys[i].0, &file.api_keys[i].1);
        proof {
            let t = file.api_keys@.take(i as int);
            assert(file.api_keys@.take(i + 1).drop_last() =~= t);
            assert(start.union_prefer_right(key_map(t)).insert(file.api_keys@[i as int].0@, file.api_keys@[i as int].1@)
                =~= start.union_prefer_right(key_map(file.api_keys@.take(i + 1))));
        }
        i = i + 1;
    }
    assert(file.api_keys@.take(file.api_keys@.len() as int) =~= file.api_keys@);
    apply_slot(&mut merged.small, &file.models.small);
    apply_slot(&mut merged.large, &file.models.large);
    match file.debug {
        Some(d) => merged.debug = d,
        None => {},
    }
    match file.mock_llm {
        Some(d) => merged.mock_llm = d,
        None => {},
    }
}

/// What reading one config file gave: a parsed file, nothing (the file does
/// not exist), or an error message.
pub type FileRead = Result<Option<ConfigFile>, String>;

/// The error messages of the layers, in order.
pub open spec fn layer_errors(global: Option<FileRead>, project: Option<(String, FileRead)>) -> Seq<Seq<char>> {
    let g: Seq<Seq<char>> = match global {
        None => seq!["cannot resolve home directory for global config"@],
        Some(Err(e)) => seq!["global config: "@ + e@],
        Some(Ok(_)) => Seq::empty(),
    };
    let p: Seq<Seq<char>> = match project {
        Some((_, Err(e))) => seq!["project config: "@ + e@],
        _ => Seq::empty(),
    };
    g + p
}

/// The merged configuration of the layers: the defaults, then the global
/// file, then the repository file; errors are collected, joined with "; ",
/// and loading goes on with what is valid.
pub fn compute_merged(global: Option<FileRead>, project: Option<(String, FileRead)>) -> (r: MergedConfig)
    ensures
        r.wf(),
        ({
            let g_file: Option<ConfigFile> = match global {
                Some(Ok(Some(f))) => Some(f),
                _ => None,
            };
            let p_file: Option<ConfigFile> = match project {
                Some((_, Ok(Some(f)))) => Some(f),
                _ => None,
            };
            &&& r.global_loaded == g_file is Some
            &&& r.project_loaded == p_file is Some
            &&& crate::text::opt_view(r.project_path) == match project {
                Some((root, _)) => Some(root@),
                None => None,
            }
            &&& crate::text::opt_view(r.error) == if layer_errors(global, project).len() == 0 {
                None
            } else {
                Some(seq_join(layer_errors(global, project), "; "@))
            }
            &&& r.keys() == Map::<Seq<char>, Seq<char>>::empty().union_prefer_right(
                match g_file {
                    Some(f) => key_map(f.api_keys@),
                    None => Map::empty(),
                },
            ).union_prefer_right(
                match p_file {
                    Some(f) => key_map(f.api_keys@),
                    None => Map::empty(),
                },
            )
            &&& r.small == applied_slot(
                applied_slot(None, match g_file { Some(f) => f.models.small, None => None }),
                match p_file { Some(f) => f.models.small, None => None },
            )
            &&& r.large == applied_slot(
                applied_slot(None, match g_file { Some(f) => f.models.large, None => None }),
                match p_file { Some(f) => f.models.large, None => None },
            )
            &&& r.debug == match (p_file, g_file) {
                (Some(f), _) if f.debug is Some => f.debug->0,
                (_, Some(f)) if f.debug is Some => f.debug->0,
                _ => true,
            }
            &&& r.mock_llm == match (p_file, g_file) {
                (Some(f), _) if f.mock_llm is Some => f.mock_llm->0,
                (_, Some(f)) if f.mock_llm is Some => f.mock_llm->0,
                _ => true,
            }
        }),
{
    let mut merged = MergedConfig::default();
    let mut errors: Vec<String> = Vec::new();
    assert(merged.keys() =~= Map::<Seq<char>, Seq<char>>::empty());
    match &global {
        None => errors.push("cannot resolve home directory for global config".to_owned()),
        Some(Err(e)) => errors.push(concat("global config: ", e.as_str())),
        Some(Ok(Some(file))) => {
            apply_file(&mut merged, file);
            merged.global_loaded = true;
        },
        Some(Ok(None)) => {},
    }
    proof {
        assert(merged.keys() =~= Map::<Seq<char>, Seq<char>>::empty().union_prefer_right(
            match global {
                Some(Ok(Some(f))) => key_map(f.api_keys@),
                _ => Map::empty(),
            },
        ));
    }
    match &project {
        Some((root, read)) => {
            merged.project_path = Some(root.clone());
            match read {
                Err(e) => errors.push(concat("project config: ", e.as_str())),
                Ok(Some(file)) => {
                    apply_file(&mut merged, file);
                    merged.project_loaded = true;
                },
                Ok(None) => {},
            }
        },
        None => {},
    }
    proof {
        assert(views(errors@) =~= layer_errors(global, project));
        match project {
            Some((_, Ok(Some(f)))) => {},
            _ => {
                assert(merged.keys().union_prefer_right(Map::empty()) =~= merged.keys());
            },
        }
    }
    merged.error = if errors.len() == 0 {
        None
    } else {
        Some(join(&errors, "; "))
    };
    merged
}

/// Reloads the configuration: computes the merged configuration of the
/// layers, stores it in the state, and returns its status view.
pub fn reload_config_state(
    state: &mut ConfigState,
    global: Option<FileRead>,
    project: Option<(String, FileRead)>,
) -> (r: ConfigStatus)
    ensures
        final(state).inner.wf(),
        is_status_of(r, final(state).inner),
{
    let merged = compute_merged(global, project);
    let status = ConfigStatus::from(&merged);
    state.inner = merged;
    status
}

/// The directory under a home directory where the app keeps its data: the
/// global config file and the concept store live there.
pub open spec fn data_dir_of(home: Seq<char>) -> Seq<char> {
    path_join(home, "Library/Application Support/Orange Yeoman"@)
}

/// `base` and `rel` joined with one '/'.
pub open spec fn path_join(base: Seq<char>, rel: Seq<char>) -> Seq<char> {
    if base.len() > 0 && base.last() == '/' {
        base + rel
    } else {
        base + "/"@ + rel
    }
}

/// Joins a relative path onto a base path.
pub fn join_path(base: &str, rel: &str) -> (r: String)
    ensures
        r@ == path_join(base@, rel@),
{
    let cs = crate::text::chars_of(base);
    if cs.len() > 0 && cs[cs.len() - 1] == '/' {
        concat(base, rel)
    } else {
        let with_sep = concat(base, "/");
        proof {
            reveal_strlit("/");
        }
        concat(with_sep.as_str(), rel)
    }
}

/// The current user's home directory, from `dirs::home_dir`, as a string;
/// nothing is claimed of which directory it is.
#[verifier::external_body]
fn home_dir() -> (r: Option<String>) {
    match dirs::home_dir() {
        Some(p) => Some(p.to_string_lossy().into_owned()),
        None => None,
    }
}

/// The data directory of a home directory.
pub fn app_data_dir_in(home: &str) -> (r: String)
    ensures
        r@ == data_dir_of(home@),
{
    join_path(home, "Library/Application Support/Orange Yeoman")
}

/// The app's data directory under the current user's home directory, if it
/// can be resolved.
pub fn app_data_dir() -> (r: Option<String>)
    ensures
        r matches Some(d) ==> exists|h: Seq<char>| d@ == data_dir_of(h),
{
    match home_dir() {
        Some(h) => Some(app_data_dir_in(h.as_str())),
        None => None,
    }
}

/// The global config file of a home directory: `config.json` in its data
/// directory.
pub fn global_config_path_in(home: &str) -> (r: String)
    ensures
        r@ == path_join(data_dir_of(home@), "config.json"@),
{
    let d = app_data_dir_in(home);
    join_path(d.as_str(), "config.json")
}

/// The global config file: `config.json` in the data directory.
pub fn global_config_path() -> (r: Option<String>)
    ensures
        r matches Some(p) ==> exists|h: Seq<char>| p@ == path_join(data_dir_of(h), "config.json"@),
{
    match home_dir() {
        Some(h) => Some(global_config_path_in(h.as_str())),
        None => None,
    }
}

/// The decimal digits of a number.
pub open spec fn decimal_of(n: nat) -> Seq<char>
    decreases n,
{
    if n < 10 {
        seq![digit(n)]
    } else {
        decimal_of(n / 10).push(digit(n % 10))
    }
}

pub open spec fn digit(d: nat) -> char {
    if d == 0 { '0' } else if d == 1 { '1' } else if d == 2 { '2' } else if d == 3 { '3' } else if d == 4 { '4' }
    else if d == 5 { '5' } else if d == 6 { '6' } else if d == 7 { '7' } else if d == 8 { '8' } else { '9' }
}

fn digit_char(d: usize) -> (c: char)
    requires
        d < 10,
    ensures
        c == digit(d as nat),
{
    if d == 0 { '0' } else if d == 1 { '1' } else if d == 2 { '2' } else if d == 3 { '3' } else if d == 4 { '4' }
    else if d == 5 { '5' } else if d == 6 { '6' } else if d == 7 { '7' } else if d == 8 { '8' } else { '9' }
}

/// A number in decimal.
pub fn decimal(n: usize) -> (r: String)
    ensures
        r@ == decimal_of(n as nat),
    decreases n,
{
    if n < 10 {
        let mut r = String::new();
        crate::text::push_char(&mut r, digit_char(n));
        assert(r@ =~= seq![digit(n as nat)]);
        r
    } else {
        let mut r = decimal(n / 10);
        crate::text::push_char(&mut r, digit_char(n % 10));
        r
    }
}

/// The safe message of a config parse error: a generic reason, the path
/// and the position, never the offending text.
pub open spec fn parse_error_message(path: Seq<char>, line: nat, column: nat) -> Seq<char> {
    "invalid config JSON at "@ + path + ": line "@ + decimal_of(line) + ", column "@ + decimal_of(column)
}

/// Builds the safe message of a config parse error from its position.
pub fn sanitize_parse_error(path: &str, line: usize, column: usize) -> (r: String)
    ensures
        r@ == parse_error_message(path@, line as nat, column as nat),
{
    let a = concat("invalid config JSON at ", path);
    let b = concat(a.as_str(), ": line ");
    let l = decimal(line);
    let c = concat(b.as_str(), l.as_str());
    let d = concat(c.as_str(), ", column ");
    let k = decimal(column);
    concat(d.as_str(), k.as_str())
}

} // verus!
