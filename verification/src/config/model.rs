//! The configuration data: one config file, the merged configuration, and
//! the frontend-safe status view, which never carries API key values.

use vstd::prelude::*;

use crate::text::opt_view;

use crate::text::{sort_dedup, sorted_of, strictly_sorted, views};

verus! {

/// One configured model: the legacy plain id, or a provider-bound id.
#[derive(Debug, Clone, PartialEq, Eq)]
pub enum ModelSpec {
    Id(String),
    Provider { provider: String, id: String },
}

/// The id of a model, whichever form names it.
pub open spec fn model_id(m: ModelSpec) -> Seq<char> {
    match m {
        ModelSpec::Id(s) => s@,
        ModelSpec::Provider { id, .. } => id@,
    }
}

/// The provider of a model, for the provider-bound form.
pub open spec fn model_provider(m: ModelSpec) -> Option<Seq<char>> {
    match m {
        ModelSpec::Id(_) => None,
        ModelSpec::Provider { provider, .. } => Some(provider@),
    }
}

impl ModelSpec {
    /// The model id, whichever form is used.
    pub fn id(&self) -> (r: &str)
        ensures
            r@ == model_id(*self),
    {
        match self {
            ModelSpec::Id(s) => s.as_str(),
            ModelSpec::Provider { id, .. } => id.as_str(),
        }
    }

    /// The named provider, when the provider-bound form is used.
    pub fn provider(&self) -> (r: Option<&str>)
        ensures
            match r {
                Some(p) => model_provider(*self) == Some(p@),
                None => model_provider(*self) is None,
            },
    {
        match self {
            ModelSpec::Id(_) => None,
            ModelSpec::Provider { provider, .. } => Some(provider.as_str()),
        }
    }

    /// A copy.
    pub fn copy(&self) -> (r: ModelSpec)
        ensures
            r == *self,
    {
        match self {
            ModelSpec::Id(s) => ModelSpec::Id(s.clone()),
            ModelSpec::Provider { provider, id } => ModelSpec::Provider { provider: provider.clone(), id: id.clone() },
        }
    }
}

/// The model entries of a config file; an absent entry leaves earlier
/// layers alone.
#[derive(Debug, Clone, PartialEq, Eq)]
pub struct ModelsConfig {
    pub small: Option<ModelSpec>,
    pub large: Option<ModelSpec>,
}

/// One config file: API keys per provider, model entries, and the optional
/// debug and mock flags (absent means "not supplied").
#[derive(Debug, Clone, PartialEq, Eq)]
pub struct ConfigFile {
    pub api_keys: Vec<(String, String)>,
    pub models: ModelsConfig,
    pub debug: Option<bool>,
    pub mock_llm: Option<bool>,
}

/// The map of a list of key/value pairs; a later pair wins.
pub open spec fn key_map(ps: Seq<(String, String)>) -> Map<Seq<char>, Seq<char>>
    decreases ps.len(),
{
    if ps.len() == 0 {
        Map::empty()
    } else {
        key_map(ps.drop_last()).insert(ps.last().0@, ps.last().1@)
    }
}

/// No two pairs share a key.
pub open spec fn unique_keys(ps: Seq<(String, String)>) -> bool {
    forall|i: int, j: int| 0 <= i < ps.len() && 0 <= j < ps.len() && i != j ==> (#[trigger] ps[i]).0@ != (
    #[trigger] ps[j]).0@
}

pub proof fn lemma_key_map_dom(ps: Seq<(String, String)>, k: Seq<char>)
    ensures
        key_map(ps).dom().contains(k) <==> exists|i: int| 0 <= i < ps.len() && (#[trigger] ps[i]).0@ == k,
    decreases ps.len(),
{
    if ps.len() > 0 {
        lemma_key_map_dom(ps.drop_last(), k);
        if exists|i: int| 0 <= i < ps.drop_last().len() && (#[trigger] ps.drop_last()[i]).0@ == k {
            let i = choose|i: int| 0 <= i < ps.drop_last().len() && (#[trigger] ps.drop_last()[i]).0@ == k;
            assert(ps[i] == ps.drop_last()[i]);
        }
        if exists|i: int| 0 <= i < ps.len() && (#[trigger] ps[i]).0@ == k {
            let i = choose|i: int| 0 <= i < ps.len() && (#[trigger] ps[i]).0@ == k;
            if i < ps.len() - 1 {
                assert(ps.drop_last()[i] == ps[i]);
            }
        }
    }
}

pub proof fn lemma_key_map_at(ps: Seq<(String, String)>, i: int)
    requires
        unique_keys(ps),
        0 <= i < ps.len(),
    ensures
        key_map(ps).dom().contains(ps[i].0@),
        key_map(ps)[ps[i].0@] == ps[i].1@,
    decreases ps.len(),
{
    if i < ps.len() - 1 {
        let qs = ps.drop_last();
        assert(unique_keys(qs)) by {
            assert forall|a: int, b: int| 0 <= a < qs.len() && 0 <= b < qs.len() && a != b implies (#[trigger] qs[a]).0@
                != (#[trigger] qs[b]).0@ by {
                assert(qs[a] == ps[a] && qs[b] == ps[b]);
            }
        }
        assert(qs[i] == ps[i]);
        lemma_key_map_at(qs, i);
        assert(ps.last().0@ != ps[i].0@);
    }
}

/// Sets `k` to `v` in a key list: replaces the pair with that key, or adds
/// one.
pub fn set_key(ps: &mut Vec<(String, String)>, k: &String, v: &String)
    requires
        unique_keys(old(ps)@),
    ensures
        unique_keys(final(ps)@),
        key_map(final(ps)@) == key_map(old(ps)@).insert(k@, v@),
{
    let ghost before = ps@;
    let mut i: usize = 0;
    let mut found: Option<usize> = None;
    while i < ps.len() && found.is_none()
        invariant
            i <= ps@.len(),
            ps@ == before,
            match found {
                Some(f) => f < ps@.len() && ps@[f as int].0@ == k@,
                None => forall|j: int| 0 <= j < i ==> (#[trigger] ps@[j]).0@ != k@,
            },
        decreases ps@.len() - i + if found is None { 1int } else { 0int },
    {
        if crate::text::str_eq(ps[i].0.as_str(), k.as_str()) {
            found = Some(i);
        } else {
            i = i + 1;
        }
    }
    match found {
        Some(i) => {
            ps.set(i, (k.clone(), v.clone()));
            proof {
                let after = ps@;
                assert(unique_keys(after)) by {
                    assert forall|a: int, b: int| 0 <= a < after.len() && 0 <= b < after.len() && a != b implies (
                    #[trigger] after[a]).0@ != (#[trigger] after[b]).0@ by {
                        assert(after[a].0@ == before[a].0@ && after[b].0@ == before[b].0@);
                    }
                }
                assert forall|x: Seq<char>| #[trigger] key_map(after).dom().contains(x) <==> key_map(before).insert(
                    k@,
                    v@,
                ).dom().contains(x) by {
                    lemma_key_map_dom(after, x);
                    lemma_key_map_dom(before, x);
                    if exists|a: int| 0 <= a < before.len() && (#[trigger] before[a]).0@ == x {
                        let a = choose|a: int| 0 <= a < before.len() && (#[trigger] before[a]).0@ == x;
                        assert(after[a].0@ == x);
                    }
                    if exists|a: int| 0 <= a < after.len() && (#[trigger] after[a]).0@ == x {
                        let a = choose|a: int| 0 <= a < after.len() && (#[trigger] after[a]).0@ == x;
                        assert(before[a].0@ == x);
                    }
                }
                assert forall|x: Seq<char>| #[trigger] key_map(after).dom().contains(x) implies key_map(after)[x]
                    == key_map(before).insert(k@, v@)[x] by {
                    lemma_key_map_dom(after, x);
                    let a = choose|a: int| 0 <= a < after.len() && (#[trigger] after[a]).0@ == x;
                    lemma_key_map_at(after, a);
                    if a != i {
                        lemma_key_map_at(before, a);
                        assert(before[a] == after[a]);
                    }
                }
                assert(key_map(after) =~= key_map(before).insert(k@, v@));
            }
        },
        None => {
            ps.push((k.clone(), v.clone()));
            proof {
                let after = ps@;
                assert(after.drop_last() =~= before);
                assert(unique_keys(after)) by {
                    assert forall|a: int, b: int| 0 <= a < after.len() && 0 <= b < after.len() && a != b implies (
                    #[trigger] after[a]).0@ != (#[trigger] after[b]).0@ by {
                        if a < before.len() {
                            assert(after[a] == before[a]);
                        }
                        if b < before.len() {
                            assert(after[b] == before[b]);
                        }
                    }
                }
            }
        },
    }
}

/// The merged configuration: API keys per provider (never shown to the
/// frontend), the two model slots, which layers loaded, the collected load
/// error, and the debug and mock flags.
#[derive(Debug, Clone, PartialEq, Eq)]
pub struct MergedConfig {
    pub api_keys: Vec<(String, String)>,
    pub small: Option<ModelSpec>,
    pub large: Option<ModelSpec>,
    pub global_loaded: bool,
    pub project_loaded: bool,
    pub project_path: Option<String>,
    pub error: Option<String>,
    pub debug: bool,
    pub mock_llm: bool,
}

impl MergedConfig {
    /// Each provider has at most one key.
    pub open spec fn wf(&self) -> bool {
        unique_keys(self.api_keys@)
    }

    /// The API keys by provider.
    pub open spec fn keys(&self) -> Map<Seq<char>, Seq<char>> {
        key_map(self.api_keys@)
    }
}

impl Default for MergedConfig {
    /// No keys, no models, nothing loaded, no error; debug on and the mock
    /// provider on, so a fresh install works without API keys.
    fn default() -> (r: MergedConfig)
        ensures
            r.api_keys@.len() == 0,
            r.small is None,
            r.large is None,
            !r.global_loaded,
            !r.project_loaded,
            r.project_path is None,
            r.error is None,
            r.debug,
            r.mock_llm,
    {
        MergedConfig {
            api_keys: Vec::new(),
            small: None,
            large: None,
            global_loaded: false,
            project_loaded: false,
            project_path: None,
            error: None,
            debug: true,
            mock_llm: true,
        }
    }
}

/// The providers whose key is set and not empty.
pub open spec fn configured_set(keys: Map<Seq<char>, Seq<char>>) -> Set<Seq<char>> {
    Set::new(|p: Seq<char>| keys.dom().contains(p) && keys[p].len() > 0)
}

/// The frontend-safe view of the merged configuration: no API key values.
#[derive(Debug, Clone, PartialEq, Eq)]
pub struct ConfigStatus {
    pub global_loaded: bool,
    pub project_loaded: bool,
    pub project_path: Option<String>,
    pub small_model: String,
    pub large_model: String,
    pub small_provider: Option<String>,
    pub large_provider: Option<String>,
    pub configured_providers: Vec<String>,
    pub error: Option<String>,
    pub debug: bool,
    pub mock_llm: bool,
}

/// The id of an optional model slot; an unset slot has the empty id.
pub open spec fn slot_id(m: Option<ModelSpec>) -> Seq<char> {
    match m {
        Some(s) => model_id(s),
        None => Seq::empty(),
    }
}

/// The provider of an optional model slot.
pub open spec fn slot_provider(m: Option<ModelSpec>) -> Option<Seq<char>> {
    match m {
        Some(s) => model_provider(s),
        None => None,
    }
}

/// `st` is the status view of `m`: the flags and paths carried over, the
/// resolved model ids and providers, and the sorted configured providers.
pub open spec fn is_status_of(st: ConfigStatus, m: MergedConfig) -> bool {
    &&& st.global_loaded == m.global_loaded
    &&& st.project_loaded == m.project_loaded
    &&& opt_view(st.project_path) == opt_view(m.project_path)
    &&& st.small_model@ == slot_id(m.small)
    &&& st.large_model@ == slot_id(m.large)
    &&& opt_view(st.small_provider) == slot_provider(m.small)
    &&& opt_view(st.large_provider) == slot_provider(m.large)
    &&& views(st.configured_providers@) == sorted_of(configured_set(m.keys()))
    &&& opt_view(st.error) == opt_view(m.error)
    &&& st.debug == m.debug
    &&& st.mock_llm == m.mock_llm
}

fn copy_opt_string(s: &Option<String>) -> (r: Option<String>)
    ensures
        opt_view(r) == opt_view(*s),
{
    match s {
        Some(x) => Some(x.clone()),
        None => None,
    }
}

fn slot_id_of(m: &Option<ModelSpec>) -> (r: String)
    ensures
        r@ == slot_id(*m),
{
    match m {
        Some(s) => s.id().to_owned(),
        None => String::new(),
    }
}

fn slot_provider_of(m: &Option<ModelSpec>) -> (r: Option<String>)
    ensures
        opt_view(r) == slot_provider(*m),
{
    match m {
        Some(s) => match s.provider() {
            Some(p) => Some(p.to_owned()),
            None => None,
        },
        None => None,
    }
}

impl ConfigStatus {
    /// The status view of a merged configuration.
    pub fn from(m: &MergedConfig) -> (r: ConfigStatus)
        requires
            m.wf(),
        ensures
            is_status_of(r, *m),
            views(r.configured_providers@).to_set() == configured_set(m.keys()),
    {
        let mut names: Vec<String> = Vec::new();
        let mut i: usize = 0;
        while i < m.api_keys.len()
            invariant
                i <= m.api_keys@.len(),
                m.wf(),
                forall|p: Seq<char>| #[trigger] views(names@).to_set().contains(p) <==> exists|j: int|
                    0 <= j < i && (#[trigger] m.api_keys@[j]).0@ == p && m.api_keys@[j].1@.len() > 0,
            decreases m.api_keys@.len() - i,
        {
            let ghost before = names@;
            if !crate::text::is_empty_str(m.api_keys[i].1.as_str()) {
                names.push(m.api_keys[i].0.clone());
                proof {
                    crate::text::lemma_views_push(before, m.api_keys@[i as int].0);
                    crate::text::lemma_push_to_set(views(before), m.api_keys@[i as int].0@);
                }
            }
            i = i + 1;
        }
        let sorted = sort_dedup(&names);
        proof {
            assert forall|p: Seq<char>| #[trigger] views(names@).to_set().contains(p) <==> configured_set(m.keys()).contains(p) by {
                crate::config::model::lemma_key_map_dom(m.api_keys@, p);
                if exists|j: int| 0 <= j < m.api_keys@.len() && (#[trigger] m.api_keys@[j]).0@ == p {
                    let j = choose|j: int| 0 <= j < m.api_keys@.len() && (#[trigger] m.api_keys@[j]).0@ == p;
                    lemma_key_map_at(m.api_keys@, j);
                }
            }
            assert(views(names@).to_set() =~= configured_set(m.keys()));
            crate::text::lemma_is_sorted_of(views(sorted@), configured_set(m.keys()));
        }
        ConfigStatus {
            global_loaded: m.global_loaded,
            project_loaded: m.project_loaded,
            project_path: copy_opt_string(&m.project_path),
            small_model: slot_id_of(&m.small),
            large_model: slot_id_of(&m.large),
            small_provider: slot_provider_of(&m.small),
            large_provider: slot_provider_of(&m.large),
            configured_providers: sorted,
            error: copy_opt_string(&m.error),
            debug: m.debug,
            mock_llm: m.mock_llm,
        }
    }
}

} // verus!
