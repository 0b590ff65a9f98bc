//! The catalog of model-listing endpoints: for each supported provider its
//! URL, how it takes the API key, and where model ids sit in its answer;
//! and the shaping of a fetched answer into a sorted list of model ids.

use vstd::prelude::*;

use crate::llm::json::{json_of, listed_strings, parse_json, strings_in_list, JsonValue};
use crate::text::{concat, sort_dedup, str_eq, strictly_sorted, strip_prefix_of, strip_prefix_str, views};

verus! {

/// How a provider expects its API key on the request.
#[derive(Debug, Clone, Copy, PartialEq, Eq)]
pub enum AuthStyle {
    /// `Authorization: Bearer <key>`.
    BearerHeader,
    /// `x-api-key: <key>` plus a fixed version header.
    ApiKeyHeader { version_header: &'static str },
    /// The key as a query parameter of the URL.
    QueryKey { param: &'static str },
}

/// Where model ids live in the provider's JSON answer.
#[derive(Debug, Clone, Copy, PartialEq, Eq)]
pub enum IdPath {
    /// `data[].id`.
    OpenAi,
    /// `models[].name`, with a leading `models/` removed.
    Gemini,
}

/// One provider's model-listing endpoint.
#[derive(Debug, Clone, Copy, PartialEq, Eq)]
pub struct ProviderSpec {
    pub models_url: &'static str,
    pub auth: AuthStyle,
    pub id_path: IdPath,
}

/// The providers the catalog knows.
pub open spec fn known_provider(p: Seq<char>) -> bool {
    p == "openai"@ || p == "anthropic"@ || p == "openrouter"@ || p == "gemini"@ || p == "deepseek"@
}

/// `s` is the catalog entry of provider `p`.
pub open spec fn is_catalog_entry(p: Seq<char>, s: ProviderSpec) -> bool {
    if p == "openai"@ {
        &&& s.models_url@ == "https://api.openai.com/v1/models"@
        &&& s.auth is BearerHeader
        &&& s.id_path is OpenAi
    } else if p == "anthropic"@ {
        &&& s.models_url@ == "https://api.anthropic.com/v1/models"@
        &&& s.auth matches AuthStyle::ApiKeyHeader { version_header } && version_header@ == "2023-06-01"@
        &&& s.id_path is OpenAi
    } else if p == "openrouter"@ {
        &&& s.models_url@ == "https://openrouter.ai/api/v1/models"@
        &&& s.auth is BearerHeader
        &&& s.id_path is OpenAi
    } else if p == "gemini"@ {
        &&& s.models_url@ == "https://generativelanguage.googleapis.com/v1beta/models"@
        &&& s.auth matches AuthStyle::QueryKey { param } && param@ == "key"@
        &&& s.id_path is Gemini
    } else if p == "deepseek"@ {
        &&& s.models_url@ == "https://api.deepseek.com/models"@
        &&& s.auth is BearerHeader
        &&& s.id_path is OpenAi
    } else {
        false
    }
}

/// The catalog entry of a provider; `None` for a provider the catalog does
/// not know, so that validation never guesses an endpoint.
pub fn spec_for(provider: &str) -> (r: Option<ProviderSpec>)
    ensures
        match r {
            Some(s) => is_catalog_entry(provider@, s),
            None => !known_provider(provider@),
        },
{
    if str_eq(provider, "openai") {
        Some(
            ProviderSpec {
                models_url: "https://api.openai.com/v1/models",
                auth: AuthStyle::BearerHeader,
                id_path: IdPath::OpenAi,
            },
        )
    } else if str_eq(provider, "anthropic") {
        Some(
            ProviderSpec {
                models_url: "https://api.anthropic.com/v1/models",
                auth: AuthStyle::ApiKeyHeader { version_header: "2023-06-01" },
                id_path: IdPath::OpenAi,
            },
        )
    } else if str_eq(provider, "openrouter") {
        Some(
            ProviderSpec {
                models_url: "https://openrouter.ai/api/v1/models",
                auth: AuthStyle::BearerHeader,
                id_path: IdPath::OpenAi,
            },
        )
    } else if str_eq(provider, "gemini") {
        Some(
            ProviderSpec {
                models_url: "https://generativelanguage.googleapis.com/v1beta/models",
                auth: AuthStyle::QueryKey { param: "key" },
                id_path: IdPath::Gemini,
            },
        )
    } else if str_eq(provider, "deepseek") {
        Some(
            ProviderSpec {
                models_url: "https://api.deepseek.com/models",
                auth: AuthStyle::BearerHeader,
                id_path: IdPath::OpenAi,
            },
        )
    } else {
        None
    }
}

/// The key of an answer's list and the field of each item that names a
/// model.
pub open spec fn path_keys(path: IdPath) -> (Seq<char>, Seq<char>) {
    match path {
        IdPath::OpenAi => ("data"@, "id"@),
        IdPath::Gemini => ("models"@, "name"@),
    }
}

impl IdPath {
    /// The key of the answer's list and the field of each item that names
    /// a model.
    pub fn keys(&self) -> (r: (&'static str, &'static str))
        ensures
            (r.0@, r.1@) == path_keys(*self),
    {
        match self {
            IdPath::OpenAi => ("data", "id"),
            IdPath::Gemini => ("models", "name"),
        }
    }
}

/// The model id a listed name stands for under an id path.
pub open spec fn id_of_name(path: IdPath, name: Seq<char>) -> Seq<char> {
    match path {
        IdPath::OpenAi => name,
        IdPath::Gemini => strip_prefix_of(name, "models/"@),
    }
}

/// The model ids of a provider's answer, given the string values found at
/// its items' id field: mapped through the id path, sorted, each once.
pub fn model_ids(path: IdPath, names: &[String]) -> (r: Vec<String>)
    ensures
        strictly_sorted(views(r@)),
        views(r@).to_set() == views(names@).map_values(|n: Seq<char>| id_of_name(path, n)).to_set(),
{
    let mut ids: Vec<String> = Vec::new();
    let mut i: usize = 0;
    while i < names.len()
        invariant
            i <= names@.len(),
            views(ids@) == views(names@).take(i as int).map_values(|n: Seq<char>| id_of_name(path, n)),
        decreases names@.len() - i,
    {
        let id = match path {
            IdPath::OpenAi => names[i].clone(),
            IdPath::Gemini => strip_prefix_str(names[i].as_str(), "models/"),
        };
        proof {
            crate::text::lemma_views_push(ids@, id);
            assert(views(names@).take(i + 1) =~= views(names@).take(i as int).push(names@[i as int]@));
        }
        ids.push(id);
        i = i + 1;
        assert(views(ids@) =~= views(names@).take(i as int).map_values(|n: Seq<char>| id_of_name(path, n)));
    }
    assert(views(names@).take(i as int) =~= views(names@));
    sort_dedup(&ids)
}

/// The model ids of a provider's parsed answer: the strings at its id path,
/// mapped through it, sorted, each once.
pub open spec fn answer_ids(path: IdPath, v: JsonValue) -> Set<Seq<char>> {
    listed_strings(v, path_keys(path).0, path_keys(path).1).map_values(|n: Seq<char>| id_of_name(path, n)).to_set()
}

/// The model ids of a provider's parsed answer.
pub fn models_from_json(path: IdPath, v: &JsonValue) -> (r: Vec<String>)
    ensures
        strictly_sorted(views(r@)),
        views(r@).to_set() == answer_ids(path, *v),
{
    let (list, field) = path.keys();
    let names = strings_in_list(v, list, field);
    model_ids(path, names.as_slice())
}

/// The model ids of a provider's answer body; an error naming the provider
/// when the body is not JSON.
pub fn models_from_body(provider: &str, path: IdPath, body: &str) -> (r: Result<Vec<String>, String>)
    ensures
        match json_of(body@) {
            None => r matches Err(e) && e@ == "provider "@ + provider@ + ": "@ + "invalid JSON response"@,
            Some(v) => r matches Ok(ids) && strictly_sorted(views(ids@)) && views(ids@).to_set() == answer_ids(path, v),
        },
{
    match parse_json(body) {
        None => Err(fetch_failure(provider, "invalid JSON response")),
        Some(v) => Ok(models_from_json(path, &v)),
    }
}

/// The error of a failed fetch: the provider and a reason that carries no
/// key, URL or body text.
pub fn fetch_failure(provider: &str, reason: &str) -> (r: String)
    ensures
        r@ == "provider "@ + provider@ + ": "@ + reason@,
{
    let a = concat("provider ", provider);
    let b = concat(a.as_str(), ": ");
    concat(b.as_str(), reason)
}

/// The catalog entry a fetch starts from; for a provider the catalog does
/// not know, the error that names it, before any request is made.
pub fn provider_to_fetch(provider: &str) -> (r: Result<ProviderSpec, String>)
    ensures
        match r {
            Ok(s) => is_catalog_entry(provider@, s),
            Err(e) => !known_provider(provider@) && e@ == "unknown provider: "@ + provider@,
        },
        known_provider(provider@) <==> r is Ok,
{
    match spec_for(provider) {
        Some(s) => Ok(s),
        None => Err(concat("unknown provider: ", provider)),
    }
}

} // verus!
