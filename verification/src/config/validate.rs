//! Model validation: the messages for configured models checked against the
//! model lists providers offer, and the decision of `validate_models` once
//! the caller has fetched those lists.

use vstd::prelude::*;

use crate::config::model::{
    configured_set, is_status_of, key_map, model_id, unique_keys, ConfigStatus, MergedConfig, ModelSpec,
};
use crate::text::{concat, join, seq_join, sort_dedup, sorted_of, str_eq, strictly_sorted, views};

verus! {

/// The listing of a model list: its distinct ids sorted and joined with
/// ", ", or "(none)" when it is empty.
pub open spec fn listing(avail: Seq<Seq<char>>) -> Seq<char> {
    if sorted_of(avail.to_set()).len() == 0 {
        "(none)"@
    } else {
        seq_join(sorted_of(avail.to_set()), ", "@)
    }
}

/// The sorted listing of a model list, and the sorted distinct ids.
fn listing_of(available: &[String]) -> (r: (String, Vec<String>))
    ensures
        r.0@ == listing(views(available@)),
        views(r.1@) == sorted_of(views(available@).to_set()),
        views(r.1@).to_set() == views(available@).to_set(),
{
    let sorted = sort_dedup(available);
    proof {
        crate::text::lemma_is_sorted_of(views(sorted@), views(available@).to_set());
    }
    if sorted.len() == 0 {
        ("(none)".to_owned(), sorted)
    } else {
        (join(&sorted, ", "), sorted)
    }
}

/// Whether a list holds a string.
fn list_has(items: &Vec<String>, w: &str) -> (r: bool)
    ensures
        r == views(items@).contains(w@),
{
    let mut i: usize = 0;
    while i < items.len()
        invariant
            i <= items@.len(),
            forall|j: int| 0 <= j < i ==> (#[trigger] views(items@)[j]) != w@,
        decreases items@.len() - i,
    {
        if str_eq(items[i].as_str(), w) {
            assert(views(items@)[i as int] == w@);
            return true;
        }
        i = i + 1;
    }
    false
}

/// The message for one model slot checked against a model list: a missing
/// model, an unknown model with the listing, or nothing.
pub open spec fn slot_messages(slot: Seq<char>, model: Seq<char>, avail: Seq<Seq<char>>) -> Seq<Seq<char>> {
    if model.len() == 0 {
        seq!["No "@ + slot + " model configured"@]
    } else if !avail.to_set().contains(model) {
        seq!["Invalid model "@ + model + ". Available models: "@ + listing(avail)]
    } else {
        Seq::empty()
    }
}

/// Appends the message for one slot to `messages`.
fn push_slot_message(messages: &mut Vec<String>, slot: &str, model: &str, sorted: &Vec<String>, list: &String)
    requires
        list@ == listing(views(sorted@)),
    ensures
        views(final(messages)@) == views(old(messages)@) + slot_messages(slot@, model@, views(sorted@)),
{
    let ghost before = views(messages@);
    if crate::text::is_empty_str(model) {
        let a = concat("No ", slot);
        let m = concat(a.as_str(), " model configured");
        proof { crate::text::lemma_views_push(messages@, m); }
        messages.push(m);
    } else if !list_has(sorted, model) {
        assert(!views(sorted@).to_set().contains(model@));
        let a = concat("Invalid model ", model);
        let b = concat(a.as_str(), ". Available models: ");
        let m = concat(b.as_str(), list.as_str());
        proof { crate::text::lemma_views_push(messages@, m); }
        messages.push(m);
    } else {
        assert(views(sorted@).to_set().contains(model@));
    }
    assert(views(messages@) =~= before + slot_messages(slot@, model@, views(sorted@)));
}

/// Validates two configured model ids against a model list: one message
/// per problem, none when both are offered.
pub fn validate_model_strings(small: &str, large: &str, available: &[String]) -> (r: Vec<String>)
    ensures
        views(r@) == slot_messages("small"@, small@, views(available@)) + slot_messages(
            "large"@,
            large@,
            views(available@),
        ),
{
    let (list, sorted) = listing_of(available);
    let mut messages: Vec<String> = Vec::new();
    push_slot_message(&mut messages, "small", small, &sorted, &list);
    push_slot_message(&mut messages, "large", large, &sorted, &list);
    assert(views(messages@) =~= slot_messages("small"@, small@, views(sorted@)) + slot_messages(
        "large"@,
        large@,
        views(sorted@),
    ));
    messages
}

/// The messages for one provider-bound model: none when the provider offers
/// the id, the listing when it does not, and a safe note when the list could
/// not be fetched.
pub open spec fn structured_messages(provider: Seq<char>, id: Seq<char>, avail: Option<Seq<Seq<char>>>) -> Seq<Seq<char>> {
    match avail {
        None => seq!["could not check model "@ + id + ": provider "@ + provider + " did not respond"@],
        Some(list) => if list.to_set().contains(id) {
            Seq::empty()
        } else {
            seq!["Invalid model "@ + id + " for provider "@ + provider + ". Available models: "@ + listing(list)]
        },
    }
}

/// Validates one provider-bound model against its provider's model list
/// (`None` when the list could not be fetched).
pub fn validate_structured_model(_slot: &str, provider: &str, id: &str, available: Option<&[String]>) -> (r: Vec<String>)
    ensures
        views(r@) == structured_messages(provider@, id@, match available {
            Some(l) => Some(views(l@)),
            None => None,
        }),
{
    let mut messages: Vec<String> = Vec::new();
    match available {
        None => {
            let a = concat("could not check model ", id);
            let b = concat(a.as_str(), ": provider ");
            let c = concat(b.as_str(), provider);
            messages.push(concat(c.as_str(), " did not respond"));
        },
        Some(list) => {
            let (listing_text, sorted) = listing_of(list);
            proof {
                assert forall|x: Seq<char>| views(sorted@).contains(x) <==> views(list@).to_set().contains(x) by {
                    assert(views(sorted@).to_set().contains(x) <==> views(sorted@).contains(x));
                }
            }
            if !list_has(&sorted, id) {
                let a = concat("Invalid model ", id);
                let b = concat(a.as_str(), " for provider ");
                let c = concat(b.as_str(), provider);
                let d = concat(c.as_str(), ". Available models: ");
                messages.push(concat(d.as_str(), listing_text.as_str()));
            }
        },
    }
    assert(views(messages@) =~= structured_messages(provider@, id@, match available {
        Some(l) => Some(views(l@)),
        None => None,
    }));
    messages
}

/// The message for a provider-bound model whose provider has no API key.
pub open spec fn unconfigured_message(slot: Seq<char>, provider: Seq<char>) -> Seq<char> {
    "provider "@ + provider + " has no API key configured for the "@ + slot + " model"@
}

/// The message for a provider-bound model whose provider has no API key,
/// labelled with the slot.
pub fn unconfigured_provider_message(slot: &str, provider: &str) -> (r: String)
    ensures
        r@ == unconfigured_message(slot@, provider@),
{
    let a = concat("provider ", provider);
    let b = concat(a.as_str(), " has no API key configured for the ");
    let c = concat(b.as_str(), slot);
    concat(c.as_str(), " model")
}

} // verus!

verus! {

/// What was fetched for one provider: its model ids, or why the fetch failed.
pub open spec fn fetch_view(r: Result<Vec<String>, String>) -> Result<Seq<Seq<char>>, Seq<char>> {
    match r {
        Ok(l) => Ok(views(l@)),
        Err(e) => Err(e@),
    }
}

/// The first fetch outcome recorded for a provider, if any.
pub open spec fn fetch_of(f: Seq<(String, Result<Vec<String>, String>)>, p: Seq<char>) -> Option<
    Result<Seq<Seq<char>>, Seq<char>>,
>
    decreases f.len(),
{
    if f.len() == 0 {
        None
    } else if f[0].0@ == p {
        Some(fetch_view(f[0].1))
    } else {
        fetch_of(f.drop_first(), p)
    }
}

/// The model list a fetch outcome offers: none when the fetch failed or
/// was not made.
pub open spec fn offered(o: Option<Result<Seq<Seq<char>>, Seq<char>>>) -> Option<Seq<Seq<char>>> {
    match o {
        Some(Ok(l)) => Some(l),
        _ => None,
    }
}

/// Finds the fetch outcome recorded for a provider.
fn find_fetch<'a>(fetched: &'a [(String, Result<Vec<String>, String>)], p: &str) -> (r: Option<
    &'a Result<Vec<String>, String>,
>)
    ensures
        match r {
            Some(x) => fetch_of(fetched@, p@) == Some(fetch_view(*x)),
            None => fetch_of(fetched@, p@) is None,
        },
{
    let mut i: usize = 0;
    assert(fetched@.subrange(0, fetched@.len() as int) =~= fetched@);
    while i < fetched.len()
        invariant
            i <= fetched@.len(),
            fetch_of(fetched@, p@) == fetch_of(fetched@.subrange(i as int, fetched@.len() as int), p@),
        decreases fetched@.len() - i,
    {
        let ghost rest = fetched@.subrange(i as int, fetched@.len() as int);
        assert(rest[0] == fetched@[i as int]);
        if crate::text::str_eq(fetched[i].0.as_str(), p) {
            return Some(&fetched[i].1);
        }
        assert(rest.drop_first() =~= fetched@.subrange(i + 1, fetched@.len() as int));
        i = i + 1;
    }
    assert(fetched@.subrange(i as int, fetched@.len() as int).len() == 0);
    None
}

/// Whether a provider has a non-empty API key.
fn has_configured_key(m: &MergedConfig, p: &str) -> (r: bool)
    requires
        m.wf(),
    ensures
        r == configured_set(m.keys()).contains(p@),
{
    let mut i: usize = 0;
    while i < m.api_keys.len()
        invariant
            i <= m.api_keys@.len(),
            m.wf(),
            forall|j: int| 0 <= j < i ==> (#[trigger] m.api_keys@[j]).0@ != p@,
        decreases m.api_keys@.len() - i,
    {
        if crate::text::str_eq(m.api_keys[i].0.as_str(), p) {
            proof {
                crate::config::model::lemma_key_map_at(m.api_keys@, i as int);
            }
            return !crate::text::is_empty_str(m.api_keys[i].1.as_str());
        }
        i = i + 1;
    }
    proof {
        crate::config::model::lemma_key_map_dom(m.api_keys@, p@);
    }
    false
}

/// A slot holds a provider-bound model with a non-empty id.
pub open spec fn is_entry(m: Option<ModelSpec>) -> bool {
    match m {
        Some(ModelSpec::Provider { id, .. }) => id@.len() > 0,
        _ => false,
    }
}

/// A slot holds the provider-bound form.
pub open spec fn is_provider_form(m: Option<ModelSpec>) -> bool {
    match m {
        Some(ModelSpec::Provider { .. }) => true,
        _ => false,
    }
}

/// The legacy plain id of a slot; empty for the other forms and unset slots.
pub open spec fn legacy_id(m: Option<ModelSpec>) -> Seq<char> {
    match m {
        Some(ModelSpec::Id(s)) => s@,
        _ => Seq::empty(),
    }
}

/// The messages for one slot's provider-bound entry: the missing key, or the
/// check against that provider's fetched list.
pub open spec fn entry_messages(
    keys: Map<Seq<char>, Seq<char>>,
    f: Seq<(String, Result<Vec<String>, String>)>,
    slot: Seq<char>,
    m: Option<ModelSpec>,
) -> Seq<Seq<char>> {
    match m {
        Some(ModelSpec::Provider { provider, id }) => if id@.len() == 0 {
            Seq::empty()
        } else if !configured_set(keys).contains(provider@) {
            seq![unconfigured_message(slot, provider@)]
        } else {
            structured_messages(provider@, id@, offered(fetch_of(f, provider@)))
        },
        _ => Seq::empty(),
    }
}

/// The union of the model lists fetched for the given providers, in order.
pub open spec fn union_of(f: Seq<(String, Result<Vec<String>, String>)>, ps: Seq<Seq<char>>) -> Seq<Seq<char>>
    decreases ps.len(),
{
    if ps.len() == 0 {
        Seq::empty()
    } else {
        union_of(f, ps.drop_last()) + match offered(fetch_of(f, ps.last())) {
            Some(l) => l,
            None => Seq::empty(),
        }
    }
}

/// How many of the given providers answered with a model list.
pub open spec fn successes(f: Seq<(String, Result<Vec<String>, String>)>, ps: Seq<Seq<char>>) -> nat
    decreases ps.len(),
{
    if ps.len() == 0 {
        0
    } else {
        successes(f, ps.drop_last()) + if offered(fetch_of(f, ps.last())) is Some {
            1nat
        } else {
            0nat
        }
    }
}

/// The reason recorded for a provider that has no model list.
pub open spec fn failure_reason(o: Option<Result<Seq<Seq<char>>, Seq<char>>>) -> Seq<char> {
    match o {
        Some(Err(e)) => e,
        _ => NOT_FETCHED@,
    }
}

/// One line per provider that has no model list, in order.
pub open spec fn failures(f: Seq<(String, Result<Vec<String>, String>)>, ps: Seq<Seq<char>>) -> Seq<Seq<char>>
    decreases ps.len(),
{
    if ps.len() == 0 {
        Seq::empty()
    } else {
        failures(f, ps.drop_last()) + if offered(fetch_of(f, ps.last())) is Some {
            Seq::<Seq<char>>::empty()
        } else {
            seq!["provider "@ + ps.last() + ": "@ + failure_reason(fetch_of(f, ps.last()))]
        }
    }
}

/// The error when no configured provider answered.
pub open spec fn all_failed_message(fs: Seq<Seq<char>>) -> Seq<char> {
    if fs.len() == 0 {
        ALL_FAILED@
    } else {
        ALL_FAILED@ + "; "@ + seq_join(fs, "; "@)
    }
}

/// The legacy checks against the union: a provider-bound slot is never
/// reported here.
pub open spec fn legacy_messages(m: MergedConfig, union: Seq<Seq<char>>) -> Seq<Seq<char>> {
    (if is_provider_form(m.small) {
        Seq::empty()
    } else {
        slot_messages("small"@, legacy_id(m.small), union)
    }) + (if is_provider_form(m.large) {
        Seq::empty()
    } else {
        slot_messages("large"@, legacy_id(m.large), union)
    })
}

/// The outcome of model validation for a configuration, given what was
/// fetched for each provider: `Ok` when the models are valid, else the
/// user-facing error.
pub open spec fn validation_outcome(m: MergedConfig, f: Seq<(String, Result<Vec<String>, String>)>) -> Result<
    (),
    Seq<char>,
> {
    if m.mock_llm {
        Ok(())
    } else {
        let structured = entry_messages(m.keys(), f, "small"@, m.small) + entry_messages(m.keys(), f, "large"@, m.large);
        let configured = sorted_of(configured_set(m.keys()));
        let union_needed = legacy_id(m.small).len() > 0 || legacy_id(m.large).len() > 0;
        if configured.len() == 0 && !is_entry(m.small) && !is_entry(m.large) {
            Err(NO_PROVIDERS@)
        } else if union_needed && configured.len() > 0 && successes(f, configured) == 0 {
            Err(all_failed_message(failures(f, configured)))
        } else {
            let legacy = if union_needed && configured.len() > 0 {
                legacy_messages(m, union_of(f, configured))
            } else {
                Seq::empty()
            };
            let all = structured + legacy;
            if all.len() == 0 {
                Ok(())
            } else {
                Err(seq_join(all, "; "@))
            }
        }
    }
}

/// Appends the messages of one slot's provider-bound entry.
fn push_entry_messages(
    messages: &mut Vec<String>,
    m: &MergedConfig,
    fetched: &[(String, Result<Vec<String>, String>)],
    slot: &str,
    spec: &Option<ModelSpec>,
)
    requires
        m.wf(),
    ensures
        views(final(messages)@) == views(old(messages)@) + entry_messages(m.keys(), fetched@, slot@, *spec),
{
    let ghost before = views(messages@);
    match spec {
        Some(ModelSpec::Provider { provider, id }) => {
            if crate::text::is_empty_str(id.as_str()) {
                assert(views(messages@) =~= before + entry_messages(m.keys(), fetched@, slot@, *spec));
                return;
            }
            if !has_configured_key(m, provider.as_str()) {
                let msg = unconfigured_provider_message(slot, provider.as_str());
                proof {
                    crate::text::lemma_views_push(messages@, msg);
                }
                messages.push(msg);
                assert(views(messages@) =~= before + entry_messages(m.keys(), fetched@, slot@, *spec));
                return;
            }
            let found = find_fetch(fetched, provider.as_str());
            let more = match found {
                Some(Ok(list)) => validate_structured_model(slot, provider.as_str(), id.as_str(), Some(list.as_slice())),
                _ => validate_structured_model(slot, provider.as_str(), id.as_str(), None),
            };
            let ghost mid = messages@;
            let mut k: usize = 0;
            while k < more.len()
                invariant
                    k <= more@.len(),
                    views(messages@) == views(mid) + views(more@).take(k as int),
                decreases more@.len() - k,
            {
                proof {
                    crate::text::lemma_views_push(messages@, more@[k as int]);
                    assert(views(more@).take(k + 1) =~= views(more@).take(k as int).push(more@[k as int]@));
                }
                messages.push(more[k].clone());
                k = k + 1;
            }
            assert(views(more@).take(k as int) =~= views(more@));
            assert(views(messages@) =~= before + entry_messages(m.keys(), fetched@, slot@, *spec));
        },
        _ => {
            assert(views(messages@) =~= before + entry_messages(m.keys(), fetched@, slot@, *spec));
        },
    }
}

/// The union of the model lists fetched for the configured providers, how
/// many answered, and a line for each that did not.
fn collect_union(
    fetched: &[(String, Result<Vec<String>, String>)],
    providers: &Vec<String>,
) -> (r: (Vec<String>, usize, Vec<String>))
    ensures
        views(r.0@) == union_of(fetched@, views(providers@)),
        r.1 == successes(fetched@, views(providers@)),
        views(r.2@) == failures(fetched@, views(providers@)),
{
    let mut union: Vec<String> = Vec::new();
    let mut count: usize = 0;
    let mut failed: Vec<String> = Vec::new();
    let mut i: usize = 0;
    while i < providers.len()
        invariant
            i <= providers@.len(),
            views(union@) == union_of(fetched@, views(providers@).take(i as int)),
            count == successes(fetched@, views(providers@).take(i as int)),
            count <= i,
            views(failed@) == failures(fetched@, views(providers@).take(i as int)),
        decreases providers@.len() - i,
    {
        let ghost ps = views(providers@).take(i as int + 1);
        proof {
            assert(ps.drop_last() =~= views(providers@).take(i as int));
            assert(ps.last() == providers@[i as int]@);
        }
        let p = providers[i].as_str();
        match find_fetch(fetched, p) {
            Some(Ok(list)) => {
                let ghost u0 = union@;
                let mut k: usize = 0;
                while k < list.len()
                    invariant
                        k <= list@.len(),
                        views(union@) == views(u0) + views(list@).take(k as int),
                    decreases list@.len() - k,
                {
                    proof {
                        crate::text::lemma_views_push(union@, list@[k as int]);
                        assert(views(list@).take(k + 1) =~= views(list@).take(k as int).push(list@[k as int]@));
                    }
                    union.push(list[k].clone());
                    k = k + 1;
                }
                assert(views(list@).take(k as int) =~= views(list@));
                count = count + 1;
                assert(failures(fetched@, ps) =~= failures(fetched@, ps.drop_last()));
            },
            Some(Err(e)) => {
                let a = concat("provider ", p);
                let b = concat(a.as_str(), ": ");
                let line = concat(b.as_str(), e.as_str());
                proof {
                    crate::text::lemma_views_push(failed@, line);
                }
                failed.push(line);
                assert(union_of(fetched@, ps) =~= union_of(fetched@, ps.drop_last()));
            },
            None => {
                let a = concat("provider ", p);
                let b = concat(a.as_str(), ": ");
                let line = concat(b.as_str(), NOT_FETCHED);
                proof {
                    crate::text::lemma_views_push(failed@, line);
                }
                failed.push(line);
                assert(union_of(fetched@, ps) =~= union_of(fetched@, ps.drop_last()));
            },
        }
        i = i + 1;
    }
    assert(views(providers@).take(i as int) =~= views(providers@));
    (union, count, failed)
}

/// The legacy plain id of a slot.
fn legacy_id_of(spec: &Option<ModelSpec>) -> (r: &str)
    ensures
        r@ == legacy_id(*spec),
{
    match spec {
        Some(ModelSpec::Id(s)) => s.as_str(),
        _ => {
            proof {
                reveal_strlit("");
            }
            ""
        },
    }
}

/// Whether a slot holds the provider-bound form.
fn provider_form(spec: &Option<ModelSpec>) -> (r: bool)
    ensures
        r == is_provider_form(*spec),
{
    match spec {
        Some(ModelSpec::Provider { .. }) => true,
        _ => false,
    }
}

/// Whether a slot holds a provider-bound model with a non-empty id.
fn entry_present(spec: &Option<ModelSpec>) -> (r: bool)
    ensures
        r == is_entry(*spec),
{
    match spec {
        Some(ModelSpec::Provider { id, .. }) => !crate::text::is_empty_str(id.as_str()),
        _ => false,
    }
}

/// Validates the configured models, given what was fetched for each
/// provider (`fetched` pairs a provider with its model ids or the reason its
/// fetch failed; a provider missing from it counts as failed). Provider-bound
/// entries are checked against their own provider's list; legacy plain ids
/// against the union over all configured providers. In mock mode nothing is
/// checked. Returns the status when the models are valid, else the error.
pub fn validate_models(m: &MergedConfig, fetched: &[(String, Result<Vec<String>, String>)]) -> (r: Result<
    ConfigStatus,
    String,
>)
    requires
        m.wf(),
    ensures
        match r {
            Ok(st) => validation_outcome(*m, fetched@) is Ok && is_status_of(st, *m),
            Err(e) => validation_outcome(*m, fetched@) == Err::<(), Seq<char>>(e@),
        },
{
    let status = ConfigStatus::from(m);
    if m.mock_llm {
        return Ok(status);
    }
    let mut messages: Vec<String> = Vec::new();
    push_entry_messages(&mut messages, m, fetched, "small", &m.small);
    push_entry_messages(&mut messages, m, fetched, "large", &m.large);
    let ghost structured = views(messages@);
    let configured = &status.configured_providers;
    if configured.len() == 0 && !entry_present(&m.small) && !entry_present(&m.large) {
        return Err(NO_PROVIDERS.to_owned());
    }
    let legacy_small = legacy_id_of(&m.small);
    let legacy_large = legacy_id_of(&m.large);
    let union_needed = !crate::text::is_empty_str(legacy_small) || !crate::text::is_empty_str(legacy_large);
    if union_needed && configured.len() > 0 {
        let (union, count, failed) = collect_union(fetched, configured);
        if count == 0 {
            if failed.len() == 0 {
                return Err(ALL_FAILED.to_owned());
            }
            let a = concat(ALL_FAILED, "; ");
            let b = join(&failed, "; ");
            return Err(concat(a.as_str(), b.as_str()));
        }
        let (list, sorted) = listing_of(&union);
        if !provider_form(&m.small) {
            push_slot_message(&mut messages, "small", legacy_small, &sorted, &list);
        }
        if !provider_form(&m.large) {
            push_slot_message(&mut messages, "large", legacy_large, &sorted, &list);
        }
        assert(views(messages@) =~= structured + legacy_messages(*m, views(sorted@)));
    } else {
        assert(views(messages@) =~= structured + Seq::<Seq<char>>::empty());
    }
    if messages.len() > 0 {
        return Err(join(&messages, "; "));
    }
    Ok(status)
}

/// The provider of a slot's provider-bound entry when that provider has a
/// key: the providers the structured checks fetch.
pub open spec fn entry_fetch(keys: Map<Seq<char>, Seq<char>>, m: Option<ModelSpec>) -> Set<Seq<char>> {
    match m {
        Some(ModelSpec::Provider { provider, id }) => if id@.len() > 0 && configured_set(keys).contains(provider@) {
            set![provider@]
        } else {
            Set::empty()
        },
        _ => Set::empty(),
    }
}

/// The providers whose model lists validation needs: none in mock mode;
/// else the keyed providers of provider-bound entries, and every configured
/// provider when a legacy plain id is set.
pub open spec fn needed_providers(m: MergedConfig) -> Set<Seq<char>> {
    if m.mock_llm {
        Set::empty()
    } else {
        entry_fetch(m.keys(), m.small) + entry_fetch(m.keys(), m.large) + if legacy_id(m.small).len() > 0 || legacy_id(
            m.large,
        ).len() > 0 {
            configured_set(m.keys())
        } else {
            Set::empty()
        }
    }
}

/// The providers to fetch model lists from before `validate_models`, each
/// once, in sorted order.
pub fn providers_to_fetch(m: &MergedConfig) -> (r: Vec<String>)
    requires
        m.wf(),
    ensures
        strictly_sorted(views(r@)),
        views(r@).to_set() == needed_providers(*m),
{
    let mut names: Vec<String> = Vec::new();
    if m.mock_llm {
        assert(views(names@).to_set() =~= needed_providers(*m));
        return names;
    }
    let status = ConfigStatus::from(m);
    match &m.small {
        Some(ModelSpec::Provider { provider, id }) => {
            if !crate::text::is_empty_str(id.as_str()) && has_configured_key(m, provider.as_str()) {
                proof {
                    crate::text::lemma_views_push(names@, *provider);
                    crate::text::lemma_push_to_set(views(names@), provider@);
                }
                names.push(provider.clone());
            }
        },
        _ => {},
    }
    assert(views(names@).to_set() =~= entry_fetch(m.keys(), m.small));
    match &m.large {
        Some(ModelSpec::Provider { provider, id }) => {
            if !crate::text::is_empty_str(id.as_str()) && has_configured_key(m, provider.as_str()) {
                proof {
                    crate::text::lemma_views_push(names@, *provider);
                    crate::text::lemma_push_to_set(views(names@), provider@);
                }
                names.push(provider.clone());
            }
        },
        _ => {},
    }
    let ghost structured = views(names@).to_set();
    assert(structured =~= entry_fetch(m.keys(), m.small) + entry_fetch(m.keys(), m.large));
    let legacy_small = legacy_id_of(&m.small);
    let legacy_large = legacy_id_of(&m.large);
    if !crate::text::is_empty_str(legacy_small) || !crate::text::is_empty_str(legacy_large) {
        let ghost before = names@;
        let mut i: usize = 0;
        while i < status.configured_providers.len()
            invariant
                i <= status.configured_providers@.len(),
                views(names@).to_set() == views(before).to_set() + views(status.configured_providers@).take(
                    i as int,
                ).to_set(),
            decreases status.configured_providers@.len() - i,
        {
            proof {
                crate::text::lemma_views_push(names@, status.configured_providers@[i as int]);
                crate::text::lemma_push_to_set(views(names@), status.configured_providers@[i as int]@);
                assert(views(status.configured_providers@).take(i + 1) =~= views(status.configured_providers@).take(
                    i as int,
                ).push(status.configured_providers@[i as int]@));
                crate::text::lemma_push_to_set(
                    views(status.configured_providers@).take(i as int),
                    status.configured_providers@[i as int]@,
                );
            }
            names.push(status.configured_providers[i].clone());
            i = i + 1;
            assert(views(names@).to_set() =~= views(before).to_set() + views(status.configured_providers@).take(
                i as int,
            ).to_set());
        }
        assert(views(status.configured_providers@).take(i as int) =~= views(status.configured_providers@));
    }
    assert(views(names@).to_set() =~= needed_providers(*m));
    sort_dedup(&names)
}

/// The error when there is no provider to validate against.
pub const NO_PROVIDERS: &'static str = "No configured providers available to validate models";

/// The error when every configured provider failed to answer.
pub const ALL_FAILED: &'static str = "All configured providers failed to validate models";

/// The reason given for a provider with no recorded fetch outcome.
pub const NOT_FETCHED: &'static str = "no model list was fetched";

/// In mock mode validation always succeeds, whatever the configuration and
/// whatever was fetched: the mock provider ignores model ids.
pub proof fn lemma_mock_mode_accepts(m: MergedConfig, f: Seq<(String, Result<Vec<String>, String>)>)
    requires
        m.mock_llm,
    ensures
        validation_outcome(m, f) is Ok,
        needed_providers(m) == Set::<Seq<char>>::empty(),
{
}

/// Outside mock mode, with no configured provider and no provider-bound
/// model, validation fails with the no-provider error.
pub proof fn lemma_no_provider_refused(m: MergedConfig, f: Seq<(String, Result<Vec<String>, String>)>)
    requires
        !m.mock_llm,
        configured_set(m.keys()) == Set::<Seq<char>>::empty(),
        !is_entry(m.small),
        !is_entry(m.large),
    ensures
        validation_outcome(m, f) == Err::<(), Seq<char>>(NO_PROVIDERS@),
{
    assert(Seq::<Seq<char>>::empty().to_set() =~= Set::<Seq<char>>::empty());
    crate::text::lemma_is_sorted_of(Seq::empty(), Set::empty());
}

/// A model id is in the union checked against exactly when some provider
/// of the list answered with a model list that offers it: every successful
/// provider contributes its whole list, and nothing else gets in.
pub proof fn lemma_union_is_every_offered_id(f: Seq<(String, Result<Vec<String>, String>)>, ps: Seq<Seq<char>>, id: Seq<char>)
    ensures
        union_of(f, ps).contains(id) <==> exists|j: int|
            0 <= j < ps.len() && match fetch_of(f, #[trigger] ps[j]) {
                Some(Ok(l)) => l.contains(id),
                _ => false,
            },
    decreases ps.len(),
{
    if ps.len() > 0 {
        let p0 = ps.drop_last();
        lemma_union_is_every_offered_id(f, p0, id);
        let u0 = union_of(f, p0);
        let tail = match offered(fetch_of(f, ps.last())) {
            Some(l) => l,
            None => Seq::<Seq<char>>::empty(),
        };
        let u = u0 + tail;
        assert(union_of(f, ps) == u);
        if u.contains(id) {
            let i = choose|i: int| 0 <= i < u.len() && u[i] == id;
            if i < u0.len() {
                assert(u0[i] == id);
                let j = choose|j: int|
                    0 <= j < p0.len() && match fetch_of(f, #[trigger] p0[j]) {
                        Some(Ok(l)) => l.contains(id),
                        _ => false,
                    };
                assert(ps[j] == p0[j]);
            } else {
                assert(tail[i - u0.len()] == id);
                assert(ps[ps.len() - 1] == ps.last());
            }
        }
        if exists|j: int|
            0 <= j < ps.len() && match fetch_of(f, #[trigger] ps[j]) {
                Some(Ok(l)) => l.contains(id),
                _ => false,
            } {
            let j = choose|j: int|
                0 <= j < ps.len() && match fetch_of(f, #[trigger] ps[j]) {
                    Some(Ok(l)) => l.contains(id),
                    _ => false,
                };
            if j < ps.len() - 1 {
                assert(p0[j] == ps[j]);
                let i = choose|i: int| 0 <= i < u0.len() && u0[i] == id;
                assert(u[i] == id);
            } else {
                let i = choose|i: int| 0 <= i < tail.len() && tail[i] == id;
                assert(u[u0.len() + i] == id);
            }
        }
    }
}

/// A legacy model id that some configured provider offers in a successful
/// answer is never reported for a slot: the union it is checked against
/// holds it.
pub proof fn lemma_offered_legacy_id_accepted(
    f: Seq<(String, Result<Vec<String>, String>)>,
    ps: Seq<Seq<char>>,
    slot: Seq<char>,
    id: Seq<char>,
    j: int,
    l: Seq<Seq<char>>,
)
    requires
        0 <= j < ps.len(),
        fetch_of(f, ps[j]) == Some(Ok::<Seq<Seq<char>>, Seq<char>>(l)),
        l.contains(id),
        id.len() > 0,
    ensures
        slot_messages(slot, id, union_of(f, ps)).len() == 0,
{
    lemma_union_is_every_offered_id(f, ps, id);
    assert(union_of(f, ps).contains(id));
    assert(union_of(f, ps).to_set().contains(id));
}

/// A provider-bound model is checked against its own provider only: with a
/// key for that provider and a successful answer that offers the id, the
/// slot gets no message, whatever the other providers answered; without a
/// key it gets exactly the unconfigured-provider message.
pub proof fn lemma_bound_model_checked_against_its_provider(
    keys: Map<Seq<char>, Seq<char>>,
    f: Seq<(String, Result<Vec<String>, String>)>,
    slot: Seq<char>,
    provider: String,
    id: String,
)
    requires
        id@.len() > 0,
    ensures
        configured_set(keys).contains(provider@) && (fetch_of(f, provider@) matches Some(Ok(l)) && l.contains(id@))
            ==> entry_messages(keys, f, slot, Some(ModelSpec::Provider { provider, id })).len() == 0,
        !configured_set(keys).contains(provider@) ==> entry_messages(
            keys,
            f,
            slot,
            Some(ModelSpec::Provider { provider, id }),
        ) == seq![unconfigured_message(slot, provider@)],
{
    if configured_set(keys).contains(provider@) {
        if let Some(Ok(l)) = fetch_of(f, provider@) {
            if l.contains(id@) {
                assert(l.to_set().contains(id@));
            }
        }
    }
}

} // verus!
