//! The configuration state the app holds: the merged configuration and its
//! accessors.

use vstd::prelude::*;

use crate::text::opt_view;

use crate::config::model::{model_id, model_provider, slot_id, slot_provider, MergedConfig, ModelSpec};

verus! {

/// The configuration state.
pub struct ConfigState {
    pub inner: MergedConfig,
}

impl Default for ConfigState {
    /// A state holding the default configuration.
    fn default() -> (r: ConfigState)
        ensures
            r.inner.wf(),
            r.inner.api_keys@.len() == 0,
            r.inner.small is None && r.inner.large is None,
            r.inner.debug && r.inner.mock_llm,
    {
        ConfigState { inner: MergedConfig::default() }
    }
}

impl ConfigState {

    /// The small model id, whichever form names it; empty when unset.
    pub fn small_model(&self) -> (r: String)
        ensures
            r@ == slot_id(self.inner.small),
    {
        match &self.inner.small {
            Some(s) => s.id().to_owned(),
            None => String::new(),
        }
    }

    /// The large model id, whichever form names it; empty when unset.
    pub fn large_model(&self) -> (r: String)
        ensures
            r@ == slot_id(self.inner.large),
    {
        match &self.inner.large {
            Some(s) => s.id().to_owned(),
            None => String::new(),
        }
    }

    /// The provider of the small model, for the provider-bound form only.
    pub fn small_provider(&self) -> (r: Option<String>)
        ensures
            opt_view(r) == slot_provider(self.inner.small),
    {
        match &self.inner.small {
            Some(s) => match s.provider() {
                Some(p) => Some(p.to_owned()),
                None => None,
            },
            None => None,
        }
    }

    /// The provider of the large model, for the provider-bound form only.
    pub fn large_provider(&self) -> (r: Option<String>)
        ensures
            opt_view(r) == slot_provider(self.inner.large),
    {
        match &self.inner.large {
            Some(s) => match s.provider() {
                Some(p) => Some(p.to_owned()),
                None => None,
            },
            None => None,
        }
    }

    /// The debug flag: debug events are emitted only when it is on.
    pub fn debug(&self) -> (r: bool)
        ensures
            r == self.inner.debug,
    {
        self.inner.debug
    }

    /// The mock flag: the mock provider serves requests when it is on.
    pub fn mock_llm(&self) -> (r: bool)
        ensures
            r == self.inner.mock_llm,
    {
        self.inner.mock_llm
    }
}

} // verus!
