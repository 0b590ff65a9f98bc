//! The provider-neutral LLM boundary: request and response types, the
//! deterministic mock provider, the stand-in for the real provider, and the
//! sanitizing of error text so that no prompt content or key material leaks.

pub mod json;
pub mod providers;

use vstd::prelude::*;

use crate::text::opt_view;

use crate::text::{
    drop_controls, is_blank, join, lemma_take_map_push, lemma_views_push, seq_join, split_whitespace, strip_controls_and_cap, take_chars,
    trim, views, words,
};

verus! {

/// Kind of LLM work requested.
#[derive(Debug, Clone, Copy, PartialEq, Eq, Hash, Structural)]
pub enum LlmRequestKind {
    Extraction,
    FactCheck,
    Research,
}

/// A request: the user prompt is the only required field; model, system
/// prompt and token budget are provider hints.
#[derive(Debug, Clone, PartialEq, Eq)]
pub struct LlmRequest {
    pub kind: LlmRequestKind,
    pub model: Option<String>,
    pub system_prompt: Option<String>,
    pub user_prompt: String,
    pub max_tokens: Option<u32>,
}

/// A request as plain values.
pub struct RequestView {
    pub kind: LlmRequestKind,
    pub model: Option<Seq<char>>,
    pub system_prompt: Option<Seq<char>>,
    pub user_prompt: Seq<char>,
    pub max_tokens: Option<u32>,
}

impl LlmRequest {
    pub open spec fn view(&self) -> RequestView {
        RequestView {
            kind: self.kind,
            model: opt_view(self.model),
            system_prompt: opt_view(self.system_prompt),
            user_prompt: self.user_prompt@,
            max_tokens: self.max_tokens,
        }
    }
}

/// Token usage reported for a completed request.
#[derive(Debug, Clone, Copy, PartialEq, Eq, Structural)]
pub struct LlmUsage {
    pub input_tokens: u64,
    pub output_tokens: u64,
}

/// A provider response. `result` is the structured result as JSON text; it
/// always carries a `schema_version`.
#[derive(Debug, Clone, PartialEq, Eq)]
pub struct LlmResponse {
    pub response_id: String,
    pub kind: LlmRequestKind,
    pub model: String,
    pub result: String,
    pub usage: LlmUsage,
}

/// An error of the LLM boundary. Its message never embeds prompt content or
/// key material.
#[derive(Debug, Clone, PartialEq, Eq)]
pub enum LlmError {
    EmptyUserPrompt,
    Provider(String),
}

/// A word that looks like an API key ("sk-...") replaced by a marker.
pub open spec fn redact_word(w: Seq<char>) -> Seq<char> {
    if w.len() >= 3 && w.subrange(0, 3) == "sk-"@ {
        "sk-[REDACTED]"@
    } else {
        w
    }
}

/// Text with its whitespace runs collapsed to single spaces and every
/// key-like word redacted.
pub open spec fn scrubbed(text: Seq<char>) -> Seq<char> {
    seq_join(words(text).map_values(|w: Seq<char>| redact_word(w)), " "@)
}

/// Whether a word starts with "sk-".
fn key_like(w: &str) -> (r: bool)
    ensures
        r == (w@.len() >= 3 && w@.subrange(0, 3) == "sk-"@),
{
    let cs = crate::text::chars_of(w);
    proof {
        reveal_strlit("sk-");
    }
    if cs.len() < 3 {
        return false;
    }
    let r = cs[0] == 's' && cs[1] == 'k' && cs[2] == '-';
    if r {
        assert(cs@.subrange(0, 3) =~= "sk-"@);
    } else {
        assert(cs@.subrange(0, 3)[0] != "sk-"@[0] || cs@.subrange(0, 3)[1] != "sk-"@[1] || cs@.subrange(0, 3)[2]
            != "sk-"@[2]);
    }
    r
}

/// Removes API-key-like material (whitespace-delimited words starting with
/// "sk-") from text and collapses its whitespace to single spaces.
pub fn scrub_secrets(text: &str) -> (r: String)
    ensures
        r@ == scrubbed(text@),
{
    let ws = split_whitespace(text);
    let mut out: Vec<String> = Vec::new();
    let mut k: usize = 0;
    while k < ws.len()
        invariant
            k <= ws.len(),
            views(ws@) == words(text@),
            views(out@) == views(ws@).take(k as int).map_values(|w: Seq<char>| redact_word(w)),
        decreases ws.len() - k,
    {
        let ghost before = out@;
        let item = if key_like(ws[k].as_str()) {
            "sk-[REDACTED]".to_owned()
        } else {
            ws[k].clone()
        };
        proof {
            lemma_views_push(before, item);
            lemma_take_map_push(views(ws@), k as int, |w: Seq<char>| redact_word(w));
        }
        out.push(item);
        k = k + 1;
    }
    assert(views(ws@).take(ws@.len() as int) =~= views(ws@));
    join(&out, " ")
}

/// The most characters of provider detail an error message carries.
pub const MAX_ERROR_DETAIL: usize = 200;

impl LlmError {
    /// The error's message.
    pub open spec fn message_spec(&self) -> Seq<char> {
        match self {
            LlmError::EmptyUserPrompt => "user prompt must not be empty"@,
            LlmError::Provider(detail) => "LLM provider error: "@ + take_chars(
                drop_controls(scrubbed(detail@)),
                200,
            ),
        }
    }

    /// The safe message of an error: a provider's detail has key-like words
    /// redacted, control characters removed, and is capped at 200
    /// characters.
    pub fn message(&self) -> (r: String)
        ensures
            r@ == self.message_spec(),
    {
        match self {
            LlmError::EmptyUserPrompt => "user prompt must not be empty".to_owned(),
            LlmError::Provider(detail) => {
                let safe = strip_controls_and_cap(scrub_secrets(detail.as_str()).as_str(), MAX_ERROR_DETAIL);
                crate::text::concat("LLM provider error: ", safe.as_str())
            },
        }
    }
}

// ---------------------------------------------------------------------------
// Providers.

/// The model the mock provider reports.
pub const MOCK_MODEL: &'static str = "mock-provider-v1";
pub const MOCK_INPUT_TOKENS: u64 = 10;
pub const MOCK_OUTPUT_TOKENS: u64 = 20;

/// The stable response id of the mock provider for a request kind.
pub open spec fn mock_id(kind: LlmRequestKind) -> Seq<char> {
    match kind {
        LlmRequestKind::Extraction => "mock-extraction"@,
        LlmRequestKind::FactCheck => "mock-factcheck"@,
        LlmRequestKind::Research => "mock-research"@,
    }
}

/// The stable response id of the mock provider: the same kind gives the same
/// id, different kinds different ids.
pub fn mock_response_id(kind: LlmRequestKind) -> (r: String)
    ensures
        r@ == mock_id(kind),
{
    match kind {
        LlmRequestKind::Extraction => "mock-extraction".to_owned(),
        LlmRequestKind::FactCheck => "mock-factcheck".to_owned(),
        LlmRequestKind::Research => "mock-research".to_owned(),
    }
}

/// The fixed structured result of the mock provider, as JSON text: schema
/// version 1, the mock marker, and readable placeholder text.
pub open spec fn mock_json(kind: LlmRequestKind) -> Seq<char> {
    match kind {
        LlmRequestKind::Extraction => "{\"schema_version\":1,\"mock\":true,\"text\":\"Lorem ipsum dolor sit amet. Placeholder extraction result from the mock provider.\"}"@,
        LlmRequestKind::FactCheck => "{\"schema_version\":1,\"mock\":true,\"text\":\"Lorem ipsum dolor sit amet. Placeholder fact-check result from the mock provider.\"}"@,
        LlmRequestKind::Research => "{\"schema_version\":1,\"mock\":true,\"text\":\"Lorem ipsum dolor sit amet. Placeholder research result from the mock provider.\"}"@,
    }
}

/// The hardcoded result of the mock provider for a request kind. No prompt
/// content ever appears in it.
pub fn mock_result(kind: LlmRequestKind) -> (r: String)
    ensures
        r@ == mock_json(kind),
{
    match kind {
        LlmRequestKind::Extraction => "{\"schema_version\":1,\"mock\":true,\"text\":\"Lorem ipsum dolor sit amet. Placeholder extraction result from the mock provider.\"}".to_owned(),
        LlmRequestKind::FactCheck => "{\"schema_version\":1,\"mock\":true,\"text\":\"Lorem ipsum dolor sit amet. Placeholder fact-check result from the mock provider.\"}".to_owned(),
        LlmRequestKind::Research => "{\"schema_version\":1,\"mock\":true,\"text\":\"Lorem ipsum dolor sit amet. Placeholder research result from the mock provider.\"}".to_owned(),
    }
}

/// A prompt that is empty or only whitespace.
pub open spec fn blank_prompt(request: LlmRequest) -> bool {
    trim(request.user_prompt@).len() == 0
}

/// What the mock provider answers: an empty prompt is refused; anything else
/// gets the fixed result of its kind, the mock model and fixed usage.
pub open spec fn mock_answers(request: LlmRequest, r: Result<LlmResponse, LlmError>) -> bool {
    if blank_prompt(request) {
        r == Err::<LlmResponse, LlmError>(LlmError::EmptyUserPrompt)
    } else {
        r matches Ok(resp) && {
            &&& resp.response_id@ == mock_id(request.kind)
            &&& resp.kind == request.kind
            &&& resp.model@ == MOCK_MODEL@
            &&& resp.result@ == mock_json(request.kind)
            &&& resp.usage == LlmUsage { input_tokens: MOCK_INPUT_TOKENS, output_tokens: MOCK_OUTPUT_TOKENS }
        }
    }
}

/// Completes a request with the mock provider: no network, no model, and the
/// prompt is never copied into the answer.
pub fn mock_complete(request: LlmRequest) -> (r: Result<LlmResponse, LlmError>)
    ensures
        mock_answers(request, r),
{
    if is_blank(request.user_prompt.as_str()) {
        return Err(LlmError::EmptyUserPrompt);
    }
    Ok(
        LlmResponse {
            response_id: mock_response_id(request.kind),
            kind: request.kind,
            model: MOCK_MODEL.to_owned(),
            result: mock_result(request.kind),
            usage: LlmUsage { input_tokens: MOCK_INPUT_TOKENS, output_tokens: MOCK_OUTPUT_TOKENS },
        },
    )
}

/// The deterministic mock provider.
#[derive(Debug, Clone, Copy, PartialEq, Eq, Structural)]
pub struct MockProvider;

impl MockProvider {
    pub fn new() -> (r: MockProvider)
        ensures
            r == MockProvider,
    {
        MockProvider
    }

    /// Completes a request; see `mock_complete`.
    pub fn complete(&self, request: LlmRequest) -> (r: Result<LlmResponse, LlmError>)
        ensures
            mock_answers(request, r),
    {
        mock_complete(request)
    }
}

/// The detail of the real provider's refusal while it is not wired up.
pub const REAL_PROVIDER_UNAVAILABLE: &'static str = "real LLM provider is not yet available";

/// The providers a task can be dispatched to.
#[derive(Debug, Clone, Copy, PartialEq, Eq, Structural)]
pub enum LlmProvider {
    Mock,
    Real,
}

/// What a provider answers: the mock as `mock_answers` says; the real
/// provider refuses an empty prompt and otherwise reports that it is not yet
/// available.
pub open spec fn provider_answers(p: LlmProvider, request: LlmRequest, r: Result<LlmResponse, LlmError>) -> bool {
    match p {
        LlmProvider::Mock => mock_answers(request, r),
        LlmProvider::Real => if blank_prompt(request) {
            r == Err::<LlmResponse, LlmError>(LlmError::EmptyUserPrompt)
        } else {
            r matches Err(LlmError::Provider(d)) && d@ == REAL_PROVIDER_UNAVAILABLE@
        },
    }
}

impl LlmProvider {
    /// Completes a request.
    pub fn complete(&self, request: LlmRequest) -> (r: Result<LlmResponse, LlmError>)
        ensures
            provider_answers(*self, request, r),
    {
        match self {
            LlmProvider::Mock => mock_complete(request),
            LlmProvider::Real => {
                if is_blank(request.user_prompt.as_str()) {
                    Err(LlmError::EmptyUserPrompt)
                } else {
                    Err(LlmError::Provider(REAL_PROVIDER_UNAVAILABLE.to_owned()))
                }
            },
        }
    }

    /// The model a provider always serves, whatever a request asks for: the
    /// mock's fixed identity; none for the real provider.
    pub fn serving_model(&self) -> (r: Option<&'static str>)
        ensures
            match self {
                LlmProvider::Mock => r matches Some(m) && m@ == MOCK_MODEL@,
                LlmProvider::Real => r is None,
            },
    {
        match self {
            LlmProvider::Mock => Some(MOCK_MODEL),
            LlmProvider::Real => None,
        }
    }
}

/// The provider for a configuration: the mock when `use_mock`, else the real
/// one.
pub fn select_provider(use_mock: bool) -> (r: Box<LlmProvider>)
    ensures
        *r == if use_mock { LlmProvider::Mock } else { LlmProvider::Real },
{
    if use_mock {
        Box::new(LlmProvider::Mock)
    } else {
        Box::new(LlmProvider::Real)
    }
}

/// The mock provider's answer depends on the request kind only: two
/// non-empty prompts of one kind get the same result, id and model, so no
/// prompt text ever reaches a mock result.
pub proof fn lemma_mock_ignores_prompt(
    a: LlmRequest,
    b: LlmRequest,
    ra: Result<LlmResponse, LlmError>,
    rb: Result<LlmResponse, LlmError>,
)
    requires
        mock_answers(a, ra),
        mock_answers(b, rb),
        !blank_prompt(a),
        !blank_prompt(b),
        a.kind == b.kind,
    ensures
        ra is Ok && rb is Ok,
        ra->Ok_0.result@ == rb->Ok_0.result@,
        ra->Ok_0.response_id@ == rb->Ok_0.response_id@,
        ra->Ok_0.model@ == rb->Ok_0.model@,
{
}

/// A scrubbed word that still starts with "sk-" is the redaction marker:
/// no key-like word passes through.
pub proof fn lemma_redaction_hides_keys(w: Seq<char>)
    ensures
        redact_word(w).len() >= 3 && redact_word(w).subrange(0, 3) == "sk-"@ ==> redact_word(w)
            == "sk-[REDACTED]"@,
{
}

} // verus!
