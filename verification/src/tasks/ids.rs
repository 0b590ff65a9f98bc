//! Deterministic task ids and the dedup identity of automatic tasks.

use vstd::prelude::*;

use crate::llm::LlmRequestKind;
use crate::pipeline::hash::{spec_stable_hash, stable_hash};
use crate::pipeline::routing::Trigger;
use crate::text::{concat, str_lowercase, to_lowercase, underscore_non_alnum, underscored};

verus! {

/// The snake_case name of a trigger in task ids.
pub open spec fn trigger_name(t: Trigger) -> Seq<char> {
    match t {
        Trigger::Automatic => "automatic"@,
        Trigger::FactCheck => "fact_check"@,
        Trigger::Research => "research"@,
        Trigger::Inline => "inline"@,
        Trigger::CommandLine => "command_line"@,
    }
}

/// The snake_case name of a request kind in task ids.
pub open spec fn kind_name(k: LlmRequestKind) -> Seq<char> {
    match k {
        LlmRequestKind::Extraction => "extraction"@,
        LlmRequestKind::FactCheck => "fact_check"@,
        LlmRequestKind::Research => "research"@,
    }
}

/// The task id of an identity: "{block_hash}:{trigger}:{kind}" lowercased,
/// with every non-alphanumeric character turned into '_'.
pub open spec fn identity_task_id(block_hash: Seq<char>, trigger: Trigger, kind: LlmRequestKind) -> Seq<char> {
    underscored(str_lowercase(block_hash + ":"@ + trigger_name(trigger) + ":"@ + kind_name(kind)))
}

fn trigger_str(t: &Trigger) -> (r: &'static str)
    ensures
        r@ == trigger_name(*t),
{
    match t {
        Trigger::Automatic => "automatic",
        Trigger::FactCheck => "fact_check",
        Trigger::Research => "research",
        Trigger::Inline => "inline",
        Trigger::CommandLine => "command_line",
    }
}

/// The snake_case name of a request kind.
pub fn kind_str(k: &LlmRequestKind) -> (r: &'static str)
    ensures
        r@ == kind_name(*k),
{
    match k {
        LlmRequestKind::Extraction => "extraction",
        LlmRequestKind::FactCheck => "fact_check",
        LlmRequestKind::Research => "research",
    }
}

/// The deterministic task id of a block hash, trigger and request kind.
pub fn task_id_from_identity(block_hash: &str, trigger: &Trigger, kind: &LlmRequestKind) -> (r: String)
    ensures
        r@ == identity_task_id(block_hash@, *trigger, *kind),
{
    let a = concat(block_hash, ":");
    let b = concat(a.as_str(), trigger_str(trigger));
    let c = concat(b.as_str(), ":");
    let d = concat(c.as_str(), kind_str(kind));
    let lower = to_lowercase(d.as_str());
    underscore_non_alnum(lower.as_str())
}

/// The task id of an explicit fact-check: the identity's id, ':' and the
/// stable hash of the claim, so fact-checks of different claims in one block
/// never share an id.
pub fn fact_check_task_id(block_hash: &str, claim_text: &str) -> (r: String)
    ensures
        r@ == identity_task_id(block_hash@, Trigger::FactCheck, LlmRequestKind::FactCheck) + ":"@
            + spec_stable_hash(claim_text@),
{
    let base = task_id_from_identity(block_hash, &Trigger::FactCheck, &LlmRequestKind::FactCheck);
    let with_colon = concat(base.as_str(), ":");
    let hash = stable_hash(claim_text);
    concat(with_colon.as_str(), hash.as_str())
}

/// The task id of an explicit research task: the identity's id, ':' and the
/// stable hash of the goal.
pub fn research_task_id(block_hash: &str, goal: &str) -> (r: String)
    ensures
        r@ == identity_task_id(block_hash@, Trigger::Research, LlmRequestKind::Research) + ":"@
            + spec_stable_hash(goal@),
{
    let base = task_id_from_identity(block_hash, &Trigger::Research, &LlmRequestKind::Research);
    let with_colon = concat(base.as_str(), ":");
    let hash = stable_hash(goal);
    concat(with_colon.as_str(), hash.as_str())
}

/// The dedup identity of a task: two automatic tasks with the same identity
/// are never both active.
#[derive(Debug, Clone, PartialEq, Eq, Hash)]
pub struct DedupIdentity {
    pub block_hash: String,
    pub trigger: Trigger,
    pub kind: LlmRequestKind,
}

/// The plain value of a dedup identity.
pub type DedupKey = (Seq<char>, Trigger, LlmRequestKind);

impl DedupIdentity {
    pub open spec fn key(&self) -> DedupKey {
        (self.block_hash@, self.trigger, self.kind)
    }

    /// A field-for-field copy.
    pub fn copy(&self) -> (r: DedupIdentity)
        ensures
            r == *self,
    {
        DedupIdentity { block_hash: self.block_hash.clone(), trigger: self.trigger, kind: self.kind }
    }

    /// Whether two identities are the same.
    pub fn same(&self, other: &DedupIdentity) -> (r: bool)
        ensures
            r == (self.key() == other.key()),
    {
        crate::text::str_eq(self.block_hash.as_str(), other.block_hash.as_str()) && self.trigger == other.trigger
            && self.kind == other.kind
    }
}

/// Builds the dedup identity of a task.
pub fn dedup_identity(block_hash: &str, trigger: Trigger, kind: LlmRequestKind) -> (r: DedupIdentity)
    ensures
        r.key() == (block_hash@, trigger, kind),
{
    DedupIdentity { block_hash: block_hash.to_owned(), trigger, kind }
}

} // verus!
