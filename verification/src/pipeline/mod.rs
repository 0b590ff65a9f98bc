//! The Markdown block pipeline: block model, stable hashing, Markdown
//! parsing, slash commands, local routing signals, and bounded prompt
//! construction.

pub mod blocks;
pub mod hash;
pub mod markdown;
pub mod prompts;
pub mod routing;
pub mod slash;

pub use blocks::{block_kind_as_str, block_kind_from_str, BlockKind, MarkdownBlock};
pub use hash::stable_hash;
pub use markdown::{parse_markdown_blocks, push_block};
pub use prompts::{
    build_extraction_request, build_fact_check_request, build_research_request,
    EXTRACTION_SYSTEM_PROMPT, FACT_CHECK_SYSTEM_PROMPT, RESEARCH_SYSTEM_PROMPT,
};
pub use routing::{classify_block, decision_trigger, route_block, LocalSignals, RoutingDecision, Trigger};
pub use slash::{
    build_inline_envelope, first_at_token, inline_task_id, parse_slash_command_in_block,
    parse_slash_command_in_line, CommandEnvelope, FocusRef, LineCommand, ParsedSlashCommand,
    SlashCommand,
};
