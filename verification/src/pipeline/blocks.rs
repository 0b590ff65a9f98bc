//! Block model: the flat Markdown blocks with exact byte offsets, heading
//! chains, and exclusion flags.

use vstd::prelude::*;

use crate::text::str_eq;

verus! {

/// The kind of one Markdown block.
#[derive(Debug, Clone, Copy, PartialEq, Eq, Structural)]
pub enum BlockKind {
    Heading,
    Paragraph,
    ListItem,
    BlockQuote,
    Table,
    FrontMatter,
    CodeFence,
    Html,
}

/// One parsed Markdown block. `text` is the block's exact source text
/// (`input[start..end]`), `start`/`end` are byte offsets into the input,
/// `heading_chain` holds the texts of the headings above the block, and
/// `excluded` is true for front matter, code fences, and HTML.
#[derive(Debug, Clone, PartialEq, Eq)]
pub struct MarkdownBlock {
    pub kind: BlockKind,
    pub text: String,
    pub start: usize,
    pub end: usize,
    pub heading_chain: Vec<String>,
    pub excluded: bool,
    pub block_hash: String,
}

/// Whether blocks of this kind are kept out of fact-checking.
pub open spec fn kind_is_excluded(kind: BlockKind) -> bool {
    kind == BlockKind::FrontMatter || kind == BlockKind::CodeFence || kind == BlockKind::Html
}

/// The stable spelling of a block kind in the `blocks.kind` column.
pub open spec fn kind_spelling(kind: BlockKind) -> Seq<char> {
    match kind {
        BlockKind::Heading => "heading"@,
        BlockKind::Paragraph => "paragraph"@,
        BlockKind::ListItem => "list_item"@,
        BlockKind::BlockQuote => "block_quote"@,
        BlockKind::Table => "table"@,
        BlockKind::FrontMatter => "front_matter"@,
        BlockKind::CodeFence => "code_fence"@,
        BlockKind::Html => "html"@,
    }
}

/// Serializes a block kind to its stable spelling; `block_kind_from_str`
/// parses it back.
pub fn block_kind_as_str(kind: &BlockKind) -> (r: &'static str)
    ensures
        r@ == kind_spelling(*kind),
{
    match kind {
        BlockKind::Heading => "heading",
        BlockKind::Paragraph => "paragraph",
        BlockKind::ListItem => "list_item",
        BlockKind::BlockQuote => "block_quote",
        BlockKind::Table => "table",
        BlockKind::FrontMatter => "front_matter",
        BlockKind::CodeFence => "code_fence",
        BlockKind::Html => "html",
    }
}

/// The kind whose spelling is `s`; an unknown spelling falls back to
/// `Paragraph`.
pub open spec fn kind_of_spelling(s: Seq<char>) -> BlockKind {
    if s == "heading"@ {
        BlockKind::Heading
    } else if s == "list_item"@ {
        BlockKind::ListItem
    } else if s == "block_quote"@ {
        BlockKind::BlockQuote
    } else if s == "table"@ {
        BlockKind::Table
    } else if s == "front_matter"@ {
        BlockKind::FrontMatter
    } else if s == "code_fence"@ {
        BlockKind::CodeFence
    } else if s == "html"@ {
        BlockKind::Html
    } else {
        BlockKind::Paragraph
    }
}

/// Parses a stored kind spelling back into a kind. Total: an unknown
/// spelling falls back to `Paragraph`.
pub fn block_kind_from_str(s: &str) -> (r: BlockKind)
    ensures
        r == kind_of_spelling(s@),
{
    if str_eq(s, "heading") {
        BlockKind::Heading
    } else if str_eq(s, "list_item") {
        BlockKind::ListItem
    } else if str_eq(s, "block_quote") {
        BlockKind::BlockQuote
    } else if str_eq(s, "table") {
        BlockKind::Table
    } else if str_eq(s, "front_matter") {
        BlockKind::FrontMatter
    } else if str_eq(s, "code_fence") {
        BlockKind::CodeFence
    } else if str_eq(s, "html") {
        BlockKind::Html
    } else {
        BlockKind::Paragraph
    }
}

/// Reading back the spelling of a kind gives the kind again.
pub proof fn lemma_kind_spelling_round_trip(kind: BlockKind)
    ensures
        kind_of_spelling(kind_spelling(kind)) == kind,
{
    reveal_strlit("heading");
    reveal_strlit("paragraph");
    reveal_strlit("list_item");
    reveal_strlit("block_quote");
    reveal_strlit("table");
    reveal_strlit("front_matter");
    reveal_strlit("code_fence");
    reveal_strlit("html");
    assert("paragraph"@.len() == 9 && "list_item"@.len() == 9);
    assert("paragraph"@[0] != "list_item"@[0]);
    assert("heading"@.len() != "paragraph"@.len());
    assert("block_quote"@.len() != "paragraph"@.len());
    assert("table"@.len() != "paragraph"@.len());
    assert("front_matter"@.len() != "paragraph"@.len());
    assert("code_fence"@.len() != "paragraph"@.len());
    assert("html"@.len() != "paragraph"@.len());
    assert("heading"@.len() != "list_item"@.len());
    assert("heading"@.len() != "block_quote"@.len());
    assert("heading"@.len() != "table"@.len());
    assert("heading"@.len() != "front_matter"@.len());
    assert("heading"@.len() != "code_fence"@.len());
    assert("heading"@.len() != "html"@.len());
    assert("list_item"@.len() != "block_quote"@.len());
    assert("list_item"@.len() != "table"@.len());
    assert("list_item"@.len() != "front_matter"@.len());
    assert("list_item"@.len() != "code_fence"@.len());
    assert("list_item"@.len() != "html"@.len());
    assert("block_quote"@.len() != "table"@.len());
    assert("block_quote"@.len() != "front_matter"@.len());
    assert("block_quote"@.len() != "code_fence"@.len());
    assert("block_quote"@.len() != "html"@.len());
    assert("table"@.len() != "front_matter"@.len());
    assert("table"@.len() != "code_fence"@.len());
    assert("table"@.len() != "html"@.len());
    assert("front_matter"@.len() != "code_fence"@.len());
    assert("front_matter"@.len() != "html"@.len());
    assert("code_fence"@.len() != "html"@.len());
}

} // verus!
