//! Markdown parsing: the `markdown` crate builds the syntax tree (CommonMark,
//! GFM and front matter); this module takes it over as plain nodes and
//! projects the top level into flat blocks with exact byte offsets, heading
//! chains and exclusion flags.

use vstd::prelude::*;
use vstd::string::StringSliceAdditionalSpecFns;
use vstd::utf8::*;

use crate::pipeline::blocks::{kind_is_excluded, BlockKind, MarkdownBlock};
use crate::pipeline::hash::{spec_stable_hash, stable_hash};
use crate::text::{slice_str, utf8, views};

verus! {

broadcast use vstd::string::group_string_axioms;

/// The syntax-tree node type of the `markdown` crate.
#[verifier::external_type_specification]
#[verifier::external_body]
pub struct ExMdastNode(markdown::mdast::Node);

/// The kinds of syntax-tree nodes the block projection tells apart.
#[derive(Debug, Clone, Copy, PartialEq, Eq, Structural)]
pub enum MdKind {
    Root,
    Heading,
    Paragraph,
    BlockQuote,
    Table,
    FrontMatter,
    Code,
    Html,
    List,
    ListItem,
    Text,
    Other,
}

/// A syntax-tree node as plain values: its kind, its byte span in the
/// source, the value of a text node, and its children.
#[derive(Debug)]
pub struct MdNode {
    pub kind: MdKind,
    pub span: Option<(usize, usize)>,
    pub value: String,
    pub children: Vec<MdNode>,
}

/// The tree that `markdown::to_mdast` builds for a source text with the
/// CommonMark, GFM and front-matter constructs on (`None` when it reports
/// an error), taken over as plain nodes.
pub uninterp spec fn markdown_tree_of(input: Seq<char>) -> Option<MdNode>;

/// The plain kind of an mdast node: one arm per variant the projection
/// reads, every other variant is `Other`.
#[verifier::external_body]
fn md_kind(node: &markdown::mdast::Node) -> MdKind {
    match node {
        markdown::mdast::Node::Root(_) => MdKind::Root,
        markdown::mdast::Node::Heading(_) => MdKind::Heading,
        markdown::mdast::Node::Paragraph(_) => MdKind::Paragraph,
        markdown::mdast::Node::Blockquote(_) => MdKind::BlockQuote,
        markdown::mdast::Node::Table(_) => MdKind::Table,
        markdown::mdast::Node::Yaml(_) | markdown::mdast::Node::Toml(_) => MdKind::FrontMatter,
        markdown::mdast::Node::Code(_) => MdKind::Code,
        markdown::mdast::Node::Html(_) => MdKind::Html,
        markdown::mdast::Node::List(_) => MdKind::List,
        markdown::mdast::Node::ListItem(_) => MdKind::ListItem,
        markdown::mdast::Node::Text(_) => MdKind::Text,
        _ => MdKind::Other,
    }
}

/// An mdast node and its subtree as plain nodes: the kind, the byte offsets
/// of `Node::position`, the value of a text node, and the converted
/// children of `Node::children`.
#[verifier::external_body]
fn md_node(node: &markdown::mdast::Node) -> MdNode {
    MdNode {
        kind: md_kind(node),
        span: node.position().map(|p| (p.start.offset, p.end.offset)),
        value: match node { markdown::mdast::Node::Text(t) => t.value.clone(), _ => String::new() },
        children: match node.children() { Some(kids) => kids.iter().map(md_node).collect(), None => Vec::new() },
    }
}

/// Calls `markdown::to_mdast` with CommonMark, GFM and front matter on. The
/// result is named `markdown_tree_of` of the input's characters.
#[verifier::external_body]
fn markdown_tree(input: &str) -> (r: Option<MdNode>)
    ensures
        r == markdown_tree_of(input@),
{
    let constructs = markdown::Constructs { frontmatter: true, ..markdown::Constructs::gfm() };
    let options = markdown::ParseOptions { constructs, ..markdown::ParseOptions::default() };
    match markdown::to_mdast(input, &options) {
        Ok(node) => Some(md_node(&node)),
        Err(_) => None,
    }
}

// ---------------------------------------------------------------------------
// What the projection yields.

/// A block as plain values.
pub struct BlockModel {
    pub kind: BlockKind,
    pub text: Seq<char>,
    pub start: usize,
    pub end: usize,
    pub heading_chain: Seq<Seq<char>>,
    pub excluded: bool,
    pub block_hash: Seq<char>,
}

/// The plain values of a block.
pub open spec fn block_model(b: MarkdownBlock) -> BlockModel {
    BlockModel {
        kind: b.kind,
        text: b.text@,
        start: b.start,
        end: b.end,
        heading_chain: views(b.heading_chain@),
        excluded: b.excluded,
        block_hash: b.block_hash@,
    }
}

pub open spec fn block_models(bs: Seq<MarkdownBlock>) -> Seq<BlockModel> {
    bs.map_values(|b: MarkdownBlock| block_model(b))
}

/// The plain text of a node: a text node's value, or the texts of its
/// children run together (formatting markers drop out).
pub open spec fn md_text(n: MdNode) -> Seq<char>
    decreases n, n.children@.len() + 1,
{
    if n.kind == MdKind::Text {
        n.value@
    } else {
        md_text_from(n, n.children@.len() as int)
    }
}

/// The texts of the first `k` children of `n`, run together.
pub open spec fn md_text_from(n: MdNode, k: int) -> Seq<char>
    decreases n, k,
{
    if k <= 0 || k > n.children@.len() {
        Seq::empty()
    } else {
        md_text_from(n, k - 1) + md_text(n.children@[k - 1])
    }
}

/// A span that slices the source at character boundaries.
pub open spec fn span_ok(input: Seq<u8>, span: Option<(usize, usize)>) -> bool {
    match span {
        Some((s, e)) => s <= e <= input.len() && is_char_boundary(input, s as int) && is_char_boundary(
            input,
            e as int,
        ),
        None => false,
    }
}

/// The block of a given kind over `input[s..e]`.
pub open spec fn model_at(kind: BlockKind, s: usize, e: usize, input: Seq<u8>, chain: Seq<Seq<char>>) -> BlockModel {
    let text = decode_utf8(input.subrange(s as int, e as int));
    BlockModel {
        kind,
        text,
        start: s,
        end: e,
        heading_chain: chain,
        excluded: kind_is_excluded(kind),
        block_hash: spec_stable_hash(text),
    }
}

/// The block of a node's span, if the span slices the source.
pub open spec fn span_block(kind: BlockKind, span: Option<(usize, usize)>, input: Seq<u8>, chain: Seq<Seq<char>>) -> Seq<BlockModel> {
    match span {
        Some((s, e)) => if span_ok(input, span) {
            seq![model_at(kind, s, e, input, chain)]
        } else {
            Seq::empty()
        },
        None => Seq::empty(),
    }
}

/// One block per list item among the first `k` children of a list.
pub open spec fn list_item_blocks(items: Seq<MdNode>, k: int, input: Seq<u8>, chain: Seq<Seq<char>>) -> Seq<BlockModel>
    decreases k,
{
    if k <= 0 || k > items.len() {
        Seq::empty()
    } else {
        list_item_blocks(items, k - 1, input, chain) + if items[k - 1].kind == MdKind::ListItem {
            span_block(BlockKind::ListItem, items[k - 1].span, input, chain)
        } else {
            Seq::empty()
        }
    }
}

/// The blocks of one top-level node: headings, paragraphs, block quotes,
/// tables, front matter, code and HTML give one block each, a list gives
/// one per item, everything else none.
pub open spec fn node_blocks(n: MdNode, input: Seq<u8>, chain: Seq<Seq<char>>) -> Seq<BlockModel> {
    match n.kind {
        MdKind::Heading => span_block(BlockKind::Heading, n.span, input, chain),
        MdKind::Paragraph => span_block(BlockKind::Paragraph, n.span, input, chain),
        MdKind::BlockQuote => span_block(BlockKind::BlockQuote, n.span, input, chain),
        MdKind::Table => span_block(BlockKind::Table, n.span, input, chain),
        MdKind::FrontMatter => span_block(BlockKind::FrontMatter, n.span, input, chain),
        MdKind::Code => span_block(BlockKind::CodeFence, n.span, input, chain),
        MdKind::Html => span_block(BlockKind::Html, n.span, input, chain),
        MdKind::List => list_item_blocks(n.children@, n.children@.len() as int, input, chain),
        _ => Seq::empty(),
    }
}

/// The heading chain after the first `k` top-level nodes: the texts of the
/// headings among them, in order.
pub open spec fn chain_before(nodes: Seq<MdNode>, k: int) -> Seq<Seq<char>>
    decreases k,
{
    if k <= 0 || k > nodes.len() {
        Seq::empty()
    } else if nodes[k - 1].kind == MdKind::Heading {
        chain_before(nodes, k - 1).push(md_text(nodes[k - 1]))
    } else {
        chain_before(nodes, k - 1)
    }
}

/// The blocks of the first `k` top-level nodes.
pub open spec fn top_blocks(nodes: Seq<MdNode>, k: int, input: Seq<u8>) -> Seq<BlockModel>
    decreases k,
{
    if k <= 0 || k > nodes.len() {
        Seq::empty()
    } else {
        top_blocks(nodes, k - 1, input) + node_blocks(nodes[k - 1], input, chain_before(nodes, k - 1))
    }
}

/// The blocks of a parsed tree: those of the root's children, in order.
pub open spec fn blocks_of_tree(tree: Option<MdNode>, input: Seq<u8>) -> Seq<BlockModel> {
    match tree {
        Some(root) => if root.kind == MdKind::Root {
            top_blocks(root.children@, root.children@.len() as int, input)
        } else {
            Seq::empty()
        },
        None => Seq::empty(),
    }
}


// ---------------------------------------------------------------------------
// The projection.

/// The plain text of a node, formatting markers dropped (for example
/// "## H2 **bold**" gives "H2 bold").
pub fn collect_text(node: &MdNode) -> (r: String)
    ensures
        r@ == md_text(*node),
    decreases node,
{
    if node.kind == MdKind::Text {
        return node.value.clone();
    }
    let mut r = String::new();
    let mut k: usize = 0;
    while k < node.children.len()
        invariant
            node.kind != MdKind::Text,
            k <= node.children@.len(),
            r@ == md_text_from(*node, k as int),
        decreases node.children@.len() - k,
    {
        proof {
            assert(decreases_to!(*node => node.children));
            assert(decreases_to!(node.children => node.children@[k as int]));
        }
        let t = collect_text(&node.children[k]);
        r.append(t.as_str());
        k = k + 1;
    }
    r
}

/// Copies a list of strings.
fn copy_strings(v: &Vec<String>) -> (r: Vec<String>)
    ensures
        views(r@) == views(v@),
{
    let mut r: Vec<String> = Vec::new();
    let mut k: usize = 0;
    while k < v.len()
        invariant
            k <= v.len(),
            r@.len() == k,
            views(r@) == views(v@.subrange(0, k as int)),
        decreases v.len() - k,
    {
        proof {
            crate::text::lemma_views_push(r@, v@[k as int]);
            assert(v@.subrange(0, k + 1) =~= v@.subrange(0, k as int).push(v@[k as int]));
            crate::text::lemma_views_push(v@.subrange(0, k as int), v@[k as int]);
        }
        r.push(v[k].clone());
        k = k + 1;
    }
    assert(v@.subrange(0, v@.len() as int) =~= v@);
    r
}

/// Whether a span slices the source at character boundaries.
fn span_valid(input: &str, span: Option<(usize, usize)>) -> (r: bool)
    ensures
        r == span_ok(utf8(input@), span),
{
    match span {
        Some((s, e)) => s <= e && e <= input.as_bytes().len() && input.is_char_boundary(s)
            && input.is_char_boundary(e),
        None => false,
    }
}

/// Computes the block over `input[start..end]` and appends it: its text is
/// exactly that slice, its hash the stable hash of the text, and it carries
/// the current heading chain.
pub fn push_block(
    blocks: &mut Vec<MarkdownBlock>,
    kind: BlockKind,
    input: &str,
    start: usize,
    end: usize,
    chain: &Vec<String>,
)
    requires
        span_ok(utf8(input@), Some((start, end))),
    ensures
        block_models(final(blocks)@) == block_models(old(blocks)@).push(
            model_at(kind, start, end, utf8(input@), views(chain@)),
        ),
{
    let text = slice_str(input, start, end).to_owned();
    let excluded = match kind {
        BlockKind::FrontMatter | BlockKind::CodeFence | BlockKind::Html => true,
        _ => false,
    };
    let block_hash = stable_hash(text.as_str());
    let ghost before = blocks@;
    blocks.push(
        MarkdownBlock {
            kind,
            text,
            start,
            end,
            heading_chain: copy_strings(chain),
            excluded,
            block_hash,
        },
    );
    assert(block_models(blocks@) =~= block_models(before).push(
        model_at(kind, start, end, utf8(input@), views(chain@)),
    ));
}

/// Pushes the block of a span when the span slices the source.
fn push_span(
    blocks: &mut Vec<MarkdownBlock>,
    kind: BlockKind,
    input: &str,
    span: Option<(usize, usize)>,
    chain: &Vec<String>,
)
    ensures
        block_models(final(blocks)@) == block_models(old(blocks)@) + span_block(kind, span, utf8(input@), views(chain@)),
{
    if span_valid(input, span) {
        match span {
            Some((s, e)) => push_block(blocks, kind, input, s, e, chain),
            None => {},
        }
    }
    assert(block_models(blocks@) =~= block_models(old(blocks)@) + span_block(
        kind,
        span,
        utf8(input@),
        views(chain@),
    ));
}

/// Maps one top-level node to its blocks; a heading also extends the
/// heading chain with its text.
fn emit_blocks(blocks: &mut Vec<MarkdownBlock>, node: &MdNode, input: &str, chain: &mut Vec<String>)
    ensures
        block_models(final(blocks)@) == block_models(old(blocks)@) + node_blocks(
            *node,
            utf8(input@),
            views(old(chain)@),
        ),
        views(final(chain)@) == if node.kind == MdKind::Heading {
            views(old(chain)@).push(md_text(*node))
        } else {
            views(old(chain)@)
        },
{
    match node.kind {
        MdKind::Heading => {
            push_span(blocks, BlockKind::Heading, input, node.span, chain);
            let t = collect_text(node);
            let ghost before = chain@;
            chain.push(t);
            assert(views(chain@) =~= views(before).push(md_text(*node)));
        },
        MdKind::Paragraph => push_span(blocks, BlockKind::Paragraph, input, node.span, chain),
        MdKind::BlockQuote => push_span(blocks, BlockKind::BlockQuote, input, node.span, chain),
        MdKind::Table => push_span(blocks, BlockKind::Table, input, node.span, chain),
        MdKind::FrontMatter => push_span(blocks, BlockKind::FrontMatter, input, node.span, chain),
        MdKind::Code => push_span(blocks, BlockKind::CodeFence, input, node.span, chain),
        MdKind::Html => push_span(blocks, BlockKind::Html, input, node.span, chain),
        MdKind::List => {
            let ghost base = block_models(blocks@);
            let mut k: usize = 0;
            assert(block_models(blocks@) =~= base + list_item_blocks(node.children@, 0, utf8(input@), views(chain@)));
            while k < node.children.len()
                invariant
                    k <= node.children@.len(),
                    block_models(blocks@) == base + list_item_blocks(node.children@, k as int, utf8(input@), views(chain@)),
                decreases node.children@.len() - k,
            {
                let item = &node.children[k];
                let ghost before = block_models(blocks@);
                if item.kind == MdKind::ListItem {
                    push_span(blocks, BlockKind::ListItem, input, item.span, chain);
                }
                k = k + 1;
                assert(block_models(blocks@) =~= base + list_item_blocks(node.children@, k as int, utf8(input@), views(chain@)));
            }
        },
        _ => {
            assert(block_models(blocks@) =~= block_models(old(blocks)@) + node_blocks(*node, utf8(input@), views(chain@)));
        },
    }
}

/// The blocks of a parsed tree: each child of the root, in order, with the
/// heading chain built from the headings before it.
pub fn blocks_from_tree(tree: &Option<MdNode>, input: &str) -> (r: Vec<MarkdownBlock>)
    ensures
        block_models(r@) == blocks_of_tree(*tree, utf8(input@)),
{
    let mut blocks: Vec<MarkdownBlock> = Vec::new();
    match tree {
        Some(root) => {
            if root.kind != MdKind::Root {
                return blocks;
            }
            let nodes = &root.children;
            let mut chain: Vec<String> = Vec::new();
            let mut k: usize = 0;
            assert(block_models(blocks@) =~= top_blocks(nodes@, 0, utf8(input@)));
            assert(views(chain@) =~= chain_before(nodes@, 0));
            while k < nodes.len()
                invariant
                    k <= nodes@.len(),
                    block_models(blocks@) == top_blocks(nodes@, k as int, utf8(input@)),
                    views(chain@) == chain_before(nodes@, k as int),
                decreases nodes@.len() - k,
            {
                emit_blocks(&mut blocks, &nodes[k], input, &mut chain);
                k = k + 1;
            }
            blocks
        },
        None => {
            assert(block_models(blocks@) =~= Seq::<BlockModel>::empty());
            blocks
        },
    }
}

/// Parses a Markdown string into blocks with exact byte offsets, heading
/// chains and exclusion flags.
pub fn parse_markdown_blocks(input: &str) -> (r: Vec<MarkdownBlock>)
    ensures
        block_models(r@) == blocks_of_tree(markdown_tree_of(input@), utf8(input@)),
{
    let tree = markdown_tree(input);
    blocks_from_tree(&tree, input)
}


// ---------------------------------------------------------------------------
// What every block satisfies.

/// A block slices the source exactly: its offsets are character boundaries,
/// its text is the source between them, its hash is the stable hash of its
/// text, and it is excluded exactly when its kind is.
pub open spec fn slices_source(m: BlockModel, input: Seq<u8>) -> bool {
    &&& m.start <= m.end <= input.len()
    &&& is_char_boundary(input, m.start as int)
    &&& is_char_boundary(input, m.end as int)
    &&& utf8(m.text) == input.subrange(m.start as int, m.end as int)
    &&& m.block_hash == spec_stable_hash(m.text)
    &&& m.excluded == kind_is_excluded(m.kind)
}

pub open spec fn all_slice_source(ms: Seq<BlockModel>, input: Seq<u8>) -> bool {
    forall|k: int| 0 <= k < ms.len() ==> slices_source(#[trigger] ms[k], input)
}

proof fn lemma_concat_slices(a: Seq<BlockModel>, b: Seq<BlockModel>, input: Seq<u8>)
    requires
        all_slice_source(a, input),
        all_slice_source(b, input),
    ensures
        all_slice_source(a + b, input),
{
    assert forall|k: int| 0 <= k < (a + b).len() implies slices_source(#[trigger] (a + b)[k], input) by {
        if k < a.len() {
            assert((a + b)[k] == a[k]);
        } else {
            assert((a + b)[k] == b[k - a.len()]);
        }
    }
}

proof fn lemma_span_block_slices(kind: BlockKind, span: Option<(usize, usize)>, input: Seq<u8>, chain: Seq<Seq<char>>)
    requires
        valid_utf8(input),
    ensures
        all_slice_source(span_block(kind, span, input, chain), input),
{
    match span {
        Some((s, e)) => {
            if span_ok(input, span) {
                let sub = input.subrange(s as int, e as int);
                valid_utf8_split(input, s as int);
                let tail = input.subrange(s as int, input.len() as int);
                assert(is_char_boundary(tail, e - s)) by {
                    if e < input.len() {
                        is_char_boundary_iff_not_is_continuation_byte(input, e as int);
                        assert(tail[e - s] == input[e as int]);
                        is_char_boundary_iff_not_is_continuation_byte(tail, e - s);
                    } else {
                        is_char_boundary_start_end_of_seq(tail);
                        assert(tail.len() == e - s);
                    }
                }
                valid_utf8_split(tail, e - s);
                assert(tail.subrange(0, e - s) =~= sub);
                decode_utf8_encode_utf8(sub);
                let m = model_at(kind, s, e, input, chain);
                assert(span_block(kind, span, input, chain) == seq![m]);
                assert(slices_source(m, input));
            }
        },
        None => {},
    }
}

proof fn lemma_list_items_slice(items: Seq<MdNode>, k: int, input: Seq<u8>, chain: Seq<Seq<char>>)
    requires
        valid_utf8(input),
    ensures
        all_slice_source(list_item_blocks(items, k, input, chain), input),
    decreases k,
{
    if k > 0 && k <= items.len() {
        lemma_list_items_slice(items, k - 1, input, chain);
        lemma_span_block_slices(BlockKind::ListItem, items[k - 1].span, input, chain);
        lemma_concat_slices(
            list_item_blocks(items, k - 1, input, chain),
            if items[k - 1].kind == MdKind::ListItem {
                span_block(BlockKind::ListItem, items[k - 1].span, input, chain)
            } else {
                Seq::empty()
            },
            input,
        );
    }
}

proof fn lemma_top_blocks_slice(nodes: Seq<MdNode>, k: int, input: Seq<u8>)
    requires
        valid_utf8(input),
    ensures
        all_slice_source(top_blocks(nodes, k, input), input),
    decreases k,
{
    if k > 0 && k <= nodes.len() {
        lemma_top_blocks_slice(nodes, k - 1, input);
        let n = nodes[k - 1];
        let chain = chain_before(nodes, k - 1);
        match n.kind {
            MdKind::Heading => lemma_span_block_slices(BlockKind::Heading, n.span, input, chain),
            MdKind::Paragraph => lemma_span_block_slices(BlockKind::Paragraph, n.span, input, chain),
            MdKind::BlockQuote => lemma_span_block_slices(BlockKind::BlockQuote, n.span, input, chain),
            MdKind::Table => lemma_span_block_slices(BlockKind::Table, n.span, input, chain),
            MdKind::FrontMatter => lemma_span_block_slices(BlockKind::FrontMatter, n.span, input, chain),
            MdKind::Code => lemma_span_block_slices(BlockKind::CodeFence, n.span, input, chain),
            MdKind::Html => lemma_span_block_slices(BlockKind::Html, n.span, input, chain),
            MdKind::List => lemma_list_items_slice(n.children@, n.children@.len() as int, input, chain),
            _ => {},
        }
        lemma_concat_slices(top_blocks(nodes, k - 1, input), node_blocks(n, input, chain), input);
    }
}

/// Every block of a parsed source slices it exactly: its byte offsets are
/// character boundaries, its text is the source between them, its hash is
/// the stable hash of its text, and front matter, code and HTML are the
/// excluded kinds.
pub proof fn lemma_blocks_slice_source(tree: Option<MdNode>, input: Seq<char>)
    ensures
        all_slice_source(blocks_of_tree(tree, utf8(input)), utf8(input)),
{
    encode_utf8_valid_utf8(input);
    match tree {
        Some(root) => {
            if root.kind == MdKind::Root {
                lemma_top_blocks_slice(root.children@, root.children@.len() as int, utf8(input));
            }
        },
        None => {},
    }
}

} // verus!
