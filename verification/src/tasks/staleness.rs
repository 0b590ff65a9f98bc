//! Stale checks for finished tasks: whole-file for ordinary tasks and
//! line-granular for inline commands.

use vstd::prelude::*;
use vstd::utf8::*;

use crate::pipeline::blocks::MarkdownBlock;
use crate::pipeline::hash::{spec_stable_hash, stable_hash};
use crate::pipeline::markdown::{block_models, blocks_of_tree, markdown_tree_of, parse_markdown_blocks, BlockModel};
use crate::pipeline::slash::{is_line, lemma_line_end_unique, line_parse, parse_slash_command_in_line};
use crate::text::{lemma_ascii_boundary, lemma_boundary_after_ascii, slice_str, str_eq, utf8};

verus! {

/// Whether a read of the file makes a whole-file result stale: an unreadable
/// file does, and so does content whose hash differs from the submitted one.
pub open spec fn stale_after_read(read: Result<String, ()>, submitted_hash: Seq<char>) -> bool {
    match read {
        Err(_) => true,
        Ok(content) => spec_stable_hash(content@) != submitted_hash,
    }
}

/// Whether a result is stale. Without a file path it cannot be checked and
/// counts as fresh; otherwise the file is read with `read_file` and the
/// result is stale when the read fails or the content's hash differs from
/// the submitted source hash.
pub fn is_result_stale<F: Fn(&str) -> Result<String, ()>>(
    file_path: Option<&str>,
    submitted_source_hash: &str,
    read_file: F,
) -> (r: bool)
    requires
        forall|p: &str| read_file.requires((p,)),
    ensures
        match file_path {
            None => !r,
            Some(p) => exists|read: Result<String, ()>|
                read_file.ensures((p,), read) && r == stale_after_read(read, submitted_source_hash@),
        },
{
    match file_path {
        None => false,
        Some(path) => {
            let read = read_file(path);
            let r = match &read {
                Err(_) => true,
                Ok(content) => {
                    let hash = stable_hash(content.as_str());
                    !str_eq(hash.as_str(), submitted_source_hash)
                },
            };
            assert(r == stale_after_read(read, submitted_source_hash@));
            r
        },
    }
}

/// `b[s..e]` is a line of `b` that holds a command and whose raw text
/// hashes to `line_hash`.
pub open spec fn is_hashed_command_line(b: Seq<u8>, s: int, e: int, line_hash: Seq<char>) -> bool {
    &&& is_line(b, s, e)
    &&& line_parse(b.subrange(s, e)) is Some
    &&& spec_stable_hash(decode_utf8(b.subrange(s, e))) == line_hash
}

/// Some line of one of a text's blocks, not excluded, holds a command and
/// hashes to `line_hash`; which other lines of the block hold commands does
/// not matter.
pub open spec fn holds_command_line(models: Seq<BlockModel>, line_hash: Seq<char>) -> bool {
    exists|k: int, s: int, e: int|
        0 <= k < models.len() && !models[k].excluded
            && #[trigger] is_hashed_command_line(utf8(models[k].text), s, e, line_hash)
}

/// Whether a read of the file makes an inline result stale: an unreadable
/// file does, and so does content none of whose blocks has a command line
/// with the submitted hash.
pub open spec fn inline_stale_after_read(read: Result<String, ()>, line_hash: Seq<char>) -> bool {
    match read {
        Err(_) => true,
        Ok(content) => !holds_command_line(
            blocks_of_tree(markdown_tree_of(content@), utf8(content@)),
            line_hash,
        ),
    }
}

/// Whether some line of a block's text holds a command and hashes to
/// `line_hash`; every line is looked at, not only the first command line.
fn block_has_hashed_command_line(text: &str, line_hash: &str) -> (r: bool)
    ensures
        r == exists|s: int, e: int| is_hashed_command_line(utf8(text@), s, e, line_hash@),
{
    let b = text.as_bytes();
    let ghost bb = utf8(text@);
    proof {
        encode_utf8_valid_utf8(text@);
    }
    let mut ls: usize = 0;
    while ls < b.len()
        invariant
            b@ == bb,
            bb == utf8(text@),
            valid_utf8(bb),
            ls <= b.len(),
            ls == 0 || b@[ls - 1] == 10,
            is_char_boundary(bb, ls as int),
            forall|s: int, e: int| s < ls ==> !is_hashed_command_line(bb, s, e, line_hash@),
        decreases b.len() - ls,
    {
        let mut le = ls;
        while le < b.len() && b[le] != 10
            invariant
                ls <= le <= b.len(),
                b@ == bb,
                forall|k: int| ls <= k < le ==> bb[k] != 10,
            decreases b.len() - le,
        {
            le = le + 1;
        }
        proof {
            lemma_ascii_boundary(bb, le as int);
        }
        let line = slice_str(text, ls, le);
        assert(is_line(bb, ls as int, le as int));
        if parse_slash_command_in_line(line).is_some() {
            let hash = stable_hash(line);
            if str_eq(hash.as_str(), line_hash) {
                assert(is_hashed_command_line(bb, ls as int, le as int, line_hash@));
                return true;
            }
        }
        proof {
            assert forall|s: int, e: int| s < le + 1 implies !is_hashed_command_line(bb, s, e, line_hash@) by {
                if s == ls && is_line(bb, s, e) {
                    lemma_line_end_unique(bb, s, e, le as int);
                } else if s > ls && s <= le && is_line(bb, s, e) {
                    assert(bb[s - 1] != 10);
                }
            }
        }
        if le >= b.len() {
            proof {
                assert forall|s: int, e: int| !is_hashed_command_line(bb, s, e, line_hash@) by {
                    if s > le {
                        assert(!is_line(bb, s, e));
                    }
                }
            }
            return false;
        }
        proof {
            lemma_boundary_after_ascii(bb, le as int);
        }
        ls = le + 1;
    }
    proof {
        assert(ls == bb.len());
        assert forall|s: int, e: int| !is_hashed_command_line(bb, s, e, line_hash@) by {
            if s >= ls {
                assert(!is_line(bb, s, e));
            }
        }
    }
    false
}

/// Whether the content has a non-excluded block with a command line that
/// hashes to `line_hash`.
fn command_line_present(content: &str, line_hash: &str) -> (r: bool)
    ensures
        r == holds_command_line(blocks_of_tree(markdown_tree_of(content@), utf8(content@)), line_hash@),
{
    let blocks = parse_markdown_blocks(content);
    let ghost models = block_models(blocks@);
    let mut k: usize = 0;
    while k < blocks.len()
        invariant
            k <= blocks@.len(),
            models == block_models(blocks@),
            models == blocks_of_tree(markdown_tree_of(content@), utf8(content@)),
            forall|j: int, s: int, e: int|
                0 <= j < k && !models[j].excluded ==> !#[trigger] is_hashed_command_line(
                    utf8(models[j].text),
                    s,
                    e,
                    line_hash@,
                ),
        decreases blocks@.len() - k,
    {
        let block = &blocks[k];
        assert(models[k as int] == crate::pipeline::markdown::block_model(blocks@[k as int]));
        if !block.excluded {
            if block_has_hashed_command_line(block.text.as_str(), line_hash) {
                let ghost (s, e) = choose|s: int, e: int| is_hashed_command_line(utf8(block.text@), s, e, line_hash@);
                assert(is_hashed_command_line(utf8(models[k as int].text), s, e, line_hash@));
                return true;
            }
        }
        k = k + 1;
    }
    false
}

/// Whether an inline command result is stale. Without a file path it counts
/// as fresh; otherwise the file is read with `read_file`, and the result is
/// stale when the read fails or no line of a non-excluded block of the
/// content both holds a command and has raw text hashing to
/// `line_text_hash`. Every line of a block counts, so edits to sibling lines
/// (adding a command to one among them) or to other blocks leave it fresh.
pub fn is_inline_result_stale<F: Fn(&str) -> Result<String, ()>>(
    file_path: Option<&str>,
    line_text_hash: &str,
    read_file: F,
) -> (r: bool)
    requires
        forall|p: &str| read_file.requires((p,)),
    ensures
        match file_path {
            None => !r,
            Some(p) => exists|read: Result<String, ()>|
                read_file.ensures((p,), read) && r == inline_stale_after_read(read, line_text_hash@),
        },
{
    match file_path {
        None => false,
        Some(path) => {
            let read = read_file(path);
            let r = match &read {
                Err(_) => true,
                Ok(content) => !command_line_present(content.as_str(), line_text_hash),
            };
            assert(r == inline_stale_after_read(read, line_text_hash@));
            r
        },
    }
}

/// An inline result keyed on a command line `L` stays fresh through edits
/// to sibling lines of its block and to other blocks: where `L` is a command
/// line with the submitted hash in the old content's block `k`, and the
/// edited content's block `k` is still not excluded and still holds the same
/// bytes of `L` as one of its lines, the result is fresh before and after
/// the edit, whatever else changed.
pub proof fn lemma_sibling_edits_keep_inline_fresh(
    before: String,
    after: String,
    line_hash: Seq<char>,
    k: int,
    s: int,
    e: int,
    s2: int,
    e2: int,
)
    requires
        0 <= k < blocks_of_tree(markdown_tree_of(before@), utf8(before@)).len(),
        0 <= k < blocks_of_tree(markdown_tree_of(after@), utf8(after@)).len(),
        !blocks_of_tree(markdown_tree_of(before@), utf8(before@))[k].excluded,
        !blocks_of_tree(markdown_tree_of(after@), utf8(after@))[k].excluded,
        is_hashed_command_line(utf8(blocks_of_tree(markdown_tree_of(before@), utf8(before@))[k].text), s, e, line_hash),
        is_line(utf8(blocks_of_tree(markdown_tree_of(after@), utf8(after@))[k].text), s2, e2),
        utf8(blocks_of_tree(markdown_tree_of(after@), utf8(after@))[k].text).subrange(s2, e2)
            == utf8(blocks_of_tree(markdown_tree_of(before@), utf8(before@))[k].text).subrange(s, e),
    ensures
        !inline_stale_after_read(Ok::<String, ()>(before), line_hash),
        !inline_stale_after_read(Ok::<String, ()>(after), line_hash),
{
    let m1 = blocks_of_tree(markdown_tree_of(before@), utf8(before@));
    let m2 = blocks_of_tree(markdown_tree_of(after@), utf8(after@));
    assert(is_hashed_command_line(utf8(m1[k].text), s, e, line_hash));
    assert(is_hashed_command_line(utf8(m2[k].text), s2, e2, line_hash));
}

} // verus!
