//! The outcome of an offload, and the text hint that tells the agent where a
//! discarded file went.
use vstd::prelude::*;
use vstd::string::*;
use crate::text::{chars_of, contains_chars, contains_seq, lemma_contains_at};

verus! {

/// The identifier that every offload hint carries.
pub const CAPABILITY_ID: &'static str = "discarded-file-offload";

/// At most this many offload hints are attached to one message.
pub const MAX_HINTS_PER_MESSAGE: usize = 10;

/// A block of content attached to a prompt.
#[derive(Debug, Clone)]
pub enum ContentBlock {
    Text { text: String },
    Image { mime_type: String, data: String },
    Audio { mime_type: String, data: String },
}

/// The contents of a `ContentBlock`.
pub enum ContentBlockView {
    Text { text: Seq<char> },
    Image { mime_type: Seq<char>, data: Seq<char> },
    Audio { mime_type: Seq<char>, data: Seq<char> },
}

impl View for ContentBlock {
    type V = ContentBlockView;

    open spec fn view(&self) -> ContentBlockView {
        match self {
            ContentBlock::Text { text } => ContentBlockView::Text { text: text@ },
            ContentBlock::Image { mime_type, data } => ContentBlockView::Image {
                mime_type: mime_type@,
                data: data@,
            },
            ContentBlock::Audio { mime_type, data } => ContentBlockView::Audio {
                mime_type: mime_type@,
                data: data@,
            },
        }
    }
}

/// The contents of the blocks, in order.
pub open spec fn blocks_view(bs: Seq<ContentBlock>) -> Seq<ContentBlockView> {
    bs.map_values(|b: ContentBlock| b@)
}

/// What became of one discarded file.
#[derive(Debug, Clone)]
pub struct OffloadResult {
    /// The sanitized file name.
    pub filename: String,
    /// Where the agent finds the file.
    pub working_path: String,
    /// The key of the object in the bucket.
    pub object_key: String,
    /// Whether the upload succeeded.
    pub uploaded: bool,
    /// Why the upload did not happen or failed.
    pub error: Option<String>,
}

/// The text of the hint for an offload of `filename`, found at `working_path`
/// and, when `uploaded`, stored under `object_key`.
pub open spec fn hint_text(
    filename: Seq<char>,
    working_path: Seq<char>,
    object_key: Seq<char>,
    uploaded: bool,
) -> Seq<char> {
    if uploaded {
        "["@ + CAPABILITY_ID@ + "] stored discarded file `"@ + filename + "` at `"@ + working_path
            + "` (object key: `"@ + object_key + "`)."@
    } else {
        "["@ + CAPABILITY_ID@ + "] failed to store discarded file `"@ + filename + "` at `"@
            + working_path + "`; continuing without offload."@
    }
}

/// The hint text for `r`.
pub open spec fn hint_of(r: OffloadResult) -> Seq<char> {
    hint_text(r.filename@, r.working_path@, r.object_key@, r.uploaded)
}

/// A text block that mentions the capability identifier.
pub open spec fn is_hint_block(b: ContentBlockView) -> bool {
    b matches ContentBlockView::Text { text } && contains_seq(text, CAPABILITY_ID@)
}

/// The number of hint blocks in `bs`.
pub open spec fn hint_count(bs: Seq<ContentBlockView>) -> nat
    decreases bs.len(),
{
    if bs.len() == 0 {
        0
    } else {
        hint_count(bs.drop_last()) + if is_hint_block(bs.last()) {
            1nat
        } else {
            0nat
        }
    }
}

/// `bs` holds a text block whose text is `t`.
pub open spec fn has_text_block(bs: Seq<ContentBlockView>, t: Seq<char>) -> bool {
    exists|k: int| 0 <= k < bs.len() && #[trigger] bs[k] == (ContentBlockView::Text { text: t })
}

/// `bs` after the hint `t` is offered: it is appended as a text block unless
/// `bs` already holds the maximum number of hints or a text block equal to it.
pub open spec fn with_hint(bs: Seq<ContentBlockView>, t: Seq<char>) -> Seq<ContentBlockView> {
    if hint_count(bs) >= MAX_HINTS_PER_MESSAGE as nat || has_text_block(bs, t) {
        bs
    } else {
        bs.push(ContentBlockView::Text { text: t })
    }
}

/// The hint text for `result`.
fn build_hint_text(result: &OffloadResult) -> (t: String)
    ensures
        t@ == hint_of(*result),
{
    let mut t = String::from_str("[");
    t.append(CAPABILITY_ID);
    if result.uploaded {
        t.append("] stored discarded file `");
        t.append(result.filename.as_str());
        t.append("` at `");
        t.append(result.working_path.as_str());
        t.append("` (object key: `");
        t.append(result.object_key.as_str());
        t.append("`).");
    } else {
        t.append("] failed to store discarded file `");
        t.append(result.filename.as_str());
        t.append("` at `");
        t.append(result.working_path.as_str());
        t.append("`; continuing without offload.");
    }
    t
}

/// The number of hint blocks in `blocks`.
fn count_hints(blocks: &Vec<ContentBlock>) -> (n: usize)
    ensures
        n == hint_count(blocks_view(blocks@)),
{
    let ghost bv = blocks_view(blocks@);
    let cap = chars_of(CAPABILITY_ID);
    let mut n: usize = 0;
    let mut i: usize = 0;
    assert(bv.take(0) =~= Seq::<ContentBlockView>::empty());
    while i < blocks.len()
        invariant
            i <= blocks@.len(),
            bv == blocks_view(blocks@),
            cap@ == CAPABILITY_ID@,
            n <= i,
            n == hint_count(bv.take(i as int)),
        decreases blocks@.len() - i,
    {
        assert(bv.take(i + 1).drop_last() =~= bv.take(i as int));
        assert(bv.take(i + 1).last() == blocks@[i as int]@);
        match &blocks[i] {
            ContentBlock::Text { text } => {
                let tv = chars_of(text.as_str());
                if contains_chars(&tv, &cap) {
                    n += 1;
                }
            },
            _ => {},
        }
        i += 1;
    }
    assert(bv.take(blocks@.len() as int) =~= bv);
    n
}

/// Whether `blocks` holds a text block whose text is `text`.
fn holds_text(blocks: &Vec<ContentBlock>, text: &String) -> (b: bool)
    ensures
        b == has_text_block(blocks_view(blocks@), text@),
{
    let ghost bv = blocks_view(blocks@);
    let mut i: usize = 0;
    while i < blocks.len()
        invariant
            i <= blocks@.len(),
            bv == blocks_view(blocks@),
            forall|k: int| 0 <= k < i ==> #[trigger] bv[k] != (ContentBlockView::Text { text: text@ }),
        decreases blocks@.len() - i,
    {
        assert(bv[i as int] == blocks@[i as int]@);
        match &blocks[i] {
            ContentBlock::Text { text: existing } => {
                if *existing == *text {
                    return true;
                }
            },
            _ => {},
        }
        i += 1;
    }
    false
}

/// Adds to `extra_blocks` a text block that tells where the file of `result`
/// went. Nothing is added when the blocks already hold the maximum number of
/// offload hints, or a text block with the same text.
pub fn append_hint_block(extra_blocks: &mut Vec<ContentBlock>, result: OffloadResult)
    ensures
        blocks_view(final(extra_blocks)@) == with_hint(
            blocks_view(old(extra_blocks)@),
            hint_of(result),
        ),
{
    let existing = count_hints(extra_blocks);
    if existing >= MAX_HINTS_PER_MESSAGE {
        return ;
    }
    let text = build_hint_text(&result);
    if !holds_text(extra_blocks, &text) {
        let ghost before = blocks_view(extra_blocks@);
        extra_blocks.push(ContentBlock::Text { text });
        assert(blocks_view(extra_blocks@) =~= before.push(
            ContentBlockView::Text { text: hint_of(result) },
        ));
    }
}

/// Offering the same hint twice leaves the blocks as offering it once: a hint
/// is never duplicated.
pub proof fn lemma_with_hint_idempotent(bs: Seq<ContentBlockView>, t: Seq<char>)
    ensures
        with_hint(with_hint(bs, t), t) == with_hint(bs, t),
{
    let once = with_hint(bs, t);
    if once != bs {
        assert(once[bs.len() as int] == (ContentBlockView::Text { text: t }));
        assert(has_text_block(once, t));
    }
}

/// Offering a hint never takes the number of hints past the maximum: blocks
/// that hold at most the maximum still do afterwards.
pub proof fn lemma_hint_count_capped(bs: Seq<ContentBlockView>, t: Seq<char>)
    requires
        hint_count(bs) <= MAX_HINTS_PER_MESSAGE,
    ensures
        hint_count(with_hint(bs, t)) <= MAX_HINTS_PER_MESSAGE,
{
    let after = with_hint(bs, t);
    if after != bs {
        assert(after.drop_last() =~= bs);
    }
}

/// The hint for an offload names the capability, the file name and the
/// working path, and, for an upload that succeeded, the object key.
pub proof fn lemma_hint_mentions(r: OffloadResult)
    ensures
        contains_seq(hint_of(r), CAPABILITY_ID@),
        contains_seq(hint_of(r), r.filename@),
        contains_seq(hint_of(r), r.working_path@),
        r.uploaded ==> contains_seq(hint_of(r), r.object_key@),
{
    let h = hint_of(r);
    let open = "["@;
    let cap = CAPABILITY_ID@;
    let f = r.filename@;
    let w = r.working_path@;
    let k = r.object_key@;
    let at = "` at `"@;
    let lead = if r.uploaded {
        "] stored discarded file `"@
    } else {
        "] failed to store discarded file `"@
    };
    lemma_contains_at(h, cap, open.len() as int);
    let fi: int = open.len() as int + cap.len() + lead.len();
    lemma_contains_at(h, f, fi);
    let wi: int = fi + f.len() + at.len();
    lemma_contains_at(h, w, wi);
    if r.uploaded {
        let ki: int = wi + w.len() + "` (object key: `"@.len();
        lemma_contains_at(h, k, ki);
    }
}

/// Offering the hint for an offload to blocks that hold fewer than the
/// maximum number of hints and no equal text adds exactly one hint.
pub proof fn lemma_offered_hint_counts(bs: Seq<ContentBlockView>, r: OffloadResult)
    requires
        hint_count(bs) < MAX_HINTS_PER_MESSAGE,
        !has_text_block(bs, hint_of(r)),
    ensures
        hint_count(with_hint(bs, hint_of(r))) == hint_count(bs) + 1,
{
    lemma_hint_mentions(r);
    let after = with_hint(bs, hint_of(r));
    assert(after.drop_last() =~= bs);
}

/// A hint whose text some block already holds, at any position, is not added
/// again: the blocks stay as they are.
pub proof fn lemma_held_hint_not_added(bs: Seq<ContentBlockView>, t: Seq<char>, k: int)
    requires
        0 <= k < bs.len(),
        bs[k] == (ContentBlockView::Text { text: t }),
    ensures
        with_hint(bs, t) == bs,
{
    assert(has_text_block(bs, t));
}

/// A hint that no block holds, offered to blocks with fewer than the maximum
/// number of hints, is appended after them as a text block.
pub proof fn lemma_new_hint_appended(bs: Seq<ContentBlockView>, t: Seq<char>)
    requires
        hint_count(bs) < MAX_HINTS_PER_MESSAGE,
        forall|k: int| 0 <= k < bs.len() ==> bs[k] != (ContentBlockView::Text { text: t }),
    ensures
        with_hint(bs, t) == bs.push(ContentBlockView::Text { text: t }),
{
}

/// Only text blocks that mention the capability identifier count as hints:
/// appending any other block leaves the count as it is, and appending one
/// such text block raises it by one.
pub proof fn lemma_what_counts_as_hint(bs: Seq<ContentBlockView>, b: ContentBlockView)
    ensures
        (b matches ContentBlockView::Text { text } && contains_seq(text, CAPABILITY_ID@))
            ==> hint_count(bs.push(b)) == hint_count(bs) + 1,
        !(b matches ContentBlockView::Text { text } && contains_seq(text, CAPABILITY_ID@))
            ==> hint_count(bs.push(b)) == hint_count(bs),
{
    assert(bs.push(b).drop_last() =~= bs);
}

} // verus!
