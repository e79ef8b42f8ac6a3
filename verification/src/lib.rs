use vstd::prelude::*;
use vstd::string::StringExecFns;

pub mod block;
pub mod button;
pub mod color;
pub mod occurrences;

use crate::block::Block;
use crate::block::BlockPosition;
use crate::block::block_text;
use crate::block::position_text;
use crate::block::lemma_block_no_align_token;
use crate::block::lemma_position_text_shape;
use crate::occurrences::match_at;
use crate::occurrences::occurrences;
use crate::occurrences::percent_free;
use crate::occurrences::lemma_occurrences_concat_right;
use crate::occurrences::lemma_occurrences_none;
use crate::occurrences::lemma_occurrences_self;

verus! {

/// The full bar: an ordered collection of blocks, regrouped by alignment at
/// serialization time into the lemonbar escape format.
pub struct Bar {
    /// The blocks, in display order within each alignment group.
    pub blocks: Vec<Block>,
}

/// The texts of the blocks of one alignment group, in original relative
/// order: grouping keeps the input order and only drops the other blocks.
pub open spec fn group_text(blocks: Seq<Block>, p: BlockPosition) -> Seq<char>
    decreases blocks.len(),
{
    if blocks.len() == 0 {
        Seq::empty()
    } else if blocks.last().align == p {
        group_text(blocks.drop_last(), p) + block_text(blocks.last())
    } else {
        group_text(blocks.drop_last(), p)
    }
}

/// The text form of a bar: for each alignment in the canonical order left,
/// center, right, the alignment's token followed by its group's blocks.
pub open spec fn bar_text(b: Bar) -> Seq<char> {
    position_text(BlockPosition::Left) + group_text(b.blocks@, BlockPosition::Left)
        + position_text(BlockPosition::Center) + group_text(b.blocks@, BlockPosition::Center)
        + position_text(BlockPosition::Right) + group_text(b.blocks@, BlockPosition::Right)
}

/// The concatenated texts of a sequence of blocks, in order.
pub open spec fn blocks_texts(blocks: Seq<Block>) -> Seq<char>
    decreases blocks.len(),
{
    if blocks.len() == 0 {
        Seq::empty()
    } else {
        blocks_texts(blocks.drop_last()) + block_text(blocks.last())
    }
}

/// The predicate selecting the blocks of one alignment group.
pub open spec fn has_align(p: BlockPosition) -> spec_fn(Block) -> bool {
    |b: Block| b.align == p
}

/// One alignment's token followed by the texts of its blocks, in original
/// relative order.
fn aligned_text(blocks: &Vec<Block>, p: BlockPosition) -> (r: String)
    ensures
        r@ == position_text(p) + group_text(blocks@, p),
{
    let mut s = p.to_text();
    proof {
        assert(blocks@.take(0) =~= Seq::<Block>::empty());
        assert(s@ =~= position_text(p) + group_text(blocks@.take(0), p));
    }
    let mut i: usize = 0;
    while i < blocks.len()
        invariant
            i <= blocks.len(),
            s@ == position_text(p) + group_text(blocks@.take(i as int), p),
        decreases blocks.len() - i,
    {
        let b = &blocks[i];
        if b.align == p {
            let t = b.to_text();
            s.append(t.as_str());
        }
        proof {
            assert(blocks@.take(i as int + 1).drop_last() =~= blocks@.take(i as int));
            assert(blocks@.take(i as int + 1).last() == blocks@[i as int]);
        }
        i = i + 1;
    }
    proof {
        assert(blocks@.take(blocks@.len() as int) =~= blocks@);
    }
    s
}

impl Bar {
    /// Serialize the bar: for each alignment in the canonical order left,
    /// center, right, its token and then, in original relative order, the
    /// text of every block aligned there. An empty bar still yields all
    /// three tokens.
    pub fn to_text(&self) -> (r: String)
        ensures
            r@ == bar_text(*self),
    {
        let mut s = aligned_text(&self.blocks, BlockPosition::Left);
        let center = aligned_text(&self.blocks, BlockPosition::Center);
        s.append(center.as_str());
        let right = aligned_text(&self.blocks, BlockPosition::Right);
        s.append(right.as_str());
        proof {
            assert(s@ =~= bar_text(*self));
        }
        s
    }
}

/// Appending one block to a sequence appends its text to the concatenation.
proof fn lemma_blocks_texts_push(blocks: Seq<Block>, b: Block)
    ensures
        blocks_texts(blocks.push(b)) == blocks_texts(blocks) + block_text(b),
{
    assert(blocks.push(b).drop_last() =~= blocks);
    assert(blocks.push(b).last() == b);
}

/// Law: grouping is a stable filter. One alignment group's portion of the
/// output is the concatenation of the texts of exactly the blocks with that
/// alignment, in their original relative order in the input collection.
pub proof fn lemma_group_is_stable_filter(blocks: Seq<Block>, p: BlockPosition)
    ensures
        group_text(blocks, p) == blocks_texts(blocks.filter(has_align(p))),
    decreases blocks.len(),
{
    reveal(Seq::filter);
    if blocks.len() == 0 {
        assert(blocks.filter(has_align(p)) =~= blocks);
    } else {
        lemma_group_is_stable_filter(blocks.drop_last(), p);
        if has_align(p)(blocks.last()) {
            lemma_blocks_texts_push(blocks.drop_last().filter(has_align(p)), blocks.last());
        }
    }
}

/// Law: a bar's text always holds the three alignment tokens in the order
/// left, center, right, whatever the blocks are, and each token is followed
/// by exactly its own group's blocks, in their original relative order.
pub proof fn lemma_bar_shape(bar: Bar)
    ensures
        bar_text(bar) == position_text(BlockPosition::Left) + blocks_texts(
            bar.blocks@.filter(has_align(BlockPosition::Left)),
        ) + position_text(BlockPosition::Center) + blocks_texts(
            bar.blocks@.filter(has_align(BlockPosition::Center)),
        ) + position_text(BlockPosition::Right) + blocks_texts(
            bar.blocks@.filter(has_align(BlockPosition::Right)),
        ),
{
    lemma_group_is_stable_filter(bar.blocks@, BlockPosition::Left);
    lemma_group_is_stable_filter(bar.blocks@, BlockPosition::Center);
    lemma_group_is_stable_filter(bar.blocks@, BlockPosition::Right);
}

/// A non-empty alignment group's text begins with `%`.
proof fn lemma_group_text_head(blocks: Seq<Block>, p: BlockPosition)
    ensures
        group_text(blocks, p).len() == 0 || group_text(blocks, p)[0] == '%',
    decreases blocks.len(),
{
    if blocks.len() > 0 {
        lemma_group_text_head(blocks.drop_last(), p);
        if blocks.last().align == p {
            assert(block_text(blocks.last())[0] == '%');
        }
    }
}

/// One alignment's token occurs exactly once in its own token and never in
/// another alignment's token.
proof fn lemma_position_token_occurrences(p: BlockPosition, q: BlockPosition)
    ensures
        occurrences(position_text(q), position_text(p)) == if p == q {
            1nat
        } else {
            0nat
        },
{
    lemma_position_text_shape(p);
    lemma_position_text_shape(q);
    if p == q {
        lemma_occurrences_self(position_text(p));
    } else {
        assert forall|i: int| !match_at(position_text(q), position_text(p), i) by {
            if match_at(position_text(q), position_text(p), i) {
                assert(position_text(q).subrange(i, i + 4) =~= position_text(q));
            }
        }
        lemma_occurrences_none(position_text(q), position_text(p));
    }
}

/// An alignment group's text holds no occurrence of any alignment token
/// when no block's icon or text holds `%`.
proof fn lemma_group_no_align_token(blocks: Seq<Block>, q: BlockPosition, p: BlockPosition)
    requires
        forall|i: int|
            0 <= i < blocks.len() ==> percent_free((#[trigger] blocks[i]).icon@) && percent_free(
                blocks[i].text@,
            ),
    ensures
        occurrences(group_text(blocks, q), position_text(p)) == 0,
    decreases blocks.len(),
{
    lemma_position_text_shape(p);
    if blocks.len() > 0 {
        assert forall|i: int| 0 <= i < blocks.drop_last().len() implies percent_free(
            (#[trigger] blocks.drop_last()[i]).icon@,
        ) && percent_free(blocks.drop_last()[i].text@) by {
            assert(blocks.drop_last()[i] == blocks[i]);
            assert(percent_free(blocks[i].icon@) && percent_free(blocks[i].text@));
        }
        lemma_group_no_align_token(blocks.drop_last(), q, p);
        if blocks.last().align == q {
            assert(blocks.last() == blocks[blocks.len() - 1]);
            assert(percent_free(blocks[blocks.len() - 1].icon@) && percent_free(
                blocks[blocks.len() - 1].text@,
            ));
            lemma_block_no_align_token(blocks.last(), p);
            assert(block_text(blocks.last())[0] == '%');
            lemma_occurrences_concat_right(
                group_text(blocks.drop_last(), q),
                block_text(blocks.last()),
                position_text(p),
            );
        }
    }
}

/// Law: when no block's icon or text holds the escape character `%`, each
/// of the three alignment tokens `%{l}`, `%{c}`, `%{r}` occurs exactly once
/// in the bar's text, whatever the blocks are; `lemma_bar_shape` places the
/// three in the order left, center, right.
pub proof fn lemma_bar_alignment_token_once(bar: Bar, p: BlockPosition)
    requires
        forall|i: int|
            0 <= i < bar.blocks@.len() ==> percent_free((#[trigger] bar.blocks@[i]).icon@)
                && percent_free(bar.blocks@[i].text@),
    ensures
        occurrences(bar_text(bar), position_text(p)) == 1,
{
    let n = position_text(p);
    lemma_position_text_shape(p);
    lemma_position_text_shape(BlockPosition::Left);
    lemma_position_text_shape(BlockPosition::Center);
    lemma_position_text_shape(BlockPosition::Right);
    let pl = position_text(BlockPosition::Left);
    let pc = position_text(BlockPosition::Center);
    let pr = position_text(BlockPosition::Right);
    let gl = group_text(bar.blocks@, BlockPosition::Left);
    let gc = group_text(bar.blocks@, BlockPosition::Center);
    let gr = group_text(bar.blocks@, BlockPosition::Right);
    lemma_group_text_head(bar.blocks@, BlockPosition::Left);
    lemma_group_text_head(bar.blocks@, BlockPosition::Center);
    lemma_group_text_head(bar.blocks@, BlockPosition::Right);
    let b1 = pl + gl;
    let b2 = b1 + pc;
    let b3 = b2 + gc;
    let b4 = b3 + pr;
    assert(bar_text(bar) == b4 + gr);
    lemma_occurrences_concat_right(b4, gr, n);
    lemma_occurrences_concat_right(b3, pr, n);
    lemma_occurrences_concat_right(b2, gc, n);
    lemma_occurrences_concat_right(b1, pc, n);
    lemma_occurrences_concat_right(pl, gl, n);
    lemma_position_token_occurrences(p, BlockPosition::Left);
    lemma_position_token_occurrences(p, BlockPosition::Center);
    lemma_position_token_occurrences(p, BlockPosition::Right);
    lemma_group_no_align_token(bar.blocks@, BlockPosition::Left, p);
    lemma_group_no_align_token(bar.blocks@, BlockPosition::Center, p);
    lemma_group_no_align_token(bar.blocks@, BlockPosition::Right, p);
}

} // verus!
