use vstd::prelude::*;
use vstd::string::StringExecFns;
use crate::color::Color;
use crate::color::color_text;
use crate::color::lemma_color_text_percent_free;
use crate::occurrences::match_at;
use crate::occurrences::occurrences;
use crate::occurrences::percent_free;
use crate::occurrences::lemma_occurrences_concat_left;
use crate::occurrences::lemma_occurrences_concat_right;
use crate::occurrences::lemma_occurrences_none;
use crate::occurrences::lemma_occurrences_none_without_head;
use crate::occurrences::lemma_occurrences_short;

verus! {

/// Where the renderer positions a block: one of the three horizontal
/// alignment groups. The canonical order left, center, right determines the
/// output order of the groups.
#[derive(PartialEq, Eq, Structural, Clone, Copy, Debug)]
pub enum BlockPosition {
    Left,
    Center,
    Right,
}

/// One styled segment of the bar: an alignment tag, optional background and
/// foreground colors, an icon (possibly empty) and a text payload.
pub struct Block {
    /// Where to align the block.
    pub align: BlockPosition,
    /// Background color; absent means "restore/inherit".
    pub bg_color: Option<Color>,
    /// Foreground color; absent means "restore/inherit".
    pub fg_color: Option<Color>,
    /// Printed on the left of `text`, separated by one space when non-empty.
    pub icon: String,
    /// Main content of the block; may itself be a serialized `Button`.
    pub text: String,
}

/// The escape token of an alignment group.
pub open spec fn position_text(p: BlockPosition) -> Seq<char> {
    match p {
        BlockPosition::Left => seq!['%', '{', 'l', '}'],
        BlockPosition::Center => seq!['%', '{', 'c', '}'],
        BlockPosition::Right => seq!['%', '{', 'r', '}'],
    }
}

/// A block's visible content: the text alone when the icon is empty, else
/// the icon, one space, then the text.
pub open spec fn block_content(b: Block) -> Seq<char> {
    if b.icon@.len() == 0 {
        b.text@
    } else {
        b.icon@ + seq![' '] + b.text@
    }
}

/// The value of a color scope: the color's hex text when present, else the
/// literal `-`, meaning "restore/inherit".
pub open spec fn color_field_text(c: Option<Color>) -> Seq<char> {
    match c {
        Some(color) => color_text(color),
        None => seq!['-'],
    }
}

/// The text form of a block: a background scope, a foreground scope, the
/// content, then the two scopes closed in LIFO order, foreground first.
pub open spec fn block_text(b: Block) -> Seq<char> {
    seq!['%', '{', 'B'] + color_field_text(b.bg_color) + seq!['}', '%', '{', 'F']
        + color_field_text(b.fg_color) + seq!['}'] + block_content(b) + seq![
        '%',
        '{',
        'F',
        '-',
        '}',
        '%',
        '{',
        'B',
        '-',
        '}',
    ]
}

impl BlockPosition {
    /// All alignments, in the canonical output order left, center, right.
    pub fn iter() -> (r: Vec<BlockPosition>)
        ensures
            r@ == seq![BlockPosition::Left, BlockPosition::Center, BlockPosition::Right],
    {
        let mut v: Vec<BlockPosition> = Vec::new();
        v.push(BlockPosition::Left);
        v.push(BlockPosition::Center);
        v.push(BlockPosition::Right);
        proof {
            assert(v@ =~= seq![BlockPosition::Left, BlockPosition::Center, BlockPosition::Right]);
        }
        v
    }

    /// Serialize the alignment to its escape token.
    pub fn to_text(&self) -> (r: String)
        ensures
            r@ == position_text(*self),
    {
        proof {
            reveal_strlit("%{l}");
            reveal_strlit("%{c}");
            reveal_strlit("%{r}");
        }
        let r = match *self {
            BlockPosition::Left => String::from_str("%{l}"),
            BlockPosition::Center => String::from_str("%{c}"),
            BlockPosition::Right => String::from_str("%{r}"),
        };
        proof {
            assert(r@ =~= position_text(*self));
        }
        r
    }
}

/// Append one color scope value: the color's hex text, or `-` when absent.
fn append_color_field(s: &mut String, c: &Option<Color>)
    ensures
        final(s)@ == old(s)@ + color_field_text(*c),
{
    match c {
        Some(color) => {
            let t = color.to_text();
            s.append(t.as_str());
        },
        None => {
            s.append("-");
            proof {
                reveal_strlit("-");
                assert(s@ =~= old(s)@ + seq!['-']);
            }
        },
    }
}

impl Block {
    /// Serialize the block:
    /// `%{B<bg>}%{F<fg>}<content>%{F-}%{B-}`, where an absent color is `-`
    /// and the content is the icon and text joined by one space, or the
    /// text alone when the icon is empty.
    pub fn to_text(&self) -> (r: String)
        ensures
            r@ == block_text(*self),
    {
        let mut s = String::new();
        s.append("%{B");
        append_color_field(&mut s, &self.bg_color);
        s.append("}%{F");
        append_color_field(&mut s, &self.fg_color);
        s.append("}");
        if self.icon.as_str().is_empty() {
            s.append(self.text.as_str());
        } else {
            s.append(self.icon.as_str());
            s.append(" ");
            s.append(self.text.as_str());
        }
        s.append("%{F-}%{B-}");
        proof {
            reveal_strlit("%{B");
            reveal_strlit("}%{F");
            reveal_strlit("}");
            reveal_strlit(" ");
            reveal_strlit("%{F-}%{B-}");
            assert(s@ =~= block_text(*self));
        }
        s
    }
}

/// Law: a block's content is the text alone, with no separating space, when
/// the icon is empty, and the icon, exactly one space, then the text when it
/// is not.
pub proof fn lemma_block_content(b: Block)
    ensures
        b.icon@.len() == 0 ==> block_content(b) == b.text@,
        b.icon@.len() > 0 ==> block_content(b) == b.icon@ + seq![' '] + b.text@,
{
}

/// Law: an absent background or foreground color appears as the literal `-`
/// in place of a hex value, inside its scope of the block's text.
pub proof fn lemma_absent_color_is_dash(b: Block)
    ensures
        b.bg_color is None ==> color_field_text(b.bg_color) == seq!['-'],
        b.fg_color is None ==> color_field_text(b.fg_color) == seq!['-'],
        block_text(b) == seq!['%', '{', 'B'] + color_field_text(b.bg_color) + seq![
            '}',
            '%',
            '{',
            'F',
        ] + color_field_text(b.fg_color) + seq!['}'] + block_content(b) + seq![
            '%',
            '{',
            'F',
            '-',
            '}',
            '%',
            '{',
            'B',
            '-',
            '}',
        ],
{
}

/// An alignment token is four characters: `%`, `{`, the group's letter,
/// `}`; only its head is `%`.
pub proof fn lemma_position_text_shape(p: BlockPosition)
    ensures
        position_text(p).len() == 4,
        position_text(p)[0] == '%',
        position_text(p)[1] == '{',
        position_text(p)[2] == 'l' || position_text(p)[2] == 'c' || position_text(p)[2] == 'r',
        position_text(p)[3] == '}',
{
}

/// A color scope value never holds `%`, is never empty, and begins with
/// `#` or `-`.
proof fn lemma_color_field_shape(c: Option<Color>)
    ensures
        percent_free(color_field_text(c)),
        color_field_text(c).len() >= 1,
        color_field_text(c)[0] == '#' || color_field_text(c)[0] == '-',
{
    match c {
        Some(color) => {
            lemma_color_text_percent_free(color);
            assert(color_text(color)[0] == '#');
        },
        None => {},
    }
}

/// A block's content holds no `%` when its icon and text hold none.
proof fn lemma_block_content_percent_free(b: Block)
    requires
        percent_free(b.icon@),
        percent_free(b.text@),
    ensures
        percent_free(block_content(b)),
{
    if b.icon@.len() > 0 {
        assert forall|i: int| 0 <= i < block_content(b).len() implies block_content(b)[i]
            != '%' by {
            assert(block_content(b) == b.icon@ + seq![' '] + b.text@);
        }
    }
}

/// A block's text holds no occurrence of any alignment token when its icon
/// and text hold no `%`: the styling tokens it emits never spell one out.
pub proof fn lemma_block_no_align_token(b: Block, p: BlockPosition)
    requires
        percent_free(b.icon@),
        percent_free(b.text@),
    ensures
        occurrences(block_text(b), position_text(p)) == 0,
{
    let n = position_text(p);
    lemma_position_text_shape(p);
    let s1 = seq!['%', '{', 'B'];
    let s2 = seq!['}', '%', '{', 'F'];
    let s3 = seq!['}'];
    let s4 = seq!['%', '{', 'F', '-', '}', '%', '{', 'B', '-', '}'];
    let fbg = color_field_text(b.bg_color);
    let ffg = color_field_text(b.fg_color);
    let content = block_content(b);
    lemma_color_field_shape(b.bg_color);
    lemma_color_field_shape(b.fg_color);
    lemma_block_content_percent_free(b);
    let a1 = s1 + fbg;
    let a2 = a1 + s2;
    let a3 = a2 + ffg;
    let a4 = a3 + s3;
    let a5 = a4 + content;
    assert(block_text(b) == a5 + s4);
    lemma_occurrences_concat_right(a5, s4, n);
    assert forall|i: int| !match_at(s4, n, i) by {
        if match_at(s4, n, i) {
            assert(s4.subrange(i, i + 4)[0] == s4[i]);
            assert(s4.subrange(i, i + 4)[2] == s4[i + 2]);
        }
    }
    lemma_occurrences_none(s4, n);
    assert forall|i: int| a4.len() - 4 < i < a4.len() && i >= 0 implies a4[i] != '%' by {
        assert(a4.len() == 8 + fbg.len() + ffg.len());
    }
    lemma_occurrences_concat_left(a4, content, n);
    lemma_occurrences_none_without_head(content, n);
    assert forall|i: int| a3.len() - 4 < i < a3.len() && i >= 0 implies a3[i] != '%' by {
        assert(a3.len() == 7 + fbg.len() + ffg.len());
    }
    lemma_occurrences_concat_left(a3, s3, n);
    lemma_occurrences_short(s3, n);
    lemma_occurrences_concat_right(a2, ffg, n);
    lemma_occurrences_none_without_head(ffg, n);
    assert forall|i: int| a1.len() - 4 < i < a1.len() && i >= 0 implies a1[i] != '%' by {
        assert(a1.len() == 3 + fbg.len());
    }
    lemma_occurrences_concat_left(a1, s2, n);
    assert forall|i: int| !match_at(s2, n, i) by {
        if match_at(s2, n, i) {
            assert(s2.subrange(i, i + 4)[0] == s2[i]);
        }
    }
    lemma_occurrences_none(s2, n);
    lemma_occurrences_concat_right(s1, fbg, n);
    lemma_occurrences_short(s1, n);
    lemma_occurrences_none_without_head(fbg, n);
}

} // verus!
