use vstd::prelude::*;
use vstd::string::StringExecFns;
use crate::occurrences::match_at;
use crate::occurrences::occurrences;
use crate::occurrences::percent_free;
use crate::occurrences::lemma_occurrences_concat_left;
use crate::occurrences::lemma_occurrences_concat_right;
use crate::occurrences::lemma_occurrences_none;
use crate::occurrences::lemma_occurrences_none_without_head;
use crate::occurrences::lemma_occurrences_self;
use crate::occurrences::lemma_occurrences_short;

verus! {

/// Identifies the mouse action that triggers a command: a button press or a
/// scroll direction. Serialized as the decimal code 1 to 5, in declaration
/// order.
#[derive(PartialEq, Eq, Structural, Clone, Copy)]
pub enum MouseButton {
    Left,
    Middle,
    Right,
    ScrollUp,
    ScrollDown,
}

/// One mouse-trigger-to-command binding within a `Button`.
pub struct ClickAction {
    pub button: MouseButton,
    pub command: String,
}

/// Text wrapped in zero or more clickable-region tags, one per
/// `ClickAction`, typically embedded as the `text` of a `Block`.
pub struct Button {
    pub actions: Vec<ClickAction>,
    pub text: String,
}

/// The decimal code of a mouse trigger: left 1, middle 2, right 3,
/// scroll up 4, scroll down 5.
pub open spec fn mouse_button_text(m: MouseButton) -> Seq<char> {
    match m {
        MouseButton::Left => seq!['1'],
        MouseButton::Middle => seq!['2'],
        MouseButton::Right => seq!['3'],
        MouseButton::ScrollUp => seq!['4'],
        MouseButton::ScrollDown => seq!['5'],
    }
}

/// The open tag of one click action: `%{A<code>:<command>:}`, the command
/// emitted verbatim.
pub open spec fn click_action_text(a: ClickAction) -> Seq<char> {
    seq!['%', '{', 'A'] + mouse_button_text(a.button) + seq![':'] + a.command@ + seq![':', '}']
}

/// The open tags of a sequence of click actions, in sequence order.
pub open spec fn open_tags_text(actions: Seq<ClickAction>) -> Seq<char>
    decreases actions.len(),
{
    if actions.len() == 0 {
        Seq::empty()
    } else {
        open_tags_text(actions.drop_last()) + click_action_text(actions.last())
    }
}

/// The generic close tag `%{A}`: it carries no trigger code and closes the
/// most recently opened click region.
pub open spec fn close_tag() -> Seq<char> {
    seq!['%', '{', 'A', '}']
}

/// The three characters `%{A` that begin every click-region tag, open or
/// close.
pub open spec fn click_tag_head() -> Seq<char> {
    seq!['%', '{', 'A']
}

/// `n` copies of the generic close tag `%{A}`.
pub open spec fn close_tags_text(n: nat) -> Seq<char>
    decreases n,
{
    if n == 0 {
        Seq::empty()
    } else {
        close_tags_text((n - 1) as nat) + close_tag()
    }
}

/// The text form of a button: every action's open tag in sequence order,
/// then the literal text, then one unparameterized close tag per action.
pub open spec fn button_text(b: Button) -> Seq<char> {
    open_tags_text(b.actions@) + b.text@ + close_tags_text(b.actions@.len())
}

impl MouseButton {
    /// Serialize the trigger to its decimal code, 1 to 5.
    pub fn to_text(&self) -> (r: String)
        ensures
            r@ == mouse_button_text(*self),
    {
        proof {
            reveal_strlit("1");
            reveal_strlit("2");
            reveal_strlit("3");
            reveal_strlit("4");
            reveal_strlit("5");
        }
        let r = match *self {
            MouseButton::Left => String::from_str("1"),
            MouseButton::Middle => String::from_str("2"),
            MouseButton::Right => String::from_str("3"),
            MouseButton::ScrollUp => String::from_str("4"),
            MouseButton::ScrollDown => String::from_str("5"),
        };
        proof {
            assert(r@ =~= mouse_button_text(*self));
        }
        r
    }
}

impl ClickAction {
    /// Serialize the binding to its open tag `%{A<code>:<command>:}`.
    pub fn to_text(&self) -> (r: String)
        ensures
            r@ == click_action_text(*self),
    {
        let mut s = String::new();
        s.append("%{A");
        let code = self.button.to_text();
        s.append(code.as_str());
        s.append(":");
        s.append(self.command.as_str());
        s.append(":}");
        proof {
            reveal_strlit("%{A");
            reveal_strlit(":");
            reveal_strlit(":}");
            assert(s@ =~= click_action_text(*self));
        }
        s
    }
}

impl Button {
    /// Serialize the button: open tags in action order, the text, then one
    /// `%{A}` close tag per action.
    pub fn to_text(&self) -> (r: String)
        ensures
            r@ == button_text(*self),
    {
        let mut s = String::new();
        proof {
            assert(self.actions@.take(0) =~= Seq::<ClickAction>::empty());
        }
        let mut i: usize = 0;
        while i < self.actions.len()
            invariant
                i <= self.actions.len(),
                s@ == open_tags_text(self.actions@.take(i as int)),
            decreases self.actions.len() - i,
        {
            let tag = self.actions[i].to_text();
            s.append(tag.as_str());
            proof {
                assert(self.actions@.take(i as int + 1).drop_last() =~= self.actions@.take(
                    i as int,
                ));
                assert(self.actions@.take(i as int + 1).last() == self.actions@[i as int]);
            }
            i = i + 1;
        }
        proof {
            assert(self.actions@.take(self.actions@.len() as int) =~= self.actions@);
        }
        s.append(self.text.as_str());
        let n = self.actions.len();
        let mut j: usize = 0;
        proof {
            assert(s@ =~= open_tags_text(self.actions@) + self.text@ + close_tags_text(0));
        }
        while j < n
            invariant
                j <= n,
                n == self.actions@.len(),
                s@ == open_tags_text(self.actions@) + self.text@ + close_tags_text(j as nat),
            decreases n - j,
        {
            s.append("%{A}");
            proof {
                reveal_strlit("%{A}");
                assert(s@ =~= open_tags_text(self.actions@) + self.text@ + close_tags_text(
                    j as nat + 1,
                ));
            }
            j = j + 1;
        }
        s
    }
}

/// The close tags of `n` actions occupy exactly `4 * n` characters.
proof fn lemma_close_tags_len(n: nat)
    ensures
        close_tags_text(n).len() == 4 * n,
    decreases n,
{
    if n > 0 {
        lemma_close_tags_len((n - 1) as nat);
    }
}

/// Law: a button with N actions serializes to the N open tags in sequence
/// order, then the literal text exactly once, then exactly N generic close
/// tags `%{A}` (4 characters each), whatever N is, zero included.
pub proof fn lemma_button_shape(b: Button)
    ensures
        button_text(b) == open_tags_text(b.actions@) + b.text@ + close_tags_text(b.actions@.len()),
        close_tags_text(b.actions@.len()).len() == 4 * b.actions@.len(),
        forall|i: int|
            0 <= i < b.actions@.len() ==> open_tags_text(#[trigger] b.actions@.take(i + 1))
                == open_tags_text(b.actions@.take(i)) + click_action_text(b.actions@[i]),
{
    lemma_close_tags_len(b.actions@.len());
    assert forall|i: int| 0 <= i < b.actions@.len() implies open_tags_text(
        #[trigger] b.actions@.take(i + 1),
    ) == open_tags_text(b.actions@.take(i)) + click_action_text(b.actions@[i]) by {
        assert(b.actions@.take(i + 1).drop_last() =~= b.actions@.take(i));
        assert(b.actions@.take(i + 1).last() == b.actions@[i]);
    }
}

/// The open tag of a click action begins with `%` and holds no other `%`
/// among its last characters when the command holds none.
proof fn lemma_click_action_text_ends(a: ClickAction)
    requires
        percent_free(a.command@),
    ensures
        click_action_text(a).len() == 7 + a.command@.len(),
        click_action_text(a)[0] == '%',
        forall|i: int|
            click_action_text(a).len() - 4 < i < click_action_text(a).len() ==> click_action_text(
                a,
            )[i] != '%',
{
    assert(mouse_button_text(a.button).len() == 1);
}

/// A click action's open tag holds no occurrence of the close tag `%{A}`
/// when its command holds no `%`.
proof fn lemma_click_action_no_close_tag(a: ClickAction)
    requires
        percent_free(a.command@),
    ensures
        occurrences(click_action_text(a), close_tag()) == 0,
{
    let n = close_tag();
    let s1 = seq!['%', '{', 'A'];
    let m = mouse_button_text(a.button);
    let c1 = seq![':'];
    let c2 = seq![':', '}'];
    assert(m.len() == 1 && m[0] != '%' && m[0] != '}');
    lemma_occurrences_concat_right(s1 + m + c1 + a.command@, c2, n);
    lemma_occurrences_short(c2, n);
    lemma_occurrences_concat_left(s1 + m + c1, a.command@, n);
    lemma_occurrences_none_without_head(a.command@, n);
    assert forall|i: int| !match_at(s1 + m + c1, n, i) by {
        if match_at(s1 + m + c1, n, i) {
            assert((s1 + m + c1).subrange(i, i + 4)[0] == (s1 + m + c1)[i]);
            assert((s1 + m + c1).subrange(i, i + 4)[3] == (s1 + m + c1)[i + 3]);
        }
    }
    lemma_occurrences_none(s1 + m + c1, n);
}

/// The open tags of a sequence of actions hold no occurrence of the close
/// tag, and none of their last characters is `%`, when no command holds `%`.
proof fn lemma_open_tags_no_close_tag(actions: Seq<ClickAction>)
    requires
        forall|i: int| 0 <= i < actions.len() ==> percent_free(#[trigger] actions[i].command@),
    ensures
        occurrences(open_tags_text(actions), close_tag()) == 0,
        forall|i: int|
            open_tags_text(actions).len() - 4 < i < open_tags_text(actions).len() && i >= 0
                ==> open_tags_text(actions)[i] != '%',
    decreases actions.len(),
{
    if actions.len() > 0 {
        lemma_open_tags_no_close_tag(actions.drop_last());
        lemma_click_action_text_ends(actions.last());
        lemma_click_action_no_close_tag(actions.last());
        lemma_occurrences_concat_right(
            open_tags_text(actions.drop_last()),
            click_action_text(actions.last()),
            close_tag(),
        );
    }
}

/// `n` close tags begin with `%` when there is at least one.
proof fn lemma_close_tags_head(n: nat)
    ensures
        n > 0 ==> close_tags_text(n)[0] == '%',
    decreases n,
{
    if n > 0 {
        lemma_close_tags_head((n - 1) as nat);
        lemma_close_tags_len((n - 1) as nat);
        if n == 1 {
            assert(close_tags_text(0) =~= Seq::<char>::empty());
            assert(close_tags_text(1)[0] == close_tag()[0]);
        }
    }
}

/// `n` close tags hold exactly `n` occurrences of the close tag.
proof fn lemma_close_tags_count(n: nat)
    ensures
        occurrences(close_tags_text(n), close_tag()) == n,
    decreases n,
{
    if n > 0 {
        lemma_close_tags_count((n - 1) as nat);
        lemma_occurrences_concat_right(close_tags_text((n - 1) as nat), close_tag(), close_tag());
        lemma_occurrences_self(close_tag());
    }
}

/// A click action's open tag holds the head `%{A` exactly once when its
/// command holds no `%`.
proof fn lemma_click_action_head_count(a: ClickAction)
    requires
        percent_free(a.command@),
    ensures
        occurrences(click_action_text(a), click_tag_head()) == 1,
{
    let n = click_tag_head();
    let s1 = seq!['%', '{', 'A'];
    let m = mouse_button_text(a.button);
    let c1 = seq![':'];
    let c2 = seq![':', '}'];
    assert(m.len() == 1 && m[0] != '%');
    lemma_occurrences_concat_right(s1 + m + c1 + a.command@, c2, n);
    lemma_occurrences_short(c2, n);
    lemma_occurrences_concat_left(s1 + m + c1, a.command@, n);
    lemma_occurrences_none_without_head(a.command@, n);
    let h = s1 + m + c1;
    assert(h.subrange(0, 3) =~= n);
    assert(match_at(h, n, 0));
    assert forall|i: int| 0 <= i < h.drop_first().len() implies h.drop_first()[i] != '%' by {
        assert(h.drop_first()[i] == h[i + 1]);
    }
    lemma_occurrences_none_without_head(h.drop_first(), n);
}

/// The close tag holds the head `%{A` exactly once.
proof fn lemma_close_tag_head_count()
    ensures
        occurrences(close_tag(), click_tag_head()) == 1,
{
    let t = close_tag();
    let n = click_tag_head();
    assert(t.subrange(0, 3) =~= n);
    assert(match_at(t, n, 0));
    assert forall|i: int| 0 <= i < t.drop_first().len() implies t.drop_first()[i] != '%' by {
        assert(t.drop_first()[i] == t[i + 1]);
    }
    lemma_occurrences_none_without_head(t.drop_first(), n);
}

/// The open tags of N actions hold exactly N heads `%{A` when no command
/// holds `%`.
proof fn lemma_open_tags_head_count(actions: Seq<ClickAction>)
    requires
        forall|i: int| 0 <= i < actions.len() ==> percent_free(#[trigger] actions[i].command@),
    ensures
        occurrences(open_tags_text(actions), click_tag_head()) == actions.len(),
    decreases actions.len(),
{
    if actions.len() > 0 {
        lemma_open_tags_head_count(actions.drop_last());
        lemma_click_action_text_ends(actions.last());
        lemma_click_action_head_count(actions.last());
        lemma_occurrences_concat_right(
            open_tags_text(actions.drop_last()),
            click_action_text(actions.last()),
            click_tag_head(),
        );
    }
}

/// `n` close tags hold exactly `n` heads `%{A`.
proof fn lemma_close_tags_head_count(n: nat)
    ensures
        occurrences(close_tags_text(n), click_tag_head()) == n,
    decreases n,
{
    if n > 0 {
        lemma_close_tags_head_count((n - 1) as nat);
        lemma_occurrences_concat_right(
            close_tags_text((n - 1) as nat),
            close_tag(),
            click_tag_head(),
        );
        lemma_close_tag_head_count();
    }
}

/// Law: when neither the text nor any command holds the escape character
/// `%`, a button with N actions serializes to a string holding exactly N
/// occurrences of the generic close tag `%{A}` — one per action, however
/// many actions there are, zero included — and exactly `2 * N` occurrences
/// of the tag head `%{A`: one beginning each of the N open tags and one
/// beginning each of the N close tags, so the open tags too number N.
pub proof fn lemma_button_close_tag_count(b: Button)
    requires
        percent_free(b.text@),
        forall|i: int| 0 <= i < b.actions@.len() ==> percent_free(#[trigger] b.actions@[i].command@),
    ensures
        occurrences(button_text(b), close_tag()) == b.actions@.len(),
        occurrences(button_text(b), click_tag_head()) == 2 * b.actions@.len(),
{
    let open = open_tags_text(b.actions@);
    let n = b.actions@.len();
    lemma_open_tags_no_close_tag(b.actions@);
    lemma_occurrences_concat_left(open, b.text@, close_tag());
    lemma_occurrences_none_without_head(b.text@, close_tag());
    lemma_close_tags_head(n);
    lemma_occurrences_concat_right(open + b.text@, close_tags_text(n), close_tag());
    lemma_close_tags_count(n);
    lemma_occurrences_concat_left(open, b.text@, click_tag_head());
    lemma_occurrences_none_without_head(b.text@, click_tag_head());
    lemma_occurrences_concat_right(open + b.text@, close_tags_text(n), click_tag_head());
    lemma_open_tags_head_count(b.actions@);
    lemma_close_tags_head_count(n);
}

} // verus!
