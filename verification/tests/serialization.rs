use lemonbar::Bar;
use lemonbar::block::Block;
use lemonbar::block::BlockPosition;
use lemonbar::button::Button;
use lemonbar::button::ClickAction;
use lemonbar::button::MouseButton;
use lemonbar::color::Color;

#[test]
fn color_rgba_to_string() {
    let color = Color::rgba(24, 24, 24, 0x88);

    assert_eq!(color.to_text(), "#88181818");
}

#[test]
fn color_rgb_to_string() {
    let color = Color::rgb(24, 24, 24);

    assert_eq!(color.to_text(), "#ff181818");
}

#[test]
fn color_low_channels_zero_padded() {
    let color = Color::rgba(0, 1, 2, 3);

    assert_eq!(color.to_text(), "#03000102");
}

#[test]
fn mouse_button_to_string() {
    assert_eq!(MouseButton::Left.to_text(), "1");
    assert_eq!(MouseButton::Middle.to_text(), "2");
    assert_eq!(MouseButton::Right.to_text(), "3");
    assert_eq!(MouseButton::ScrollUp.to_text(), "4");
    assert_eq!(MouseButton::ScrollDown.to_text(), "5");
}

#[test]
fn click_action_to_string() {
    let action = ClickAction {
        button: MouseButton::Left,
        command: "echo".to_string(),
    };

    assert_eq!(action.to_text(), "%{A1:echo:}");
}

#[test]
fn click_action_scroll_to_string() {
    let action = ClickAction {
        button: MouseButton::ScrollDown,
        command: "volume down".to_string(),
    };

    assert_eq!(action.to_text(), "%{A5:volume down:}");
}

#[test]
fn button_to_string() {
    let left_action = ClickAction {
        button: MouseButton::Left,
        command: "reboot".to_string(),
    };

    let right_action = ClickAction {
        button: MouseButton::Right,
        command: "halt".to_string(),
    };

    let button = Button {
        actions: vec![left_action, right_action],
        text: "test".to_string(),
    };

    assert_eq!(button.to_text(), "%{A1:reboot:}%{A3:halt:}test%{A}%{A}");
}

#[test]
fn button_without_actions_is_bare_text() {
    let button = Button {
        actions: vec![],
        text: "plain".to_string(),
    };

    assert_eq!(button.to_text(), "plain");
}

#[test]
fn block_all_colors() {
    let block = Block {
        align: BlockPosition::Left,
        bg_color: Some(Color::rgb(0x18, 0x18, 0x18)),
        fg_color: Some(Color::rgb(0xe8, 0xe8, 0xe8)),
        icon: "i".to_string(),
        text: "test".to_string(),
    };

    assert_eq!(block.to_text(), "%{B#ff181818}%{F#ffe8e8e8}i test%{F-}%{B-}");
}

#[test]
fn block_bg_only() {
    let block = Block {
        align: BlockPosition::Left,
        bg_color: Some(Color::rgb(0x18, 0x18, 0x18)),
        fg_color: None,
        icon: "i".to_string(),
        text: "test".to_string(),
    };

    assert_eq!(block.to_text(), "%{B#ff181818}%{F-}i test%{F-}%{B-}");
}

#[test]
fn block_fg_only() {
    let block = Block {
        align: BlockPosition::Left,
        bg_color: None,
        fg_color: Some(Color::rgb(0xe8, 0xe8, 0xe8)),
        icon: "i".to_string(),
        text: "test".to_string(),
    };

    assert_eq!(block.to_text(), "%{B-}%{F#ffe8e8e8}i test%{F-}%{B-}");
}

#[test]
fn block_no_colors() {
    let block = Block {
        align: BlockPosition::Left,
        bg_color: None,
        fg_color: None,
        icon: "i".to_string(),
        text: "test".to_string(),
    };

    assert_eq!(block.to_text(), "%{B-}%{F-}i test%{F-}%{B-}");
}

#[test]
fn block_empty_icon_has_no_separator() {
    let block = Block {
        align: BlockPosition::Left,
        bg_color: None,
        fg_color: None,
        icon: "".to_string(),
        text: "test".to_string(),
    };

    assert_eq!(block.to_text(), "%{B-}%{F-}test%{F-}%{B-}");
}

#[test]
fn block_position_to_string() {
    assert_eq!(BlockPosition::Left.to_text(), "%{l}");
    assert_eq!(BlockPosition::Center.to_text(), "%{c}");
    assert_eq!(BlockPosition::Right.to_text(), "%{r}");
}

#[test]
fn block_position_iter_in_canonical_order() {
    let positions = BlockPosition::iter();

    assert_eq!(
        positions,
        vec![BlockPosition::Left, BlockPosition::Center, BlockPosition::Right]
    );
}

#[test]
fn bar_to_string() {
    let block1 = Block {
        align: BlockPosition::Left,
        bg_color: Some(Color::rgb(0x18, 0x18, 0x18)),
        fg_color: Some(Color::rgb(0xe8, 0xe8, 0xe8)),
        icon: "icon".to_string(),
        text: "text".to_string(),
    };

    let bar = Bar {
        blocks: vec![block1],
    };

    assert_eq!(
        bar.to_text(),
        "%{l}%{B#ff181818}%{F#ffe8e8e8}icon text%{F-}%{B-}%{c}%{r}"
    );
}

#[test]
fn empty_bar_still_emits_all_alignment_tokens() {
    let bar = Bar { blocks: vec![] };

    assert_eq!(bar.to_text(), "%{l}%{c}%{r}");
}

fn bare_block(align: BlockPosition, text: &str) -> Block {
    Block {
        align,
        bg_color: None,
        fg_color: None,
        icon: "".to_string(),
        text: text.to_string(),
    }
}

#[test]
fn bar_groups_blocks_stably_by_alignment() {
    let bar = Bar {
        blocks: vec![
            bare_block(BlockPosition::Right, "r1"),
            bare_block(BlockPosition::Left, "l1"),
            bare_block(BlockPosition::Center, "c1"),
            bare_block(BlockPosition::Left, "l2"),
        ],
    };

    assert_eq!(
        bar.to_text(),
        "%{l}%{B-}%{F-}l1%{F-}%{B-}%{B-}%{F-}l2%{F-}%{B-}\
         %{c}%{B-}%{F-}c1%{F-}%{B-}\
         %{r}%{B-}%{F-}r1%{F-}%{B-}"
    );
}

#[test]
fn button_output_embeds_as_block_text() {
    let button = Button {
        actions: vec![ClickAction {
            button: MouseButton::Middle,
            command: "notify".to_string(),
        }],
        text: "inbox".to_string(),
    };

    let block = Block {
        align: BlockPosition::Center,
        bg_color: None,
        fg_color: None,
        icon: "".to_string(),
        text: button.to_text(),
    };

    assert_eq!(block.to_text(), "%{B-}%{F-}%{A2:notify:}inbox%{A}%{F-}%{B-}");
}
