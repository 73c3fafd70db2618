use nebula_common::ui::{
    content_height, label_end, on_key, pane_mode, visible_count, InputMode, Key, KeyAction,
};

#[test]
fn control_q_leaves_from_normal_mode_only() {
    assert_eq!(
        on_key(InputMode::Normal, true, Key::Char('q')),
        (InputMode::Normal, KeyAction::Exit)
    );
    assert_eq!(
        on_key(InputMode::Normal, true, Key::Char('Q')),
        (InputMode::Normal, KeyAction::Exit)
    );
    assert_eq!(
        on_key(InputMode::Normal, false, Key::Char('q')),
        (InputMode::Normal, KeyAction::Nothing)
    );
    assert_eq!(
        on_key(InputMode::Insert, true, Key::Char('q')),
        (InputMode::Insert, KeyAction::InsertChar('q'))
    );
    assert_eq!(
        on_key(InputMode::Command, true, Key::Char('q')),
        (InputMode::Command, KeyAction::Nothing)
    );
}

#[test]
fn i_starts_typing_and_c_starts_a_command() {
    for control in [false, true] {
        assert_eq!(
            on_key(InputMode::Normal, control, Key::Char('i')),
            (InputMode::Insert, KeyAction::Nothing)
        );
        assert_eq!(
            on_key(InputMode::Normal, control, Key::Char('I')),
            (InputMode::Insert, KeyAction::Nothing)
        );
        assert_eq!(
            on_key(InputMode::Normal, control, Key::Char('c')),
            (InputMode::Command, KeyAction::Nothing)
        );
        assert_eq!(
            on_key(InputMode::Normal, control, Key::Char('C')),
            (InputMode::Normal, KeyAction::Nothing)
        );
    }
    for key in [Key::Esc, Key::Enter, Key::Backspace, Key::Other, Key::Char('x')] {
        assert_eq!(
            on_key(InputMode::Normal, false, key),
            (InputMode::Normal, KeyAction::Nothing)
        );
    }
}

#[test]
fn typing_edits_the_line_until_escape() {
    assert_eq!(
        on_key(InputMode::Insert, false, Key::Char('é')),
        (InputMode::Insert, KeyAction::InsertChar('é'))
    );
    assert_eq!(
        on_key(InputMode::Insert, false, Key::Backspace),
        (InputMode::Insert, KeyAction::DeletePrevChar)
    );
    assert_eq!(
        on_key(InputMode::Insert, false, Key::Enter),
        (InputMode::Insert, KeyAction::Submit)
    );
    assert_eq!(
        on_key(InputMode::Insert, false, Key::Other),
        (InputMode::Insert, KeyAction::Nothing)
    );
    assert_eq!(
        on_key(InputMode::Insert, false, Key::Esc),
        (InputMode::Normal, KeyAction::Nothing)
    );
}

#[test]
fn a_command_is_left_by_escape_alone() {
    assert_eq!(
        on_key(InputMode::Command, false, Key::Esc),
        (InputMode::Normal, KeyAction::Nothing)
    );
    for key in [Key::Enter, Key::Backspace, Key::Other, Key::Char('i')] {
        assert_eq!(
            on_key(InputMode::Command, false, key),
            (InputMode::Command, KeyAction::Nothing)
        );
    }
}

#[test]
fn the_line_is_highlighted_while_typing_only() {
    assert_eq!(pane_mode(InputMode::Insert), InputMode::Insert);
    assert_eq!(pane_mode(InputMode::Normal), InputMode::Normal);
    assert_eq!(pane_mode(InputMode::Command), InputMode::Normal);
}

#[test]
fn the_name_ends_after_the_first_colon() {
    assert_eq!(label_end(b"shimori: hello"), Some(8));
    assert_eq!(label_end(b":"), Some(1));
    assert_eq!(label_end(b"a:b:c"), Some(2));
    assert_eq!(label_end(b"no name here"), None);
    assert_eq!(label_end(b""), None);
    assert_eq!(label_end("ünï: x".as_bytes()), Some(6));
}

#[test]
fn a_body_takes_as_many_lines_as_it_fills() {
    assert_eq!(content_height(0, 10), 1);
    assert_eq!(content_height(1, 10), 1);
    assert_eq!(content_height(10, 10), 1);
    assert_eq!(content_height(11, 10), 2);
    assert_eq!(content_height(20, 10), 2);
    assert_eq!(content_height(21, 10), 3);
    assert_eq!(content_height(5, 1), 5);
    assert_eq!(content_height(0, 1), 1);
    // the length counts modulo 65536
    assert_eq!(content_height(65536, 10), 1);
    assert_eq!(content_height(65536 + 11, 10), 2);
    // the sum stops at 65535
    assert_eq!(content_height(65535, 10), 6553);
    assert_eq!(content_height(65535, 65535), 1);
}

#[test]
fn the_latest_messages_that_fit_are_counted() {
    // each body of up to ten bytes takes three lines at width ten
    assert_eq!(visible_count(&[], 10, 100), 0);
    assert_eq!(visible_count(&[5, 5, 5], 10, 100), 3);
    assert_eq!(visible_count(&[5, 5, 5], 10, 9), 3);
    assert_eq!(visible_count(&[5, 5, 5], 10, 8), 2);
    assert_eq!(visible_count(&[5, 5, 5], 10, 6), 2);
    assert_eq!(visible_count(&[5, 5, 5], 10, 5), 1);
    assert_eq!(visible_count(&[5, 5, 5], 10, 2), 0);
    assert_eq!(visible_count(&[5, 5, 5], 10, 0), 0);
    // a long message in the middle stops the count, though an older one
    // would fit
    assert_eq!(visible_count(&[5, 95, 5], 10, 10), 1);
    assert_eq!(visible_count(&[5, 95, 5], 10, 15), 2);
    assert_eq!(visible_count(&[5, 95, 5], 10, 17), 2);
    assert_eq!(visible_count(&[5, 95, 5], 10, 18), 3);
    // the last message alone can be too long
    assert_eq!(visible_count(&[5, 5, 1000], 10, 50), 0);
}
