//! What the terminal front end decides: what a key does in each input mode,
//! and which messages of the history fit into the pane.

use vstd::prelude::*;

verus! {

/// The mode that decides what a key does.
#[derive(Debug, Clone, Copy, PartialEq, Eq, Structural)]
pub enum InputMode {
    /// Keys are commands to the application.
    Normal,
    /// Keys are typed into the message line.
    Insert,
    /// A command is being entered.
    Command,
}

/// A key as the front end tells it apart.
#[derive(Debug, Clone, Copy, PartialEq, Eq, Structural)]
pub enum Key {
    Char(char),
    Esc,
    Backspace,
    Enter,
    /// Any key that has no meaning here.
    Other,
}

/// What the front end is to do after a key.
#[derive(Debug, Clone, Copy, PartialEq, Eq, Structural)]
pub enum KeyAction {
    /// Nothing.
    Nothing,
    /// Leave the application.
    Exit,
    /// Put the character into the message line.
    InsertChar(char),
    /// Delete the character before the cursor.
    DeletePrevChar,
    /// Send the message line, unless it is empty.
    Submit,
}

/// The mode after a key and what the key asks for. `control` says that the
/// control key, and no other modifier, was held.
pub open spec fn key_effect(mode: InputMode, control: bool, key: Key) -> (InputMode, KeyAction) {
    match mode {
        InputMode::Normal => match key {
            Key::Char(c) => if control && (c == 'q' || c == 'Q') {
                (InputMode::Normal, KeyAction::Exit)
            } else if c == 'i' || c == 'I' {
                (InputMode::Insert, KeyAction::Nothing)
            } else if c == 'c' {
                (InputMode::Command, KeyAction::Nothing)
            } else {
                (InputMode::Normal, KeyAction::Nothing)
            },
            _ => (InputMode::Normal, KeyAction::Nothing),
        },
        InputMode::Insert => match key {
            Key::Esc => (InputMode::Normal, KeyAction::Nothing),
            Key::Char(c) => (InputMode::Insert, KeyAction::InsertChar(c)),
            Key::Backspace => (InputMode::Insert, KeyAction::DeletePrevChar),
            Key::Enter => (InputMode::Insert, KeyAction::Submit),
            Key::Other => (InputMode::Insert, KeyAction::Nothing),
        },
        InputMode::Command => match key {
            Key::Esc => (InputMode::Normal, KeyAction::Nothing),
            _ => (InputMode::Command, KeyAction::Nothing),
        },
    }
}

/// Only the normal mode can end the application, and only by control-q.
pub proof fn lemma_exit_needs_control_q(mode: InputMode, control: bool, key: Key)
    requires
        key_effect(mode, control, key).1 == KeyAction::Exit,
    ensures
        mode == InputMode::Normal,
        control,
        key == Key::Char('q') || key == Key::Char('Q'),
{
}

/// Escape leads back to the normal mode from every mode.
pub proof fn lemma_escape_leads_home(mode: InputMode, control: bool)
    ensures
        key_effect(mode, control, Key::Esc).0 == InputMode::Normal,
{
}

/// Decides what a key does in the given mode.
pub fn on_key(mode: InputMode, control: bool, key: Key) -> (r: (InputMode, KeyAction))
    ensures
        r == key_effect(mode, control, key),
{
    match mode {
        InputMode::Normal => match key {
            Key::Char(c) => {
                if control && (c == 'q' || c == 'Q') {
                    (InputMode::Normal, KeyAction::Exit)
                } else if c == 'i' || c == 'I' {
                    (InputMode::Insert, KeyAction::Nothing)
                } else if c == 'c' {
                    (InputMode::Command, KeyAction::Nothing)
                } else {
                    (InputMode::Normal, KeyAction::Nothing)
                }
            },
            _ => (InputMode::Normal, KeyAction::Nothing),
        },
        InputMode::Insert => match key {
            Key::Esc => (InputMode::Normal, KeyAction::Nothing),
            Key::Char(c) => (InputMode::Insert, KeyAction::InsertChar(c)),
            Key::Backspace => (InputMode::Insert, KeyAction::DeletePrevChar),
            Key::Enter => (InputMode::Insert, KeyAction::Submit),
            Key::Other => (InputMode::Insert, KeyAction::Nothing),
        },
        InputMode::Command => match key {
            Key::Esc => (InputMode::Normal, KeyAction::Nothing),
            _ => (InputMode::Command, KeyAction::Nothing),
        },
    }
}

/// The mode in which the message line is drawn: highlighted while typing.
pub fn pane_mode(mode: InputMode) -> (shown: InputMode)
    ensures
        shown == if mode == InputMode::Insert {
            InputMode::Insert
        } else {
            InputMode::Normal
        },
{
    match mode {
        InputMode::Insert => InputMode::Insert,
        _ => InputMode::Normal,
    }
}

/// The place after the first colon of `message`, which ends the name of
/// the one who wrote it.
pub open spec fn label_end_of(message: Seq<u8>) -> Option<nat>
    decreases message.len(),
{
    if message.len() == 0 {
        None
    } else if message[0] == 0x3a {
        Some(1)
    } else {
        match label_end_of(message.skip(1)) {
            Some(n) => Some(n + 1),
            None => None,
        }
    }
}

/// Finds the place after the first colon of `message`.
pub fn label_end(message: &[u8]) -> (r: Option<usize>)
    ensures
        match label_end_of(message@) {
            Some(n) => r is Some && r->Some_0 == n && 0 < n <= message@.len() && message@[n - 1]
                == 0x3a,
            None => r is None,
        },
{
    let mut i: usize = 0;
    assert(message@.skip(0) =~= message@);
    while i < message.len()
        invariant
            i <= message@.len(),
            label_end_of(message@) == match label_end_of(message@.skip(i as int)) {
                Some(n) => Some((n + i) as nat),
                None => None,
            },
        decreases message@.len() - i,
    {
        assert(message@.skip(i as int).skip(1) =~= message@.skip(i + 1));
        if message[i] == 0x3a {
            return Some(i + 1);
        }
        i += 1;
    }
    None
}

/// The lines that the body of a message takes in a pane: as many as its
/// bytes fill at the pane's width, at least one. The length counts modulo
/// 65536, and the sum that is divided stops at 65535.
pub open spec fn content_lines(len: nat, width: nat) -> nat
    recommends
        width > 0,
{
    let sum = len % 65536 + (width - 1);
    let capped = if sum > 65535 {
        65535
    } else {
        sum
    };
    let lines = capped / (width as int);
    if lines < 1 {
        1
    } else {
        lines as nat
    }
}

/// The lines that the body of a message of `len` bytes takes in a pane of
/// `width` columns.
pub fn content_height(len: usize, width: u16) -> (lines: u16)
    requires
        width > 0,
    ensures
        lines == content_lines(len as nat, width as nat),
        lines >= 1,
{
    let short: u16 = (len % 65536) as u16;
    let sum: u16 = short.saturating_add(width - 1);
    let lines: u16 = sum / width;
    if lines < 1 {
        1
    } else {
        lines
    }
}

/// The lines that a whole message takes: its name, its body, a blank line.
pub open spec fn lines_needed(len: nat, width: nat) -> nat {
    content_lines(len, width) + 2
}

/// How many of the latest messages fit into `available` lines, going back
/// from the last until one does not fit.
pub open spec fn fitting(lengths: Seq<usize>, width: nat, available: nat) -> nat
    decreases lengths.len(),
{
    if lengths.len() == 0 {
        0
    } else {
        let needed = lines_needed(lengths.last() as nat, width);
        if needed <= available {
            1 + fitting(lengths.drop_last(), width, (available - needed) as nat)
        } else {
            0
        }
    }
}

/// The messages that fit never take more lines than there are.
pub proof fn lemma_fitting_is_bounded(lengths: Seq<usize>, width: nat, available: nat)
    ensures
        fitting(lengths, width, available) <= lengths.len(),
        2 * fitting(lengths, width, available) <= available,
    decreases lengths.len(),
{
    if lengths.len() > 0 {
        let needed = lines_needed(lengths.last() as nat, width);
        if needed <= available {
            lemma_fitting_is_bounded(lengths.drop_last(), width, (available - needed) as nat);
        }
    }
}

/// Counts how many of the latest messages, whose bodies have the given
/// lengths in bytes, fit into a pane of `width` columns and `available`
/// lines.
pub fn visible_count(lengths: &[usize], width: u16, available: u16) -> (count: usize)
    requires
        width > 0,
    ensures
        count == fitting(lengths@, width as nat, available as nat),
        count <= lengths@.len(),
{
    let mut count: usize = 0;
    let mut left: u32 = available as u32;
    let mut i: usize = lengths.len();
    proof {
        lemma_fitting_is_bounded(lengths@, width as nat, available as nat);
        assert(lengths@.take(i as int) =~= lengths@);
    }
    while i > 0
        invariant
            i <= lengths@.len(),
            width > 0,
            count + i == lengths@.len(),
            left <= available,
            fitting(lengths@, width as nat, available as nat) == count + fitting(
                lengths@.take(i as int),
                width as nat,
                left as nat,
            ),
        decreases i,
    {
        let needed: u32 = content_height(lengths[i - 1], width) as u32 + 2;
        proof {
            assert(lengths@.take(i as int).last() == lengths@[i - 1]);
            assert(lengths@.take(i as int).drop_last() =~= lengths@.take(i - 1));
        }
        if needed > left {
            return count;
        }
        left = left - needed;
        count += 1;
        i -= 1;
    }
    count
}

} // verus!
