//! Key bindings: which action a key press asks for.
use vstd::prelude::*;

verus! {

/// A key of the keyboard.
#[derive(Debug, Clone, Copy, PartialEq, Eq, Structural)]
pub enum Key {
    Char(char),
    Tab,
    Enter,
    Up,
    Down,
    PageUp,
    PageDown,
    Home,
    End,
    Left,
    Right,
    Backspace,
    Delete,
    Esc,
    Other,
}

/// A key press with the modifiers that matter.
#[derive(Debug, Clone, Copy, PartialEq, Eq, Structural)]
pub struct KeyInput {
    pub key: Key,
    pub ctrl: bool,
    pub shift: bool,
}

/// What a key press asks the client to do.
#[derive(Debug, Clone, Copy, PartialEq, Eq, Structural)]
pub enum KeyAction {
    Quit,
    RefreshChats,
    SplitVertical,
    SplitHorizontal,
    ToggleSplitDirection,
    ClosePane,
    ToggleChatList,
    ClearPane,
    ToggleReactions,
    ToggleEmojis,
    ToggleImagePreview,
    ToggleTimestamps,
    ToggleCompactMode,
    ToggleLineNumbers,
    ToggleUserColors,
    ToggleBorders,
    ToggleMouseSupport,
    ShowWorkspaceList,
    SwitchWorkspace(usize),
    TabComplete,
    NextPane,
    InputNewline,
    SendMessage,
    OpenThread(usize),
    OpenSelectedChat,
    ToggleSelectedSection,
    ScrollUp,
    ScrollDown,
    SelectPreviousChat,
    SelectNextChat,
    MoveCursorUp,
    MoveCursorDown,
    PageUp,
    PageDown,
    ScrollToTop,
    ScrollToBottom,
    MoveCursorHome,
    MoveCursorEnd,
    ResizeChatList(i16),
    MoveCursorLeft,
    MoveCursorRight,
    Backspace,
    DeleteForward,
    CancelReply,
    InputChar(char),
    Nothing,
}

/// The action bound to Ctrl and a letter or digit, if any.
pub open spec fn ctrl_action(c: char) -> Option<KeyAction> {
    if c == 'q' {
        Some(KeyAction::Quit)
    } else if c == 'r' {
        Some(KeyAction::RefreshChats)
    } else if c == 'v' {
        Some(KeyAction::SplitVertical)
    } else if c == 'b' {
        Some(KeyAction::SplitHorizontal)
    } else if c == 'k' {
        Some(KeyAction::ToggleSplitDirection)
    } else if c == 'w' {
        Some(KeyAction::ClosePane)
    } else if c == 's' {
        Some(KeyAction::ToggleChatList)
    } else if c == 'l' {
        Some(KeyAction::ClearPane)
    } else if c == 'e' {
        Some(KeyAction::ToggleReactions)
    } else if c == 'o' {
        Some(KeyAction::ToggleEmojis)
    } else if c == 'p' {
        Some(KeyAction::ToggleImagePreview)
    } else if c == 't' {
        Some(KeyAction::ToggleTimestamps)
    } else if c == 'd' {
        Some(KeyAction::ToggleCompactMode)
    } else if c == 'g' {
        Some(KeyAction::ToggleLineNumbers)
    } else if c == 'u' {
        Some(KeyAction::ToggleUserColors)
    } else if c == 'y' {
        Some(KeyAction::ToggleBorders)
    } else if c == 'm' {
        Some(KeyAction::ToggleMouseSupport)
    } else if c == 'n' {
        Some(KeyAction::ShowWorkspaceList)
    } else if '1' <= c <= '9' {
        Some(KeyAction::SwitchWorkspace((c as u32 - '1' as u32) as usize))
    } else {
        None
    }
}

/// The action of a key press, given whether the chat list has the focus,
/// whether the focused pane's input box is empty, and the selected thread.
/// Some terminals send Ctrl+P as the character U+0010 without Ctrl; that
/// character toggles the image preview too.
pub open spec fn action_for(k: KeyInput, on_list: bool, input_empty: bool, thread: Option<usize>) -> KeyAction {
    match k.key {
        Key::Char(c) => if k.ctrl && ctrl_action(c) is Some && !('t' == c || 'd' == c || 'g' == c || 'u' == c || 'y'
            == c || 'm' == c || 'n' == c || ('1' <= c <= '9')) {
            ctrl_action(c)->0
        } else if c == '\u{10}' {
            KeyAction::ToggleImagePreview
        } else if k.ctrl && ctrl_action(c) is Some {
            ctrl_action(c)->0
        } else if c == ' ' && on_list {
            KeyAction::ToggleSelectedSection
        } else if !on_list && !k.ctrl {
            KeyAction::InputChar(c)
        } else {
            KeyAction::Nothing
        },
        Key::Tab => if !on_list && !input_empty {
            KeyAction::TabComplete
        } else {
            KeyAction::NextPane
        },
        Key::Enter => if !on_list {
            if k.shift {
                KeyAction::InputNewline
            } else {
                KeyAction::SendMessage
            }
        } else {
            match thread {
                Some(i) => KeyAction::OpenThread(i),
                None => KeyAction::OpenSelectedChat,
            }
        },
        Key::Up => if k.shift {
            KeyAction::ScrollUp
        } else if on_list {
            KeyAction::SelectPreviousChat
        } else if input_empty {
            KeyAction::ScrollUp
        } else {
            KeyAction::MoveCursorUp
        },
        Key::Down => if k.shift {
            KeyAction::ScrollDown
        } else if on_list {
            KeyAction::SelectNextChat
        } else if input_empty {
            KeyAction::ScrollDown
        } else {
            KeyAction::MoveCursorDown
        },
        Key::PageUp => if !on_list {
            KeyAction::PageUp
        } else {
            KeyAction::Nothing
        },
        Key::PageDown => if !on_list {
            KeyAction::PageDown
        } else {
            KeyAction::Nothing
        },
        Key::Home => if on_list {
            KeyAction::Nothing
        } else if k.ctrl {
            KeyAction::ScrollToTop
        } else {
            KeyAction::MoveCursorHome
        },
        Key::End => if on_list {
            KeyAction::Nothing
        } else if k.ctrl {
            KeyAction::ScrollToBottom
        } else {
            KeyAction::MoveCursorEnd
        },
        Key::Left => if k.ctrl {
            KeyAction::ResizeChatList(-2i16)
        } else if !on_list {
            KeyAction::MoveCursorLeft
        } else {
            KeyAction::Nothing
        },
        Key::Right => if k.ctrl {
            KeyAction::ResizeChatList(2i16)
        } else if !on_list {
            KeyAction::MoveCursorRight
        } else {
            KeyAction::Nothing
        },
        Key::Backspace => if !on_list {
            KeyAction::Backspace
        } else {
            KeyAction::Nothing
        },
        Key::Delete => if !on_list {
            KeyAction::DeleteForward
        } else {
            KeyAction::Nothing
        },
        Key::Esc => KeyAction::CancelReply,
        Key::Other => KeyAction::Nothing,
    }
}

/// The action bound to Ctrl and `c`.
fn ctrl_binding(c: char) -> (r: Option<KeyAction>)
    ensures
        r == ctrl_action(c),
{
    match c {
        'q' => Some(KeyAction::Quit),
        'r' => Some(KeyAction::RefreshChats),
        'v' => Some(KeyAction::SplitVertical),
        'b' => Some(KeyAction::SplitHorizontal),
        'k' => Some(KeyAction::ToggleSplitDirection),
        'w' => Some(KeyAction::ClosePane),
        's' => Some(KeyAction::ToggleChatList),
        'l' => Some(KeyAction::ClearPane),
        'e' => Some(KeyAction::ToggleReactions),
        'o' => Some(KeyAction::ToggleEmojis),
        'p' => Some(KeyAction::ToggleImagePreview),
        't' => Some(KeyAction::ToggleTimestamps),
        'd' => Some(KeyAction::ToggleCompactMode),
        'g' => Some(KeyAction::ToggleLineNumbers),
        'u' => Some(KeyAction::ToggleUserColors),
        'y' => Some(KeyAction::ToggleBorders),
        'm' => Some(KeyAction::ToggleMouseSupport),
        'n' => Some(KeyAction::ShowWorkspaceList),
        _ => {
            if '1' <= c && c <= '9' {
                Some(KeyAction::SwitchWorkspace((c as u32 - '1' as u32) as usize))
            } else {
                None
            }
        },
    }
}

/// The action a key press asks for.
pub fn key_action(k: KeyInput, focus_on_chat_list: bool, input_empty: bool, selected_thread_idx: Option<usize>) -> (r: KeyAction)
    ensures
        r == action_for(k, focus_on_chat_list, input_empty, selected_thread_idx),
{
    let on_list = focus_on_chat_list;
    match k.key {
        Key::Char(c) => {
            let bound = if k.ctrl {
                ctrl_binding(c)
            } else {
                None
            };
            let late = c == 't' || c == 'd' || c == 'g' || c == 'u' || c == 'y' || c == 'm' || c == 'n' || ('1' <= c
                && c <= '9');
            match bound {
                Some(a) => {
                    if !late {
                        return a;
                    }
                },
                None => {},
            }
            if c == '\u{10}' {
                return KeyAction::ToggleImagePreview;
            }
            match bound {
                Some(a) => {
                    return a;
                },
                None => {},
            }
            if c == ' ' && on_list {
                KeyAction::ToggleSelectedSection
            } else if !on_list && !k.ctrl {
                KeyAction::InputChar(c)
            } else {
                KeyAction::Nothing
            }
        },
        Key::Tab => if !on_list && !input_empty {
            KeyAction::TabComplete
        } else {
            KeyAction::NextPane
        },
        Key::Enter => if !on_list {
            if k.shift {
                KeyAction::InputNewline
            } else {
                KeyAction::SendMessage
            }
        } else {
            match selected_thread_idx {
                Some(i) => KeyAction::OpenThread(i),
                None => KeyAction::OpenSelectedChat,
            }
        },
        Key::Up => if k.shift {
            KeyAction::ScrollUp
        } else if on_list {
            KeyAction::SelectPreviousChat
        } else if input_empty {
            KeyAction::ScrollUp
        } else {
            KeyAction::MoveCursorUp
        },
        Key::Down => if k.shift {
            KeyAction::ScrollDown
        } else if on_list {
            KeyAction::SelectNextChat
        } else if input_empty {
            KeyAction::ScrollDown
        } else {
            KeyAction::MoveCursorDown
        },
        Key::PageUp => if !on_list {
            KeyAction::PageUp
        } else {
            KeyAction::Nothing
        },
        Key::PageDown => if !on_list {
            KeyAction::PageDown
        } else {
            KeyAction::Nothing
        },
        Key::Home => if on_list {
            KeyAction::Nothing
        } else if k.ctrl {
            KeyAction::ScrollToTop
        } else {
            KeyAction::MoveCursorHome
        },
        Key::End => if on_list {
            KeyAction::Nothing
        } else if k.ctrl {
            KeyAction::ScrollToBottom
        } else {
            KeyAction::MoveCursorEnd
        },
        Key::Left => if k.ctrl {
            KeyAction::ResizeChatList(-2i16)
        } else if !on_list {
            KeyAction::MoveCursorLeft
        } else {
            KeyAction::Nothing
        },
        Key::Right => if k.ctrl {
            KeyAction::ResizeChatList(2i16)
        } else if !on_list {
            KeyAction::MoveCursorRight
        } else {
            KeyAction::Nothing
        },
        Key::Backspace => if !on_list {
            KeyAction::Backspace
        } else {
            KeyAction::Nothing
        },
        Key::Delete => if !on_list {
            KeyAction::DeleteForward
        } else {
            KeyAction::Nothing
        },
        Key::Esc => KeyAction::CancelReply,
        Key::Other => KeyAction::Nothing,
    }
}

/// The key handler's answer to a quit request, given how saving the
/// client state went: quit when it was saved, else the saving error.
pub fn quit_after_save<E>(saved: Result<(), E>) -> (r: Result<bool, E>)
    ensures
        match saved {
            Ok(_) => r == Ok::<bool, E>(true),
            Err(e) => r == Err::<bool, E>(e),
        },
{
    match saved {
        Ok(()) => Ok(true),
        Err(e) => Err(e),
    }
}

} // verus!
