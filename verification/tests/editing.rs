use shlack::input::{
    backspace, cursor_visual_pos, delete_forward, input_char, input_newline, move_cursor_down, move_cursor_end,
    move_cursor_home, move_cursor_left, move_cursor_right, move_cursor_up, tab_complete,
};
use shlack::keys::{key_action, quit_after_save, Key, KeyAction, KeyInput};
use shlack::messages::local_echo_message_data;
use shlack::models::{ChatInfo, ChatSection, ThreadInfo};
use shlack::slack::files::extract_redirect_from_html;
use shlack::ui::chat_list::{build_chat_list_rows, chat_idx_to_row, format_thread_time, message_clock, ChatListRow};
use shlack::widgets::ChatPane;

fn typed(text: &str) -> ChatPane {
    let mut p = ChatPane::new();
    for c in text.chars() {
        input_char(&mut p, c);
    }
    p
}

#[test]
fn typing_inserts_at_the_cursor() {
    let mut p = typed("hé!");
    assert_eq!(p.input_buffer, "hé!");
    assert_eq!(p.input_cursor, 4);
    move_cursor_left(&mut p);
    assert_eq!(p.input_cursor, 3);
    move_cursor_left(&mut p);
    assert_eq!(p.input_cursor, 1);
    input_char(&mut p, 'x');
    assert_eq!(p.input_buffer, "hxé!");
    assert_eq!(p.input_cursor, 2);
}

#[test]
fn backspace_undoes_typing() {
    let mut p = typed("ab");
    move_cursor_left(&mut p);
    input_char(&mut p, 'é');
    assert_eq!(p.input_buffer, "aéb");
    backspace(&mut p);
    assert_eq!(p.input_buffer, "ab");
    assert_eq!(p.input_cursor, 1);
}

#[test]
fn left_then_right_returns() {
    let mut p = typed("añb");
    move_cursor_left(&mut p);
    move_cursor_left(&mut p);
    let at = p.input_cursor;
    move_cursor_left(&mut p);
    move_cursor_right(&mut p);
    assert_eq!(p.input_cursor, at);
}

#[test]
fn delete_removes_the_next_character() {
    let mut p = typed("añb");
    move_cursor_home(&mut p);
    move_cursor_right(&mut p);
    delete_forward(&mut p);
    assert_eq!(p.input_buffer, "ab");
    assert_eq!(p.input_cursor, 1);
    move_cursor_end(&mut p);
    assert_eq!(p.input_cursor, 2);
    delete_forward(&mut p);
    assert_eq!(p.input_buffer, "ab");
}

#[test]
fn cursor_moves_between_lines() {
    let mut p = typed("abcd");
    input_newline(&mut p);
    input_char(&mut p, 'x');
    assert_eq!(p.input_buffer, "abcd\nx");
    move_cursor_up(&mut p);
    assert_eq!(p.input_cursor, 1);
    move_cursor_down(&mut p);
    assert_eq!(p.input_cursor, 6);
    assert_eq!(cursor_visual_pos("abcd\nx", 6, 80), (1, 1));
    assert_eq!(cursor_visual_pos("abcdef", 5, 4), (1, 1));
}

#[test]
fn tab_completes_commands_and_names() {
    let mut p = typed("/h");
    tab_complete(&mut p, &Vec::new());
    assert_eq!(p.input_buffer, "/h ");
    assert_eq!(p.input_cursor, 3);
    tab_complete(&mut p, &Vec::new());
    assert_eq!(p.input_buffer, "/help ");
    assert_eq!(p.input_cursor, 6);

    let mut p = typed("hi @al");
    let names = vec!["bob".to_string(), "alice".to_string(), "Alan".to_string()];
    tab_complete(&mut p, &names);
    assert_eq!(p.input_buffer, "hi @Alan ");
    assert_eq!(p.input_cursor, 9);
    tab_complete(&mut p, &names);
    assert_eq!(p.input_buffer, "hi @alice ");
}

#[test]
fn tab_completion_cycles_through_sorted_candidates() {
    let mut p = typed("hi @al");
    let names = vec!["Alice".to_string(), "alan".to_string(), "Bob".to_string(), "Alice".to_string()];
    tab_complete(&mut p, &names);
    assert_eq!(p.input_buffer, "hi @Alice ");
    assert_eq!(p.input_cursor, 10);
    assert_eq!(p.tab_complete_state.as_ref().unwrap().candidates, vec!["Alice".to_string(), "alan".to_string()]);
    tab_complete(&mut p, &names);
    assert_eq!(p.input_buffer, "hi @alan ");
    assert_eq!(p.input_cursor, 9);
    tab_complete(&mut p, &names);
    assert_eq!(p.input_buffer, "hi @Alice ");
}

#[test]
fn quitting_waits_for_the_save() {
    assert_eq!(quit_after_save::<String>(Ok(())), Ok(true));
    assert_eq!(quit_after_save(Err("disk full".to_string())), Err("disk full".to_string()));
}

#[test]
fn local_echo_carries_the_clock_reading() {
    let m = local_echo_message_data("me".to_string(), "hello".to_string(), 7, 1700000000);
    assert_eq!(m.ts, "1700000000.local.7");
    assert_eq!(m.local_echo_id, Some(7));
    assert!(m.is_outgoing);
    assert_eq!(m.sender_name, "me");
    assert_eq!(m.text, "hello");
    assert_eq!(m.reply_count, 0);
    assert!(!m.mentions_me && !m.is_edited && !m.is_deleted);
    assert!(m.media_type.is_none() && m.file_ids.is_empty() && m.cards.is_empty());
}

#[test]
fn keys_map_to_actions() {
    let ctrl_q = KeyInput { key: Key::Char('q'), ctrl: true, shift: false };
    assert_eq!(key_action(ctrl_q, false, true, None), KeyAction::Quit);
    let ctrl_3 = KeyInput { key: Key::Char('3'), ctrl: true, shift: false };
    assert_eq!(key_action(ctrl_3, false, true, None), KeyAction::SwitchWorkspace(2));
    let enter = KeyInput { key: Key::Enter, ctrl: false, shift: false };
    assert_eq!(key_action(enter, true, true, Some(4)), KeyAction::OpenThread(4));
    assert_eq!(key_action(enter, true, true, None), KeyAction::OpenSelectedChat);
    assert_eq!(key_action(enter, false, false, None), KeyAction::SendMessage);
    let shift_enter = KeyInput { key: Key::Enter, ctrl: false, shift: true };
    assert_eq!(key_action(shift_enter, false, false, None), KeyAction::InputNewline);
    let tab = KeyInput { key: Key::Tab, ctrl: false, shift: false };
    assert_eq!(key_action(tab, false, false, None), KeyAction::TabComplete);
    assert_eq!(key_action(tab, false, true, None), KeyAction::NextPane);
    let ctrl_left = KeyInput { key: Key::Left, ctrl: true, shift: false };
    assert_eq!(key_action(ctrl_left, true, true, None), KeyAction::ResizeChatList(-2));
}

fn chat(id: &str, name: &str, unread: u32, section: ChatSection) -> ChatInfo {
    ChatInfo { id: id.to_string(), name: name.to_string(), username: None, unread, section, is_member: true }
}

#[test]
fn sidebar_rows_group_chats() {
    let chats = vec![
        chat("C1", "general", 0, ChatSection::Public),
        chat("C2", "random", 2, ChatSection::Public),
        chat("D1", "alice", 0, ChatSection::DirectMessage),
    ];
    let threads = vec![
        ThreadInfo {
            channel_id: "C1".to_string(),
            channel_name: "general".to_string(),
            thread_ts: "1.0".to_string(),
            last_reply_ts: "5.0".to_string(),
            unread: 0,
            mentioned: false,
            on_my_message: true,
            i_replied: false,
            last_reply_user: None,
        },
        ThreadInfo {
            channel_id: "C1".to_string(),
            channel_name: "general".to_string(),
            thread_ts: "2.0".to_string(),
            last_reply_ts: "9.0".to_string(),
            unread: 1,
            mentioned: true,
            on_my_message: false,
            i_replied: false,
            last_reply_user: None,
        },
    ];
    let rows = build_chat_list_rows(&chats, &threads, &Vec::new());
    let shape: Vec<String> = rows
        .iter()
        .map(|r| match r {
            ChatListRow::Header(l) => format!("H:{}", l),
            ChatListRow::Chat(i) => format!("C:{}", i),
            ChatListRow::Thread(i) => format!("T:{}", i),
        })
        .collect();
    assert_eq!(shape[0], "H:New");
    assert_eq!(shape[1], "C:1");
    assert_eq!(shape[2], "H:Threads");
    assert_eq!(shape[3], "T:1");
    assert_eq!(shape[4], "T:0");
    assert!(shape.contains(&"C:0".to_string()));
    assert!(shape.contains(&"C:2".to_string()));
    assert_eq!(chat_idx_to_row(&rows, 1), 1);
    assert_eq!(chat_idx_to_row(&rows, 99), 0);

    let collapsed = vec!["New".to_string()];
    let rows = build_chat_list_rows(&chats, &threads, &collapsed);
    assert!(matches!(rows[0], ChatListRow::Header(ref l) if l == "New"));
    assert!(matches!(rows[1], ChatListRow::Header(ref l) if l == "Threads"));
}

#[test]
fn thread_times_fall_back_to_the_timestamp() {
    assert_eq!(format_thread_time("not-a-time"), "not-a-time");
    let t = format_thread_time("1700000000.000100");
    assert!(t.len() == 5 && t.as_bytes()[2] == b':');
}

#[test]
fn redirect_found_in_entry_point() {
    let html = r#"<div data-props='{"entryPoint":"https:\/\/files.slack.com\/files-pri\/T1\/a.png","x":1}'>"#;
    assert_eq!(
        extract_redirect_from_html(html),
        Some("https://files.slack.com/files-pri/T1/a.png".to_string())
    );
    assert_eq!(extract_redirect_from_html("<html>nothing here</html>"), None);
}

#[test]
fn message_clock_shows_a_clock_time_for_a_timestamp() {
    let t = message_clock("1700000000.000100", true).unwrap();
    assert_eq!(t.len(), 5);
    assert_eq!(&t[2..3], ":");
    assert!(message_clock("1700000000.000100", false).is_none());
    assert!(message_clock("not a timestamp", true).is_none());
}
