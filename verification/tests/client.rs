use shlack::compose::{clear_compose, convert_mentions_to_ids, prepare_send, Outgoing};
use shlack::events::{remember_my_message, ClientState};
use shlack::formatting::{color_for_hash, username_color};
use shlack::messages::NameCache;
use shlack::models::{ChatInfo, ChatSection, ThreadInfo};
use shlack::navigation::{
    apply_click, close_pane, ensure_valid_pane_idx, mouse_target, next_pane, resize_chat_list, scroll_to_bottom,
    scroll_to_top, Area, Click, PendingOpen,
};
use shlack::notify::{check_deadlines, escape_quotes, notification_urgency, track_typing, typing_expired};
use shlack::opening::{
    apply_chat_load, begin_open_chat, fill_pane_history, names_to_fetch, open_thread_pane, panes_to_load,
    show_workspace_list, take_pending_thread,
};
use shlack::refresh::{clamp_selection, refreshed_chats, unread_snapshot};
use shlack::slack::socket::{next_backoff, plan_envelope};
use shlack::slack::types::SlackMessage;
use shlack::style::Color;
use shlack::ui::chat_list::{sidebar_scroll, ChatListRow, ChatSelection};
use shlack::widgets::ChatPane;
use shlack::workspace::{check_switch, restore_panes, SavedPane, SwitchRefusal};

fn chat(id: &str, name: &str, unread: u32, section: ChatSection) -> ChatInfo {
    ChatInfo { id: id.to_string(), name: name.to_string(), username: None, unread, section, is_member: true }
}

fn thread(channel: &str, ts: &str) -> ThreadInfo {
    ThreadInfo {
        channel_id: channel.to_string(),
        channel_name: "general".to_string(),
        thread_ts: ts.to_string(),
        last_reply_ts: ts.to_string(),
        unread: 3,
        mentioned: true,
        on_my_message: false,
        i_replied: false,
        last_reply_user: None,
    }
}

fn pane_on(channel: &str) -> ChatPane {
    let mut p = ChatPane::new();
    p.channel_id_str = Some(channel.to_string());
    p
}

fn state(chats: Vec<ChatInfo>, threads: Vec<ThreadInfo>, panes: Vec<ChatPane>) -> ClientState {
    ClientState {
        chats,
        threads,
        panes,
        focused_pane_idx: 0,
        focus_on_chat_list: false,
        my_message_ts: Vec::new(),
        threads_dirty: false,
        unread_dirty: false,
        pending_refresh_chats: false,
        needs_redraw: false,
        show_notifications: false,
        workspace_name: "work".to_string(),
        unread_mentions: vec![("work".to_string(), 4)],
    }
}

fn message(ts: &str, user: &str, text: &str, replies: Option<u32>) -> SlackMessage {
    SlackMessage {
        msg_type: "message".to_string(),
        ts: ts.to_string(),
        user: Some(user.to_string()),
        text: text.to_string(),
        bot_id: None,
        username: None,
        app_id: None,
        bot_profile: None,
        reactions: Vec::new(),
        thread_ts: None,
        reply_count: replies,
        attachments: Vec::new(),
        files: Vec::new(),
        blocks: Vec::new(),
    }
}

fn users() -> NameCache {
    let mut c = NameCache::new();
    c.insert("U1".to_string(), "Alice".to_string());
    c.insert("U2".to_string(), "bob".to_string());
    c
}

#[test]
fn pane_key_visits_panes_in_turn() {
    let mut st = state(Vec::new(), Vec::new(), vec![ChatPane::new(), ChatPane::new(), ChatPane::new()]);
    st.focus_on_chat_list = true;
    next_pane(&mut st);
    assert!(!st.focus_on_chat_list);
    assert_eq!(st.focused_pane_idx, 0);
    next_pane(&mut st);
    assert_eq!(st.focused_pane_idx, 1);
    next_pane(&mut st);
    assert_eq!(st.focused_pane_idx, 2);
    next_pane(&mut st);
    assert_eq!(st.focused_pane_idx, 0);
}

#[test]
fn focusing_a_pane_marks_its_chat_read() {
    let mut st = state(vec![chat("C1", "general", 3, ChatSection::Public)], Vec::new(), vec![pane_on("C1")]);
    st.focus_on_chat_list = true;
    next_pane(&mut st);
    assert_eq!(st.chats[0].unread, 0);
    assert_eq!(st.unread_mentions, vec![("work".to_string(), 0)]);
}

#[test]
fn focusing_a_thread_pane_marks_the_thread_read() {
    let mut p = pane_on("C1");
    p.thread_ts = Some("1.0".to_string());
    let mut st =
        state(vec![chat("C1", "general", 3, ChatSection::Public)], vec![thread("C1", "1.0")], vec![ChatPane::new(), p]);
    next_pane(&mut st);
    assert_eq!(st.focused_pane_idx, 1);
    assert_eq!(st.threads[0].unread, 0);
    assert!(!st.threads[0].mentioned);
    assert_eq!(st.chats[0].unread, 3);
}

#[test]
fn sidebar_width_is_kept_in_range() {
    assert_eq!(resize_chat_list(true, None, None, 5), Some(30));
    assert_eq!(resize_chat_list(true, Some(195), None, 10), Some(200));
    assert_eq!(resize_chat_list(true, Some(12), None, -5), Some(10));
    assert_eq!(resize_chat_list(true, None, Some(50), -3), Some(47));
    assert_eq!(resize_chat_list(false, Some(40), None, 5), Some(40));
}

#[test]
fn closing_a_pane_focuses_its_neighbour() {
    let mut st = state(Vec::new(), Vec::new(), vec![pane_on("A"), pane_on("B"), pane_on("C")]);
    st.focused_pane_idx = 1;
    assert!(close_pane(&mut st, &vec![0, 1, 2]));
    assert_eq!(st.panes.len(), 2);
    assert_eq!(st.panes[1].channel_id_str.as_deref(), Some("C"));
    assert_eq!(st.focused_pane_idx, 1);

    let mut st = state(Vec::new(), Vec::new(), vec![pane_on("A"), pane_on("B"), pane_on("C")]);
    st.focused_pane_idx = 2;
    assert!(close_pane(&mut st, &vec![0, 1, 2]));
    assert_eq!(st.focused_pane_idx, 1);

    let mut st = state(Vec::new(), Vec::new(), vec![pane_on("A")]);
    assert!(!close_pane(&mut st, &vec![0]));
    assert_eq!(st.panes.len(), 1);
}

#[test]
fn focus_index_is_repaired() {
    let mut st = state(Vec::new(), Vec::new(), Vec::new());
    st.focused_pane_idx = 3;
    ensure_valid_pane_idx(&mut st);
    assert_eq!(st.panes.len(), 1);
    assert_eq!(st.focused_pane_idx, 0);

    let mut st = state(Vec::new(), Vec::new(), vec![ChatPane::new(), ChatPane::new()]);
    st.focused_pane_idx = 5;
    ensure_valid_pane_idx(&mut st);
    assert_eq!(st.focused_pane_idx, 1);
}

#[test]
fn scrolling_to_the_ends() {
    let mut st = state(Vec::new(), Vec::new(), vec![ChatPane::new(), ChatPane::new()]);
    st.focused_pane_idx = 1;
    scroll_to_bottom(&mut st);
    assert_eq!(st.panes[1].scroll_offset, usize::MAX);
    assert_eq!(st.panes[0].scroll_offset, 0);
    scroll_to_top(&mut st);
    assert_eq!(st.panes[1].scroll_offset, 0);
}

#[test]
fn typed_mentions_become_ids() {
    let u = users();
    assert_eq!(convert_mentions_to_ids("hi @alice, and @BOB!", &u), "hi <@U1>, and <@U2>!");
    assert_eq!(convert_mentions_to_ids("@unknown stays", &u), "@unknown stays");
    assert_eq!(convert_mentions_to_ids("mail me@", &u), "mail me@");
    assert_eq!(convert_mentions_to_ids("@@alice", &u), "@<@U1>");
}

#[test]
fn sending_posts_and_echoes() {
    let mut p = pane_on("C1");
    p.input_buffer = "  hello @alice  ".to_string();
    p.input_cursor = 16;
    let mut st = state(Vec::new(), Vec::new(), vec![p]);
    let mut next_id: u64 = 7;
    let mut history: Vec<String> = Vec::new();
    match prepare_send(&mut st, &users(), "U1", &mut next_id, &mut history, 1700000000) {
        Outgoing::Message { channel_id, text, thread_ts } => {
            assert_eq!(channel_id, "C1");
            assert_eq!(text, "hello <@U1>");
            assert_eq!(thread_ts, None);
        }
        other => panic!("unexpected {:?}", other),
    }
    assert_eq!(next_id, 8);
    assert_eq!(history, vec!["hello @alice".to_string()]);
    let pane = &st.panes[0];
    assert_eq!(pane.msg_data.len(), 1);
    assert_eq!(pane.msg_data[0].text, "hello @alice");
    assert_eq!(pane.msg_data[0].sender_name, "Alice");
    assert_eq!(pane.msg_data[0].local_echo_id, Some(7));
    assert_eq!(pane.msg_data[0].ts, "1700000000.local.7");
    assert_eq!(pane.input_buffer, "");
    assert_eq!(pane.input_cursor, 0);
    assert_eq!(pane.scroll_offset, usize::MAX);
    assert!(st.needs_redraw);
}

#[test]
fn commands_and_blank_input_send_nothing() {
    let mut p = pane_on("C1");
    p.input_buffer = "/help".to_string();
    p.input_cursor = 5;
    let mut st = state(Vec::new(), Vec::new(), vec![p]);
    let mut next_id: u64 = 1;
    let mut history: Vec<String> = Vec::new();
    match prepare_send(&mut st, &users(), "U1", &mut next_id, &mut history, 1700000000) {
        Outgoing::Command(c) => assert_eq!(c, "/help"),
        other => panic!("unexpected {:?}", other),
    }
    assert_eq!(st.panes[0].input_buffer, "/help");
    clear_compose(&mut st);
    assert_eq!(st.panes[0].input_buffer, "");
    assert_eq!(st.panes[0].input_cursor, 0);

    let mut p = pane_on("C1");
    p.input_buffer = "   ".to_string();
    p.input_cursor = 3;
    let mut st = state(Vec::new(), Vec::new(), vec![p]);
    assert!(matches!(prepare_send(&mut st, &users(), "U1", &mut next_id, &mut history, 1700000000), Outgoing::Nothing));
    assert_eq!(next_id, 1);

    let mut p = ChatPane::new();
    p.input_buffer = "hi".to_string();
    p.input_cursor = 2;
    let mut st = state(Vec::new(), Vec::new(), vec![p]);
    assert!(matches!(prepare_send(&mut st, &users(), "U1", &mut next_id, &mut history, 1700000000), Outgoing::Nothing));
    assert!(history.is_empty());
}

#[test]
fn opening_a_chat_marks_it_read() {
    let mut st = state(vec![chat("C1", "general", 2, ChatSection::Public)], Vec::new(), vec![pane_on("C9")]);
    st.focus_on_chat_list = true;
    let opened = begin_open_chat(&mut st, 0);
    assert_eq!(opened, Some(("C1".to_string(), "general".to_string())));
    assert_eq!(st.panes[0].channel_id_str.as_deref(), Some("C1"));
    assert_eq!(st.panes[0].chat_name, "general");
    assert_eq!(st.chats[0].unread, 0);
    assert!(st.unread_dirty);
    assert!(!st.focus_on_chat_list);
    assert_eq!(st.unread_mentions, vec![("work".to_string(), 0)]);
    assert_eq!(begin_open_chat(&mut st, 5), None);
}

#[test]
fn names_to_fetch_lists_unknown_authors_once() {
    let mut bot = message("3.0", "U1", "beep", None);
    bot.user = None;
    bot.bot_id = Some("B1".to_string());
    let msgs = vec![message("1.0", "U7", "a", None), message("2.0", "U2", "b", None), message("2.5", "U7", "c", None), bot];
    let (users_needed, bots_needed) = names_to_fetch(&msgs, &users());
    assert_eq!(users_needed, vec!["U7".to_string()]);
    assert_eq!(bots_needed, vec!["B1".to_string()]);
}

#[test]
fn loaded_history_fills_pane_and_backfills_threads() {
    let mut st = state(vec![chat("C1", "general", 0, ChatSection::Public)], Vec::new(), vec![pane_on("C1")]);
    let msgs = vec![message("2.0", "U9", "newer", None), message("1.0", "U1", "mine with replies", Some(2))];
    assert!(apply_chat_load(&mut st, 0, "C1", &msgs, "U1", &users()));
    let texts: Vec<&str> = st.panes[0].msg_data.iter().map(|m| m.text.as_str()).collect();
    assert_eq!(texts, vec!["mine with replies", "newer"]);
    assert_eq!(st.panes[0].scroll_offset, usize::MAX);
    assert_eq!(st.threads.len(), 1);
    assert_eq!(st.threads[0].thread_ts, "1.0");
    assert_eq!(st.threads[0].channel_name, "general");
    assert!(st.threads[0].on_my_message);
    assert_eq!(st.threads[0].unread, 0);
    assert!(st.threads_dirty);
    assert_eq!(st.my_message_ts, vec![("C1".to_string(), "1.0".to_string())]);
    // A result for a channel the pane no longer shows is dropped.
    assert!(!apply_chat_load(&mut st, 0, "C2", &msgs, "U1", &users()));
    assert!(!apply_chat_load(&mut st, 3, "C1", &msgs, "U1", &users()));
}

#[test]
fn reloading_panes_keeps_thread_order() {
    let mut tp = pane_on("C1");
    tp.thread_ts = Some("1.0".to_string());
    let mut st = state(Vec::new(), Vec::new(), vec![pane_on("C1"), ChatPane::new(), tp]);
    let targets = panes_to_load(&st.panes);
    assert_eq!(targets, vec![(0, "C1".to_string(), None), (2, "C1".to_string(), Some("1.0".to_string()))]);
    let msgs = vec![message("1.0", "U1", "first", None), message("1.1", "U2", "second", None)];
    fill_pane_history(&mut st, 2, &msgs, true, "U1", &users());
    let texts: Vec<&str> = st.panes[2].msg_data.iter().map(|m| m.text.as_str()).collect();
    assert_eq!(texts, vec!["first", "second"]);
    fill_pane_history(&mut st, 0, &msgs, false, "U1", &users());
    let texts: Vec<&str> = st.panes[0].msg_data.iter().map(|m| m.text.as_str()).collect();
    assert_eq!(texts, vec!["second", "first"]);
}

#[test]
fn opening_a_clicked_thread() {
    let mut threads = vec![thread("C1", "1.0")];
    let got = take_pending_thread(&mut threads, 0);
    assert_eq!(got, Some(("C1".to_string(), "1.0".to_string(), "general".to_string())));
    assert_eq!(threads[0].unread, 0);
    assert!(!threads[0].mentioned);
    assert_eq!(take_pending_thread(&mut threads, 4), None);

    let mut st = state(Vec::new(), Vec::new(), vec![ChatPane::new()]);
    st.focus_on_chat_list = true;
    let idx = open_thread_pane(&mut st, "C1", "1.0", "alice");
    assert_eq!(idx, 1);
    assert_eq!(st.focused_pane_idx, 1);
    assert_eq!(st.panes[1].chat_name, "Thread: alice");
    assert_eq!(st.panes[1].thread_ts.as_deref(), Some("1.0"));
    assert!(!st.focus_on_chat_list);
}

#[test]
fn workspace_list_marks_active_and_mentions() {
    let text = show_workspace_list(
        &vec!["work".to_string(), "home".to_string()],
        0,
        &vec![("home".to_string(), 2)],
    );
    assert_eq!(text, "Workspaces (Ctrl+1-9 to switch):\n* 1. work\n  2. home [2@]\n");
}

#[test]
fn refresh_keeps_local_unread_and_sorts() {
    let new_chats = vec![
        chat("C2", "beta", 0, ChatSection::Public),
        chat("D1", "zed", 0, ChatSection::DirectMessage),
        chat("C1", "Alpha", 0, ChatSection::Public),
        chat("P1", "priv", 1, ChatSection::Private),
    ];
    let prev = vec![chat("C2", "beta", 4, ChatSection::Public), chat("P1", "priv", 9, ChatSection::Private)];
    let saved = vec![("C1".to_string(), 7), ("C2".to_string(), 1)];
    let chats = refreshed_chats(new_chats, &prev, &saved);
    let ids: Vec<&str> = chats.iter().map(|c| c.id.as_str()).collect();
    assert_eq!(ids, vec!["C1", "C2", "P1", "D1"]);
    let unread: Vec<u32> = chats.iter().map(|c| c.unread).collect();
    assert_eq!(unread, vec![7, 4, 1, 0]);
    assert_eq!(unread_snapshot(&chats)[0], ("C1".to_string(), 7));
    assert_eq!(clamp_selection(5, 3), 2);
    assert_eq!(clamp_selection(1, 3), 1);
    assert_eq!(clamp_selection(0, 0), 0);
}

#[test]
fn workspace_switch_checks() {
    assert_eq!(check_switch(3, 2, 0, false), Err(SwitchRefusal::InvalidIndex));
    assert_eq!(check_switch(0, 2, 0, false), Err(SwitchRefusal::AlreadyActive));
    assert_eq!(check_switch(1, 2, 0, true), Err(SwitchRefusal::InProgress));
    assert_eq!(check_switch(1, 2, 0, false), Ok(()));
    assert_eq!(SwitchRefusal::InProgress.message(), "Workspace switch already in progress");
}

#[test]
fn saved_layout_is_restored() {
    let saved = vec![SavedPane {
        channel_id: Some("C1".to_string()),
        chat_name: "general".to_string(),
        scroll_offset: 5,
        thread_ts: None,
    }];
    let (panes, focus) = restore_panes(&saved, &vec![0, 2], 4);
    assert_eq!(panes.len(), 3);
    assert_eq!(panes[0].channel_id_str.as_deref(), Some("C1"));
    assert_eq!(panes[0].scroll_offset, 5);
    assert_eq!(panes[2].channel_id_str, None);
    assert_eq!(focus, 0);
    let (panes, focus) = restore_panes(&Vec::new(), &Vec::new(), 0);
    assert_eq!(panes.len(), 1);
    assert_eq!(focus, 0);
}

#[test]
fn notifier_helpers() {
    assert_eq!(notification_urgency("critical"), "critical");
    assert_eq!(notification_urgency("urgent"), "normal");
    assert_eq!(escape_quotes("say \"hi\""), "say \\\"hi\\\"");
    let (passed, wait) = check_deadlines(&vec![100, 130, 300], 120);
    assert_eq!(passed, vec![true, false, false]);
    assert_eq!(wait, 10);
    let (_, wait) = check_deadlines(&Vec::new(), 0);
    assert_eq!(wait, 50);
}

#[test]
fn user_colors_come_from_the_palette() {
    assert_eq!(color_for_hash(0), Color::Cyan);
    assert_eq!(color_for_hash(17), Color::Green);
    assert_eq!(color_for_hash(15), Color::Rgb(255, 215, 0));
    assert_eq!(username_color("alice"), username_color("alice"));
}

#[test]
fn clicks_select_rows_and_panes() {
    let rows = vec![
        ChatListRow::Header("Threads".to_string()),
        ChatListRow::Thread(0),
        ChatListRow::Chat(0),
    ];
    let list = Some(Area { x: 0, y: 0, width: 20, height: 10 });
    let panes = vec![(0usize, Area { x: 20, y: 0, width: 40, height: 10 })];
    assert!(matches!(mouse_target(3, 1, list, true, 0, &rows, &panes), Click::ListHeader(ref l) if l == "Threads"));
    assert!(matches!(mouse_target(3, 3, list, true, 0, &rows, &panes), Click::ListChat(0)));
    assert!(matches!(mouse_target(3, 1, list, false, 1, &rows, &panes), Click::ListChat(0)));
    assert!(matches!(mouse_target(3, 8, list, true, 0, &rows, &panes), Click::ListBlank));
    assert!(matches!(mouse_target(30, 5, list, true, 0, &rows, &panes), Click::Pane(0)));
    assert!(matches!(mouse_target(70, 5, list, true, 0, &rows, &panes), Click::Nothing));

    let mut st = state(vec![chat("C1", "general", 0, ChatSection::Public)], vec![thread("C1", "1.0")], vec![ChatPane::new()]);
    st.focus_on_chat_list = true;
    let mut sel = ChatSelection { selected_chat_idx: 0, selected_thread_idx: None };
    let mut pending = PendingOpen { chat: false, thread: None };
    let mut collapsed: Vec<String> = Vec::new();
    apply_click(&mut st, &mut sel, &mut pending, &mut collapsed, Click::ListThread(0));
    assert_eq!(sel.selected_thread_idx, Some(0));
    assert_eq!(pending.thread, Some(0));
    assert!(!st.focus_on_chat_list);
    apply_click(&mut st, &mut sel, &mut pending, &mut collapsed, Click::ListHeader("Threads".to_string()));
    assert_eq!(collapsed, vec!["Threads".to_string()]);
    assert!(st.focus_on_chat_list);
    apply_click(&mut st, &mut sel, &mut pending, &mut collapsed, Click::ListChat(0));
    assert!(pending.chat);
    assert_eq!(sel.selected_thread_idx, None);
}

#[test]
fn sidebar_scrolls_to_the_selection() {
    assert_eq!(sidebar_scroll(10, 0, 5), 6);
    assert_eq!(sidebar_scroll(2, 5, 5), 2);
    assert_eq!(sidebar_scroll(6, 5, 5), 5);
}

#[test]
fn own_messages_are_remembered_once() {
    let mut mine: Vec<(String, String)> = Vec::new();
    remember_my_message(&mut mine, "C1", "1.0");
    remember_my_message(&mut mine, "C1", "1.0");
    remember_my_message(&mut mine, "C1", "2.0");
    assert_eq!(mine.len(), 2);
}

#[test]
fn socket_decisions() {
    assert_eq!(next_backoff(1), 2);
    assert_eq!(next_backoff(40), 60);
    let plan = plan_envelope("disconnect", Some("e1".to_string()));
    assert!(plan.reconnect && plan.ack_id.is_none() && !plan.dispatch);
    let plan = plan_envelope("events_api", Some("e2".to_string()));
    assert!(!plan.reconnect && plan.dispatch);
    assert_eq!(plan.ack_id.as_deref(), Some("e2"));
}

#[test]
fn typing_lines_expire_after_five_seconds() {
    let bob = Some("bob".to_string());
    let t = track_typing(&bob, None, 100);
    assert_eq!(t.as_ref().map(|t| (t.user.as_str(), t.until)), Some(("bob", 5100)));
    let t = track_typing(&bob, t, 3000);
    assert_eq!(t.as_ref().map(|t| t.until), Some(5100));
    assert!(!typing_expired(&t, 5099));
    assert!(typing_expired(&t, 5100));
    let t = track_typing(&Some("amy".to_string()), t, 4000);
    assert_eq!(t.as_ref().map(|t| (t.user.as_str(), t.until)), Some(("amy", 9000)));
    assert!(track_typing(&None, t, 4000).is_none());
    assert!(!typing_expired(&None, u64::MAX));
}
