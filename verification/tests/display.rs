use shlack::style::{Color, Style, StyledSpan, BOLD};
use shlack::ui::cards::{build_input_preview, parse_hex_color, render_card, wrap_spans_hanging};
use shlack::ui::chat_pane::{
    header_height, header_line, image_clip, input_scroll, pane_message_lines, visible_scroll, PaneSettings,
};
use shlack::ui::layout::{mentions_banner, other_workspace_mentions, realtime_status, sidebar_width};
use shlack::models::{ChatInfo, ChatSection};
use shlack::widgets::{AttachmentCard, MessageData};

fn texts(line: &Vec<StyledSpan>) -> Vec<&str> {
    line.iter().map(|s| s.content.as_str()).collect()
}

fn plain_card(body: &str) -> AttachmentCard {
    AttachmentCard {
        color: Some("good".to_string()),
        author: Some("bot".to_string()),
        title: Some("Deploy".to_string()),
        title_link: None,
        pretext: None,
        body: body.to_string(),
        footer: None,
    }
}

fn msg(sender: &str, text: &str) -> MessageData {
    MessageData {
        sender_name: sender.to_string(),
        text: text.to_string(),
        is_outgoing: false,
        ts: "1700000000.000100".to_string(),
        reactions: Vec::new(),
        reply_count: 0,
        cards: Vec::new(),
        mentions_me: false,
        local_echo_id: None,
        is_edited: false,
        is_deleted: false,
        media_type: None,
        file_ids: Vec::new(),
        file_urls: Vec::new(),
        file_names: Vec::new(),
    }
}

fn quiet() -> PaneSettings {
    PaneSettings {
        show_emojis: false,
        show_reactions: true,
        show_line_numbers: false,
        show_timestamps: false,
        show_user_colors: false,
        show_image_preview: true,
    }
}

fn same_name(id: &str) -> String {
    id.to_string()
}

#[test]
fn preview_breaks_lines_at_newlines() {
    let lines = build_input_preview("a\nb", false, Style::new());
    assert_eq!(lines.len(), 2);
    assert_eq!(texts(&lines[0]), vec!["a"]);
    assert_eq!(texts(&lines[1]), vec!["b"]);
    let lines = build_input_preview("x\n", false, Style::new());
    assert_eq!(lines.len(), 2);
    assert!(lines[1].is_empty());
}

#[test]
fn preview_keeps_markers_visible() {
    let lines = build_input_preview("*hi*\nx", false, Style::new());
    assert_eq!(lines.len(), 2);
    assert_eq!(texts(&lines[0]).concat(), "*hi*");
    assert_eq!(lines[0][0].style.add_modifier & BOLD, BOLD);
    assert_eq!(texts(&lines[1]).concat(), "x");
    let lines = build_input_preview("say `code` :fire: _now_", true, Style::new());
    assert_eq!(lines.len(), 1);
    assert_eq!(texts(&lines[0]).concat(), "say `code` :fire: _now_");
}

#[test]
fn card_has_header_body_and_corner() {
    let lines = render_card(&plain_card("done"), 40, false, &same_name);
    assert_eq!(lines.len(), 3);
    assert_eq!(texts(&lines[0]), vec!["╭ ", "@bot", " · ", "Deploy"]);
    assert_eq!(lines[0][0].style.fg, Some(Color::Green));
    assert_eq!(lines[0][3].style.add_modifier & BOLD, BOLD);
    assert_eq!(texts(&lines[1])[0], "│ ");
    assert_eq!(texts(&lines[1])[1], "done");
    assert_eq!(texts(&lines[2]), vec!["╰"]);
}

#[test]
fn long_card_bodies_are_cut() {
    let body = vec!["x"; 30].join("\n");
    let lines = render_card(&plain_card(&body), 40, false, &same_name);
    // header, 24 body lines, the ellipsis line, the bottom corner
    assert_eq!(lines.len(), 27);
    assert_eq!(texts(&lines[25]), vec!["│ ", "…"]);
}

#[test]
fn hex_colors_parse() {
    assert_eq!(parse_hex_color(" #FF8000 "), Some(Color::Rgb(255, 128, 0)));
    assert_eq!(parse_hex_color("Danger"), Some(Color::Red));
    assert_eq!(parse_hex_color("#12345"), None);
    assert_eq!(parse_hex_color("zz0000"), None);
}

#[test]
fn wrapping_moves_words_and_indents() {
    let spans = vec![StyledSpan::raw("aaa bbb ccc".to_string())];
    let lines = wrap_spans_hanging(&spans, 7, 5, "  ");
    let joined: Vec<String> = lines.iter().map(|l| texts(l).concat()).collect();
    assert_eq!(joined, vec!["aaa bbb".to_string(), "  ccc".to_string()]);
}

#[test]
fn message_lines_show_sender_and_text() {
    let out = pane_message_lines(&vec![msg("bob", "hello")], quiet(), 80, &same_name);
    assert_eq!(out.lines.len(), 1);
    assert_eq!(texts(&out.lines[0]), vec!["bob ", "hello"]);
    assert!(out.images.is_empty());
}

#[test]
fn message_lines_pad_names_and_number_lines() {
    let mut settings = quiet();
    settings.show_line_numbers = true;
    let out = pane_message_lines(&vec![msg("bob", "hi"), msg("alice", "yo")], settings, 80, &same_name);
    assert_eq!(out.lines.len(), 2);
    assert_eq!(texts(&out.lines[0]), vec!["#1 ", "bob   ", "hi"]);
    assert_eq!(texts(&out.lines[1]), vec!["#2 ", "alice ", "yo"]);
}

#[test]
fn message_lines_show_markers() {
    let mut m = msg("bob", "hi");
    m.is_edited = true;
    m.reply_count = 2;
    m.reactions = vec![("thumbsup".to_string(), 3)];
    let out = pane_message_lines(&vec![m], quiet(), 80, &same_name);
    assert_eq!(texts(&out.lines[0]).concat(), "bob hi (edited) [2 replies]   \u{1F44D} 3 ");
}

#[test]
fn mentions_are_highlighted_to_the_edge() {
    let mut m = msg("bob", "hi");
    m.mentions_me = true;
    let out = pane_message_lines(&vec![m], quiet(), 20, &same_name);
    let line = &out.lines[0];
    let last = line.last().unwrap();
    assert_eq!(last.content, " ".repeat(14));
    assert_eq!(last.style.bg, Some(Color::Red));
    assert!(line.iter().all(|s| s.style.bg == Some(Color::Red)));
}

#[test]
fn images_get_rows_and_a_placement() {
    let mut m = msg("bob", "pic");
    m.media_type = Some("image".to_string());
    m.file_urls = vec!["https://example.com/a.png".to_string()];
    let out = pane_message_lines(&vec![msg("amy", "first"), m], quiet(), 80, &same_name);
    assert_eq!(out.lines.len(), 2 + 16);
    assert_eq!(out.images.len(), 1);
    assert_eq!(out.images[0].line, 2);
    assert_eq!(out.images[0].name, "image");
    assert_eq!(texts(&out.lines[1]).concat(), "bob pic [img]");
}

#[test]
fn pane_layout_arithmetic() {
    assert_eq!(visible_scroll(10, 50, 20), 10);
    assert_eq!(visible_scroll(100, 50, 20), 30);
    assert_eq!(visible_scroll(5, 10, 20), 0);
    assert_eq!(image_clip(10, 0, 20, 80), Some((10, 10)));
    assert_eq!(image_clip(0, 20, 20, 80), None);
    assert_eq!(image_clip(5, 10, 20, 80), Some((0, 11)));
    assert_eq!(image_clip(5, 0, 20, 0), None);
    assert_eq!(input_scroll(5, 3), 3);
    assert_eq!(input_scroll(1, 3), 0);
    assert_eq!(input_scroll(5, 0), 0);
    assert_eq!(header_height(false, false), 2);
    assert_eq!(header_height(true, true), 2);
    assert_eq!(header_height(true, false), 3);
    assert_eq!(header_line(true, true, "#general"), "[TARGET] #general");
    assert_eq!(header_line(true, false, "#general"), "#general");
}

#[test]
fn frame_lines_and_sidebar_width() {
    let counts = vec![("work".to_string(), 2), ("home".to_string(), 0), ("fun".to_string(), 1)];
    let others = other_workspace_mentions(&counts, "work");
    assert_eq!(others, vec![("fun".to_string(), 1)]);
    assert_eq!(mentions_banner(&others), " Mentions in other workspaces: fun: 1@ (Ctrl+N to switch)");
    assert_eq!(realtime_status(Some(45)), " RT stale 45s");
    assert_eq!(realtime_status(Some(3)), " RT ok 3s");
    assert_eq!(realtime_status(None), " RT —");
    assert_eq!(sidebar_width(Some(5), 100, &Vec::new()), 10);
    assert_eq!(sidebar_width(Some(300), 100, &Vec::new()), 80);
    assert_eq!(sidebar_width(Some(50), 25, &Vec::new()), 10);
    let chats = vec![ChatInfo {
        id: "C1".to_string(),
        name: "general".to_string(),
        username: None,
        unread: 3,
        section: ChatSection::Public,
        is_member: true,
    }];
    assert_eq!(sidebar_width(None, 100, &chats), 19);
    assert_eq!(sidebar_width(None, 100, &Vec::new()), 26);
}
