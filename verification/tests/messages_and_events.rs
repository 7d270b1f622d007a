use shlack::events::{debounced_save_due, is_thread_reply, should_bump_thread_unread, thread_concerns_me};
use shlack::formatting::{convert_slack_emojis, convert_slack_links, convert_slack_mentions};
use shlack::messages::{
    detect_media_type, message_mentions_user, realtime_message_to_message_data, slack_message_to_message_data,
    NameCache,
};
use shlack::slack::http::merge_channels_for_sidebar;
use shlack::slack::types::{BotProfile, Channel, SlackFile, SlackMessage, SlackReaction};

#[test]
fn is_thread_reply_when_parent_differs() {
    assert!(is_thread_reply("100.001", &Some("100.000".to_string())));
    assert!(!is_thread_reply("100.001", &Some("100.001".to_string())));
    assert!(!is_thread_reply("100.001", &None));
}

#[test]
fn should_bump_thread_unread_skips_self_and_focused() {
    assert!(!should_bump_thread_unread(true, false));
    assert!(!should_bump_thread_unread(true, true));
    assert!(!should_bump_thread_unread(false, true));
    assert!(should_bump_thread_unread(false, false));
}

#[test]
fn thread_concerns_me_any_trigger() {
    assert!(!thread_concerns_me(false, false, false, false));
    assert!(thread_concerns_me(true, false, false, false));
    assert!(thread_concerns_me(false, true, false, false));
    assert!(thread_concerns_me(false, false, true, false));
    assert!(thread_concerns_me(false, false, false, true));
}

#[test]
fn debounced_save_due_respects_interval() {
    // Times in milliseconds.
    let now: u64 = 1_000_000;
    assert!(debounced_save_due(None, now));
    assert!(!debounced_save_due(Some(now - 2_000), now));
    assert!(debounced_save_due(Some(now - 5_000), now));
}

#[test]
fn test_emoji_conversion() {
    assert_eq!(convert_slack_emojis("hello :fire: world"), "hello \u{1F525} world");
    assert_eq!(convert_slack_emojis(":thumbsup:"), "\u{1F44D}");
    assert_eq!(convert_slack_emojis(":unknown_emoji:"), ":unknown_emoji:");
    assert_eq!(convert_slack_emojis("no emojis here"), "no emojis here");
}

#[test]
fn test_slack_links() {
    assert_eq!(convert_slack_links("<https://example.com|click>"), "https://example.com");
    assert_eq!(convert_slack_links("<https://example.com>"), "https://example.com");
}

#[test]
fn test_mentions() {
    let resolve = |id: &str| -> String {
        if id == "U123" {
            "Alice".into()
        } else {
            id.into()
        }
    };
    assert_eq!(convert_slack_mentions("hi <@U123>", &resolve), "hi @Alice");
    assert_eq!(convert_slack_mentions("hi <@U123|bob>", &resolve), "hi @Alice");
}

fn sample_msg(text: &str, user: Option<&str>) -> SlackMessage {
    SlackMessage {
        msg_type: "message".to_string(),
        ts: "1234.5678".to_string(),
        user: user.map(str::to_string),
        text: text.to_string(),
        bot_id: None,
        username: None,
        app_id: None,
        bot_profile: None,
        reactions: vec![SlackReaction { name: "thumbsup".to_string(), count: 2 }],
        thread_ts: None,
        reply_count: Some(3),
        attachments: Vec::new(),
        files: Vec::new(),
        blocks: Vec::new(),
    }
}

#[test]
fn test_message_mentions_user() {
    assert!(message_mentions_user("<@U123> hello", "U123"));
    assert!(message_mentions_user("hey <@U123|bob>", "U123"));
    assert!(!message_mentions_user("hello world", "U123"));
    assert!(!message_mentions_user("<@U123>", ""));
}

#[test]
fn test_slack_message_to_message_data_user() {
    let msg = sample_msg("hello <@U999>", Some("U111"));
    let mut cache = NameCache::new();
    cache.insert("U111".to_string(), "Alice".to_string());
    let data = slack_message_to_message_data(&msg, "U111", &cache);
    assert_eq!(data.sender_name, "Alice");
    assert_eq!(data.text, "hello <@U999>");
    assert!(data.is_outgoing);
    assert_eq!(data.reactions.len(), 1);
    assert_eq!(data.reply_count, 3);
}

#[test]
fn test_slack_message_to_message_data_bot_profile() {
    let mut msg = sample_msg("bot says hi", None);
    msg.bot_profile = Some(BotProfile { id: None, name: Some("Deploy Bot".to_string()), app_id: None });
    let data = slack_message_to_message_data(&msg, "U111", &NameCache::new());
    assert_eq!(data.sender_name, "Deploy Bot");
    assert!(!data.is_outgoing);
}

#[test]
fn test_detect_media_type_image() {
    let files = vec![SlackFile {
        id: Some("F1".to_string()),
        name: Some("pic.png".to_string()),
        mimetype: Some("image/png".to_string()),
        filetype: None,
        url_private: Some("https://example.com/pic".to_string()),
        url_private_download: None,
        thumb_64: None,
        thumb_360: None,
        thumb_480: None,
        thumb_720: None,
        thumb_800: None,
        thumb_960: None,
        thumb_1024: None,
        size: None,
    }];
    let result = detect_media_type(&files).unwrap();
    assert_eq!(result.0, "image");
    assert_eq!(result.1, vec!["F1".to_string()]);
}

#[test]
fn test_realtime_message_with_inline_images() {
    let data = realtime_message_to_message_data(
        "Bot",
        "gif",
        "1.0",
        false,
        &[],
        false,
        &[],
        &[("https://example.com/a.gif".to_string(), "a.gif".to_string())],
    );
    assert_eq!(data.media_type.as_deref(), Some("image"));
    assert_eq!(data.file_urls.len(), 1);
}

fn ch(id: &str, name: &str) -> Channel {
    Channel {
        id: id.to_string(),
        name: Some(name.to_string()),
        user: None,
        is_group: false,
        is_im: false,
        is_mpim: false,
        is_private: false,
        is_archived: false,
        is_member: true,
        is_shared: false,
        is_ext_shared: false,
        is_org_shared: false,
        unread_count: None,
    }
}

#[test]
fn merge_prefers_member_over_public_listing() {
    let member = vec![ch("C1", "general")];
    let public = vec![ch("C1", "general"), ch("C2", "random")];
    let merged = merge_channels_for_sidebar(member, public);
    assert_eq!(merged.len(), 2);
    let c1 = merged.iter().find(|(c, _)| c.id == "C1").unwrap();
    assert!(c1.1);
    let c2 = merged.iter().find(|(c, _)| c.id == "C2").unwrap();
    assert!(!c2.1);
}
