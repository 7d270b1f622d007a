//! Slack messages, files, attachments, Block Kit blocks and realtime updates.
use vstd::prelude::*;
use crate::widgets::AttachmentCard;

verus! {

/// Updates received from Slack
#[derive(Debug)]
pub enum SlackUpdate {
    NewMessage {
        channel_id: String,
        user_name: String,
        text: String,
        ts: String,
        thread_ts: Option<String>,
        is_bot: bool,
        is_self: bool,
        cards: Vec<AttachmentCard>,
        inline_image_urls: Vec<(String, String)>,
        mentions_me: bool,
        files: Vec<SlackFile>,
    },
    MessageChanged { channel_id: String, ts: String, new_text: String },
    MessageDeleted { channel_id: String, ts: String },
    UserTyping { channel_id: String, user_name: String },
    ReactionAdded { channel_id: String, message_ts: String, reaction: String },
    ReactionRemoved { channel_id: String, message_ts: String, reaction: String },
    MemberJoinedChannel { channel_id: String, user_id: String },
    MemberLeftChannel { channel_id: String, user_id: String },
    ChannelRenamed { channel_id: String, name: String },
    ChannelLifecycle { channel_id: String, archived: bool },
    UserProfileChanged { user_id: String },
    RefreshChatList,
}

#[derive(Debug)]
pub struct SlackReaction {
    pub name: String,
    pub count: u32,
}

#[derive(Debug)]
pub struct SlackMessage {
    pub msg_type: String,
    pub ts: String,
    pub user: Option<String>,
    pub text: String,
    pub bot_id: Option<String>,
    pub username: Option<String>,
    pub app_id: Option<String>,
    pub bot_profile: Option<BotProfile>,
    pub reactions: Vec<SlackReaction>,
    pub thread_ts: Option<String>,
    pub reply_count: Option<u32>,
    pub attachments: Vec<SlackAttachment>,
    pub files: Vec<SlackFile>,
    pub blocks: Vec<SlackBlock>,
}

#[derive(Debug)]
pub struct BotProfile {
    pub id: Option<String>,
    pub name: Option<String>,
    pub app_id: Option<String>,
}

#[derive(Debug)]
pub struct SlackFile {
    pub id: Option<String>,
    pub name: Option<String>,
    pub mimetype: Option<String>,
    pub filetype: Option<String>,
    pub url_private: Option<String>,
    pub url_private_download: Option<String>,
    pub thumb_64: Option<String>,
    pub thumb_360: Option<String>,
    pub thumb_480: Option<String>,
    pub thumb_720: Option<String>,
    pub thumb_800: Option<String>,
    pub thumb_960: Option<String>,
    pub thumb_1024: Option<String>,
    pub size: Option<u64>,
}

#[derive(Debug)]
pub struct SlackAttachment {
    pub text: Option<String>,
    pub fallback: Option<String>,
    pub pretext: Option<String>,
    pub author_name: Option<String>,
    pub author_link: Option<String>,
    pub title: Option<String>,
    pub title_link: Option<String>,
    pub color: Option<String>,
    pub footer: Option<String>,
    pub image_url: Option<String>,
    pub blocks: Vec<SlackBlock>,
}

#[derive(Debug)]
pub struct SlackTextObject {
    pub obj_type: String,
    pub text: String,
}

#[allow(inconsistent_fields)]
#[derive(Debug)]
pub enum SlackBlock {
    Section { text: Option<SlackTextObject>, fields: Vec<SlackTextObject> },
    Header { text: Option<SlackTextObject> },
    Context { elements: Vec<SlackContextElement> },
    Divider,
    RichText { elements: Vec<RichTextBlock> },
    Image { title: Option<SlackTextObject>, alt_text: Option<String>, image_url: Option<String> },
    Other,
}

#[allow(inconsistent_fields)]
#[derive(Debug)]
pub enum SlackContextElement {
    Mrkdwn { text: String },
    PlainText { text: String },
    Other,
}

#[allow(inconsistent_fields)]
#[derive(Debug)]
pub enum RichTextBlock {
    Section { elements: Vec<RichTextElement> },
    List { style: String, elements: Vec<RichTextBlock> },
    Quote { elements: Vec<RichTextElement> },
    Preformatted { elements: Vec<RichTextElement> },
    Other,
}

#[derive(Debug, Clone, Copy)]
pub struct RichTextStyle {
    pub bold: bool,
    pub italic: bool,
    pub strike: bool,
    pub code: bool,
}

#[allow(inconsistent_fields)]
#[derive(Debug)]
pub enum RichTextElement {
    Text { text: String, style: RichTextStyle },
    Link { url: String, text: Option<String> },
    Emoji { name: String },
    User { user_id: String },
    Channel { channel_id: String },
    UserGroup { usergroup_id: String },
    Broadcast { range: String },
    Other,
}

/// A conversation as listed by the Slack API.
#[derive(Debug)]
pub struct Channel {
    pub id: String,
    pub name: Option<String>,
    pub user: Option<String>,
    pub is_group: bool,
    pub is_im: bool,
    pub is_mpim: bool,
    pub is_private: bool,
    pub is_archived: bool,
    pub is_member: bool,
    pub is_shared: bool,
    pub is_ext_shared: bool,
    pub is_org_shared: bool,
    pub unread_count: Option<u32>,
}

/// A user profile's display name.
#[derive(Debug)]
pub struct UserProfile {
    pub display_name: Option<String>,
}

/// A Slack user.
#[derive(Debug)]
pub struct User {
    pub id: String,
    pub name: String,
    pub real_name: Option<String>,
    pub profile: Option<UserProfile>,
    pub is_bot: bool,
    pub deleted: bool,
}

/// What the client remembers about a user.
#[derive(Debug)]
pub struct CachedUserInfo {
    pub name: String,
    pub is_bot: bool,
    pub deleted: bool,
}

} // verus!
