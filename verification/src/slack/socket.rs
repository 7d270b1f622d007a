//! Turning Socket Mode events into client updates, and the connection's
//! reconnect and acknowledgement decisions.
use vstd::prelude::*;
use crate::text::{option_view, eq_literal, chars_of};
use crate::formatting::views;
use crate::events::str_eq;
use crate::messages::{attachment_image_urls, names_of_urls, extract_attachment_images};
use super::types::{SlackAttachment, SlackBlock, SlackFile, SlackUpdate};
use super::blocks::{attachments_to_cards, blocks_text, cards_of, fallback_cut_ok, mentions_user, render_blocks, text_mentions_user};
use crate::widgets::cards_view;

verus! {

/// The fields of a Socket Mode event that the client reads. Text fields
/// are present when the event has that field as a JSON string.
#[derive(Debug)]
pub struct SlackEvent {
    /// `type`
    pub event_type: Option<String>,
    /// `subtype`
    pub subtype: Option<String>,
    /// `channel`, when a string
    pub channel: Option<String>,
    /// `ts`
    pub ts: Option<String>,
    /// `text`
    pub text: Option<String>,
    /// `user`, when a string
    pub user: Option<String>,
    /// The event has a `user` field of any kind.
    pub has_user: bool,
    /// The event has a `bot_id` field of any kind.
    pub has_bot_id: bool,
    /// `bot_id`, when a string
    pub bot_id: Option<String>,
    /// `thread_ts`
    pub thread_ts: Option<String>,
    /// `message.ts`
    pub message_ts: Option<String>,
    /// `message.text`
    pub message_text: Option<String>,
    /// `deleted_ts`
    pub deleted_ts: Option<String>,
    /// `attachments`, when they decode
    pub attachments: Vec<SlackAttachment>,
    /// `blocks`, when they decode
    pub blocks: Vec<SlackBlock>,
    /// `files`, when they decode
    pub files: Vec<SlackFile>,
    /// `bot_profile` when present, with its `name` when that is a string
    pub bot_profile: Option<Option<String>>,
    /// `username`
    pub username: Option<String>,
    /// `reaction`
    pub reaction: Option<String>,
    /// `item.type`
    pub item_type: Option<String>,
    /// `item.channel`
    pub item_channel: Option<String>,
    /// `item.ts`
    pub item_ts: Option<String>,
    /// `channel.id`, when `channel` is an object
    pub channel_object_id: Option<String>,
    /// `channel.name`, when `channel` is an object
    pub channel_object_name: Option<String>,
    /// `user.id`, when `user` is an object
    pub user_object_id: Option<String>,
}

/// The first text an attachment offers from `i` on: its rendered blocks, or
/// the first of text, pretext and fallback that is present, when not empty.
pub open spec fn event_attachment_text_from(atts: Seq<SlackAttachment>, i: int) -> Option<Seq<char>>
    decreases atts.len() - i,
{
    if i < 0 || i >= atts.len() {
        None
    } else {
        let a = atts[i];
        let r = blocks_text(a.blocks@);
        let first = match a.text {
            Some(t) => Some(t@),
            None => match a.pretext {
                Some(p) => Some(p@),
                None => option_view(a.fallback),
            },
        };
        if r.len() > 0 {
            Some(r)
        } else if first matches Some(t) && t.len() > 0 {
            first
        } else {
            event_attachment_text_from(atts, i + 1)
        }
    }
}

/// The text of a realtime message: its rendered blocks, else its text, else
/// the first text its attachments offer.
pub open spec fn event_message_text(ev: SlackEvent) -> Seq<char> {
    let b = blocks_text(ev.blocks@);
    let raw = match ev.text {
        Some(t) => t@,
        None => Seq::empty(),
    };
    if b.len() > 0 {
        b
    } else if raw.len() > 0 {
        raw
    } else {
        match event_attachment_text_from(ev.attachments@, 0) {
            Some(t) => t,
            None => Seq::empty(),
        }
    }
}

/// The text of a realtime message.
pub fn message_body_text(ev: &SlackEvent) -> (r: String)
    ensures
        r@ == event_message_text(*ev),
{
    let from_blocks = render_blocks(ev.blocks.as_slice());
    if !from_blocks.as_str().is_empty() {
        return from_blocks;
    }
    match &ev.text {
        Some(t) => {
            if !t.as_str().is_empty() {
                return t.clone();
            }
        },
        None => {},
    }
    let mut i: usize = 0;
    while i < ev.attachments.len()
        invariant
            i <= ev.attachments.len(),
            blocks_text(ev.blocks@).len() == 0,
            (match ev.text {
                Some(t) => t@,
                None => Seq::empty(),
            }).len() == 0,
            event_attachment_text_from(ev.attachments@, i as int) == event_attachment_text_from(ev.attachments@, 0),
        decreases ev.attachments.len() - i,
    {
        let a = &ev.attachments[i];
        let r = render_blocks(a.blocks.as_slice());
        if !r.as_str().is_empty() {
            return r;
        }
        let first: Option<&String> = match &a.text {
            Some(t) => Some(t),
            None => match &a.pretext {
                Some(p) => Some(p),
                None => a.fallback.as_ref(),
            },
        };
        match first {
            Some(t) => {
                if !t.as_str().is_empty() {
                    return t.clone();
                }
            },
            None => {},
        }
        i += 1;
    }
    String::new()
}

/// Where the sender name of a realtime message comes from.
#[derive(Debug, PartialEq, Eq)]
pub enum SenderSource {
    /// The user with this id (cached name, else looked up, else the id).
    User(String),
    /// This name as it is.
    Named(String),
    /// The bot with this id (looked up, else the id).
    Bot(String),
}

/// The user id of a message event: its `user`, or `unknown`.
pub open spec fn event_user_id(ev: SlackEvent) -> Seq<char> {
    match ev.user {
        Some(u) => u@,
        None => "unknown"@,
    }
}

/// Where a message's sender name comes from: a real user first, then the
/// bot profile's name (`Bot` when it has none), the `username` field, the
/// bot id, and at last the user id.
pub open spec fn sender_source_of(ev: SlackEvent) -> (int, Seq<char>) {
    if ev.has_user && event_user_id(ev) != "unknown"@ {
        (0, event_user_id(ev))
    } else if ev.bot_profile is Some {
        (1, match ev.bot_profile->0 {
            Some(n) => n@,
            None => "Bot"@,
        })
    } else if ev.username is Some {
        (1, ev.username->0@)
    } else if ev.bot_id is Some {
        (2, ev.bot_id->0@)
    } else {
        (1, event_user_id(ev))
    }
}

/// The view of a sender source: 0 for a user, 1 for a fixed name, 2 for a bot.
pub open spec fn source_view(s: SenderSource) -> (int, Seq<char>) {
    match s {
        SenderSource::User(u) => (0, u@),
        SenderSource::Named(n) => (1, n@),
        SenderSource::Bot(b) => (2, b@),
    }
}

fn user_id_of(ev: &SlackEvent) -> (r: String)
    ensures
        r@ == event_user_id(*ev),
{
    match &ev.user {
        Some(u) => u.clone(),
        None => {
            proof {
                reveal_strlit("unknown");
            }
            "unknown".to_string()
        },
    }
}

/// Where the sender name of a realtime message comes from.
pub fn sender_source(ev: &SlackEvent) -> (r: SenderSource)
    ensures
        source_view(r) == sender_source_of(*ev),
{
    let uid = user_id_of(ev);
    let unknown = eq_literal(&chars_of(uid.as_str()), "unknown");
    if ev.has_user && !unknown {
        return SenderSource::User(uid);
    }
    match &ev.bot_profile {
        Some(name) => {
            return SenderSource::Named(match name {
                Some(n) => n.clone(),
                None => {
                    proof {
                        reveal_strlit("Bot");
                    }
                    "Bot".to_string()
                },
            });
        },
        None => {},
    }
    match &ev.username {
        Some(u) => {
            return SenderSource::Named(u.clone());
        },
        None => {},
    }
    match &ev.bot_id {
        Some(b) => SenderSource::Bot(b.clone()),
        None => SenderSource::Named(uid),
    }
}

/// `o` holds the text `lit`.
pub open spec fn is_text(o: Option<String>, lit: Seq<char>) -> bool {
    o matches Some(t) && t@ == lit
}

/// The text in `o` (empty when absent).
pub open spec fn text_of(o: Option<String>) -> Seq<char> {
    match o {
        Some(t) => t@,
        None => Seq::empty(),
    }
}

/// Event types after which the chat list is fetched again.
pub open spec fn refresh_event(t: Seq<char>) -> bool {
    t == "channel_created"@ || t == "channel_id_changed"@ || t == "team_join"@
        || t == "shared_channel_invite_accepted"@ || t == "shared_channel_invite_approved"@
        || t == "shared_channel_invite_declined"@ || t == "shared_channel_invite_received"@
}

/// The inline images of attachments: each non-empty `image_url` with the
/// file name shown for it.
pub open spec fn inline_images(atts: Seq<SlackAttachment>) -> Seq<(Seq<char>, Seq<char>)> {
    let urls = attachment_image_urls(atts);
    Seq::new(urls.len(), |i: int| (urls[i], names_of_urls(urls)[i]))
}

/// The contents of a list of string pairs.
pub open spec fn string_pairs(v: Seq<(String, String)>) -> Seq<(Seq<char>, Seq<char>)> {
    Seq::new(v.len(), |i: int| (v[i].0@, v[i].1@))
}

/// `r` is the new-message update for a message event in `channel` at `ts`
/// with sender name `sender`, as seen by the user `my_id`: none when the
/// message has no text, attachments or blocks.
pub open spec fn new_message_for(ev: SlackEvent, my_id: Seq<char>, sender: Seq<char>, r: Option<SlackUpdate>) -> bool {
    let text = event_message_text(ev);
    if text.len() == 0 && ev.attachments@.len() == 0 && ev.blocks@.len() == 0 {
        r is None
    } else {
        r matches Some(SlackUpdate::NewMessage {
            channel_id,
            user_name,
            text: t,
            ts,
            thread_ts,
            is_bot,
            is_self,
            cards,
            inline_image_urls,
            mentions_me,
            files,
        }) && {
            &&& channel_id@ == text_of(ev.channel)
            &&& user_name@ == sender
            &&& t@ == text
            &&& ts@ == text_of(ev.ts)
            &&& option_view(thread_ts) == option_view(ev.thread_ts)
            &&& is_bot == ev.has_bot_id
            &&& is_self == (my_id.len() > 0 && event_user_id(ev) == my_id)
            &&& cards_view(cards@) == cards_of(ev.attachments@)
            &&& string_pairs(inline_image_urls@) == inline_images(ev.attachments@)
            &&& mentions_me == (my_id.len() > 0 && mentions_user(text, my_id))
            &&& files == ev.files
        }
    }
}

/// The update an event gives, if any, for the user `my_id`; `sender` is
/// the name resolved for a message's sender or a typing user.
pub open spec fn update_for(ev: SlackEvent, my_id: Seq<char>, sender: Seq<char>, r: Option<SlackUpdate>) -> bool {
    match ev.event_type {
        None => r is None,
        Some(ty) => {
            let t = ty@;
            if t == "message"@ {
                if is_text(ev.subtype, "message_changed"@) {
                    if ev.channel is Some && ev.message_ts is Some && ev.message_text is Some {
                        r matches Some(SlackUpdate::MessageChanged { channel_id, ts, new_text }) && channel_id@
                            == text_of(ev.channel) && ts@ == text_of(ev.message_ts) && new_text@ == text_of(
                            ev.message_text,
                        )
                    } else {
                        r is None
                    }
                } else if is_text(ev.subtype, "message_deleted"@) {
                    if ev.channel is Some && ev.deleted_ts is Some {
                        r matches Some(SlackUpdate::MessageDeleted { channel_id, ts }) && channel_id@ == text_of(
                            ev.channel,
                        ) && ts@ == text_of(ev.deleted_ts)
                    } else {
                        r is None
                    }
                } else if ev.channel is Some && ev.ts is Some {
                    new_message_for(ev, my_id, sender, r)
                } else {
                    r is None
                }
            } else if t == "user_typing"@ {
                if ev.channel is Some && ev.user is Some {
                    r matches Some(SlackUpdate::UserTyping { channel_id, user_name }) && channel_id@ == text_of(
                        ev.channel,
                    ) && user_name@ == sender
                } else {
                    r is None
                }
            } else if t == "reaction_added"@ || t == "reaction_removed"@ {
                if ev.reaction is Some && is_text(ev.item_type, "message"@) && ev.item_channel is Some
                    && ev.item_ts is Some {
                    if t == "reaction_added"@ {
                        r matches Some(SlackUpdate::ReactionAdded { channel_id, message_ts, reaction }) && channel_id@
                            == text_of(ev.item_channel) && message_ts@ == text_of(ev.item_ts) && reaction@
                            == text_of(ev.reaction)
                    } else {
                        r matches Some(SlackUpdate::ReactionRemoved { channel_id, message_ts, reaction }) && channel_id@
                            == text_of(ev.item_channel) && message_ts@ == text_of(ev.item_ts) && reaction@
                            == text_of(ev.reaction)
                    }
                } else {
                    r is None
                }
            } else if t == "member_joined_channel"@ || t == "member_left_channel"@ {
                if ev.channel is Some && ev.user is Some {
                    if t == "member_joined_channel"@ {
                        r matches Some(SlackUpdate::MemberJoinedChannel { channel_id, user_id }) && channel_id@
                            == text_of(ev.channel) && user_id@ == text_of(ev.user)
                    } else {
                        r matches Some(SlackUpdate::MemberLeftChannel { channel_id, user_id }) && channel_id@
                            == text_of(ev.channel) && user_id@ == text_of(ev.user)
                    }
                } else {
                    r is None
                }
            } else if t == "channel_rename"@ {
                if ev.channel_object_id is Some && ev.channel_object_name is Some {
                    r matches Some(SlackUpdate::ChannelRenamed { channel_id, name }) && channel_id@ == text_of(
                        ev.channel_object_id,
                    ) && name@ == text_of(ev.channel_object_name)
                } else {
                    r is None
                }
            } else if t == "channel_archive"@ || t == "channel_deleted"@ || t == "channel_unarchive"@ {
                if ev.channel is Some {
                    r matches Some(SlackUpdate::ChannelLifecycle { channel_id, archived }) && channel_id@ == text_of(
                        ev.channel,
                    ) && archived == (t != "channel_unarchive"@)
                } else {
                    r is None
                }
            } else if refresh_event(t) {
                r matches Some(SlackUpdate::RefreshChatList)
            } else if t == "user_change"@ {
                if ev.user is Some {
                    r matches Some(SlackUpdate::UserProfileChanged { user_id }) && user_id@ == text_of(ev.user)
                } else {
                    r is None
                }
            } else if t == "user_profile_changed"@ {
                if ev.user_object_id is Some {
                    r matches Some(SlackUpdate::UserProfileChanged { user_id }) && user_id@ == text_of(ev.user_object_id)
                } else {
                    r is None
                }
            } else {
                r is None
            }
        },
    }
}

fn text_is(o: &Option<String>, lit: &str) -> (r: bool)
    ensures
        r == is_text(*o, lit@),
{
    match o {
        Some(t) => str_eq(t.as_str(), lit),
        None => false,
    }
}

fn take_text(o: &Option<String>) -> (r: String)
    requires
        o is Some,
    ensures
        r@ == text_of(*o),
{
    match o {
        Some(t) => t.clone(),
        None => String::new(),
    }
}

/// Builds the new-message update of a message event.
fn new_message_update(ev: SlackEvent, my_id: &str, sender: &str) -> (r: Option<SlackUpdate>)
    requires
        ev.channel is Some,
        ev.ts is Some,
        forall|i: int| 0 <= i < ev.attachments@.len() ==> fallback_cut_ok(#[trigger] ev.attachments@[i]),
    ensures
        new_message_for(ev, my_id@, sender@, r),
{
    let text = message_body_text(&ev);
    if text.as_str().is_empty() && ev.attachments.len() == 0 && ev.blocks.len() == 0 {
        return None;
    }
    let cards = attachments_to_cards(ev.attachments.as_slice());
    let (urls, names) = extract_attachment_images(ev.attachments.as_slice());
    let mut inline: Vec<(String, String)> = Vec::new();
    let mut i: usize = 0;
    assert(views(names@).len() == views(urls@).len());
    while i < urls.len()
        invariant
            i <= urls.len(),
            names@.len() == urls@.len(),
            views(urls@) == attachment_image_urls(ev.attachments@),
            views(names@) == names_of_urls(attachment_image_urls(ev.attachments@)),
            string_pairs(inline@) =~= inline_images(ev.attachments@).take(i as int),
        decreases urls.len() - i,
    {
        let ghost before = string_pairs(inline@);
        inline.push((urls[i].clone(), names[i].clone()));
        assert(views(urls@)[i as int] == urls@[i as int]@);
        assert(views(names@)[i as int] == names@[i as int]@);
        assert(string_pairs(inline@) =~= before.push((urls@[i as int]@, names@[i as int]@)));
        i += 1;
    }
    assert(inline_images(ev.attachments@).take(urls.len() as int) =~= inline_images(ev.attachments@));
    let uid = user_id_of(&ev);
    let has_me = !my_id.is_empty();
    let is_self = has_me && str_eq(uid.as_str(), my_id);
    let mentions_me = has_me && text_mentions_user(text.as_str(), my_id);
    let channel_id = take_text(&ev.channel);
    let ts = take_text(&ev.ts);
    let thread_ts = match &ev.thread_ts {
        Some(t) => Some(t.clone()),
        None => None,
    };
    let is_bot = ev.has_bot_id;
    let files = ev.files;
    Some(
        SlackUpdate::NewMessage {
            channel_id,
            user_name: sender.to_string(),
            text,
            ts,
            thread_ts,
            is_bot,
            is_self,
            cards,
            inline_image_urls: inline,
            mentions_me,
            files,
        },
    )
}

/// The update a Socket Mode event gives for the user `my_id` (empty when
/// unknown); `sender` is the name resolved for a message's sender or for a
/// typing user. Events the client does not follow give none.
pub fn event_update(ev: SlackEvent, my_id: &str, sender: &str) -> (r: Option<SlackUpdate>)
    requires
        forall|i: int| 0 <= i < ev.attachments@.len() ==> fallback_cut_ok(#[trigger] ev.attachments@[i]),
    ensures
        update_for(ev, my_id@, sender@, r),
{
    let ty = match &ev.event_type {
        Some(t) => t.clone(),
        None => {
            return None;
        },
    };
    let t = ty.as_str();
    proof {
        reveal_strlit("message");
        reveal_strlit("message_changed");
        reveal_strlit("message_deleted");
    }
    if str_eq(t, "message") {
        if text_is(&ev.subtype, "message_changed") {
            if ev.channel.is_some() && ev.message_ts.is_some() && ev.message_text.is_some() {
                return Some(
                    SlackUpdate::MessageChanged {
                        channel_id: take_text(&ev.channel),
                        ts: take_text(&ev.message_ts),
                        new_text: take_text(&ev.message_text),
                    },
                );
            }
            return None;
        }
        if text_is(&ev.subtype, "message_deleted") {
            if ev.channel.is_some() && ev.deleted_ts.is_some() {
                return Some(
                    SlackUpdate::MessageDeleted { channel_id: take_text(&ev.channel), ts: take_text(&ev.deleted_ts) },
                );
            }
            return None;
        }
        if ev.channel.is_some() && ev.ts.is_some() {
            return new_message_update(ev, my_id, sender);
        }
        return None;
    }
    if str_eq(t, "user_typing") {
        if ev.channel.is_some() && ev.user.is_some() {
            return Some(SlackUpdate::UserTyping { channel_id: take_text(&ev.channel), user_name: sender.to_string() });
        }
        return None;
    }
    let added = str_eq(t, "reaction_added");
    if added || str_eq(t, "reaction_removed") {
        if ev.reaction.is_some() && text_is(&ev.item_type, "message") && ev.item_channel.is_some() && ev.item_ts.is_some() {
            let channel_id = take_text(&ev.item_channel);
            let message_ts = take_text(&ev.item_ts);
            let reaction = take_text(&ev.reaction);
            if added {
                return Some(SlackUpdate::ReactionAdded { channel_id, message_ts, reaction });
            } else {
                return Some(SlackUpdate::ReactionRemoved { channel_id, message_ts, reaction });
            }
        }
        return None;
    }
    let joined = str_eq(t, "member_joined_channel");
    if joined || str_eq(t, "member_left_channel") {
        if ev.channel.is_some() && ev.user.is_some() {
            let channel_id = take_text(&ev.channel);
            let user_id = take_text(&ev.user);
            if joined {
                return Some(SlackUpdate::MemberJoinedChannel { channel_id, user_id });
            } else {
                return Some(SlackUpdate::MemberLeftChannel { channel_id, user_id });
            }
        }
        return None;
    }
    if str_eq(t, "channel_rename") {
        if ev.channel_object_id.is_some() && ev.channel_object_name.is_some() {
            return Some(
                SlackUpdate::ChannelRenamed {
                    channel_id: take_text(&ev.channel_object_id),
                    name: take_text(&ev.channel_object_name),
                },
            );
        }
        return None;
    }
    let unarchive = str_eq(t, "channel_unarchive");
    if str_eq(t, "channel_archive") || str_eq(t, "channel_deleted") || unarchive {
        if ev.channel.is_some() {
            return Some(SlackUpdate::ChannelLifecycle { channel_id: take_text(&ev.channel), archived: !unarchive });
        }
        return None;
    }
    if str_eq(t, "channel_created") || str_eq(t, "channel_id_changed") || str_eq(t, "team_join") || str_eq(
        t,
        "shared_channel_invite_accepted",
    ) || str_eq(t, "shared_channel_invite_approved") || str_eq(t, "shared_channel_invite_declined") || str_eq(
        t,
        "shared_channel_invite_received",
    ) {
        return Some(SlackUpdate::RefreshChatList);
    }
    if str_eq(t, "user_change") {
        if ev.user.is_some() {
            return Some(SlackUpdate::UserProfileChanged { user_id: take_text(&ev.user) });
        }
        return None;
    }
    if str_eq(t, "user_profile_changed") {
        if ev.user_object_id.is_some() {
            return Some(SlackUpdate::UserProfileChanged { user_id: take_text(&ev.user_object_id) });
        }
        return None;
    }
    None
}

/// The wait before the next reconnect attempt after one that waited
/// `backoff_secs`: doubled, at most 60 seconds.
pub fn next_backoff(backoff_secs: u64) -> (r: u64)
    requires
        backoff_secs * 2 <= u64::MAX,
    ensures
        r == (if backoff_secs * 2 < 60 { backoff_secs * 2 } else { 60 }),
{
    let d = backoff_secs * 2;
    if d < 60 {
        d
    } else {
        60
    }
}

/// What the client does with one Socket Mode envelope.
#[derive(Debug)]
pub struct EnvelopePlan {
    /// Slack asked for a reconnect: close the socket, acknowledge nothing.
    pub reconnect: bool,
    /// The envelope id to acknowledge.
    pub ack_id: Option<String>,
    /// Hand the envelope's `payload.event` to event processing.
    pub dispatch: bool,
}

/// Decides what to do with an envelope of type `env_type` (empty when it has
/// none) and id `envelope_id`.
pub fn plan_envelope(env_type: &str, envelope_id: Option<String>) -> (r: EnvelopePlan)
    ensures
        r.reconnect == (env_type@ == "disconnect"@),
        r.reconnect ==> r.ack_id is None && !r.dispatch,
        !r.reconnect ==> option_view(r.ack_id) == option_view(envelope_id) && r.dispatch == (env_type@
            == "events_api"@),
{
    if str_eq(env_type, "disconnect") {
        return EnvelopePlan { reconnect: true, ack_id: None, dispatch: false };
    }
    EnvelopePlan { reconnect: false, ack_id: envelope_id, dispatch: str_eq(env_type, "events_api") }
}

} // verus!
