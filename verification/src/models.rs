//! Chats and threads shown in the sidebar.
use vstd::prelude::*;
use crate::text::option_view;

verus! {

/// The sidebar section a chat belongs to, in display order.
#[derive(Debug, Clone, Copy, PartialEq, Eq, Structural, PartialOrd, Ord)]
pub enum ChatSection {
    Public,
    Private,
    Shared,
    Group,
    DirectMessage,
    Bot,
}

/// The heading of a section.
pub open spec fn section_label(s: ChatSection) -> Seq<char> {
    match s {
        ChatSection::Public => "Public Channels"@,
        ChatSection::Private => "Private Channels"@,
        ChatSection::Shared => "Shared Channels"@,
        ChatSection::Group => "Group Chats"@,
        ChatSection::DirectMessage => "DMs"@,
        ChatSection::Bot => "Bots & Apps"@,
    }
}

/// The position of a section in display order.
pub open spec fn section_rank(s: ChatSection) -> nat {
    match s {
        ChatSection::Public => 0,
        ChatSection::Private => 1,
        ChatSection::Shared => 2,
        ChatSection::Group => 3,
        ChatSection::DirectMessage => 4,
        ChatSection::Bot => 5,
    }
}

impl ChatSection {
    pub fn label(&self) -> (r: &'static str)
        ensures
            r@ == section_label(*self),
    {
        match self {
            ChatSection::Public => "Public Channels",
            ChatSection::Private => "Private Channels",
            ChatSection::Shared => "Shared Channels",
            ChatSection::Group => "Group Chats",
            ChatSection::DirectMessage => "DMs",
            ChatSection::Bot => "Bots & Apps",
        }
    }

    /// The position of this section in display order.
    pub fn rank(&self) -> (r: u8)
        ensures
            r as nat == section_rank(*self),
    {
        match self {
            ChatSection::Public => 0,
            ChatSection::Private => 1,
            ChatSection::Shared => 2,
            ChatSection::Group => 3,
            ChatSection::DirectMessage => 4,
            ChatSection::Bot => 5,
        }
    }
}

/// A Slack thread the current user is involved in.
#[derive(Debug)]
pub struct ThreadInfo {
    pub channel_id: String,
    pub channel_name: String,
    pub thread_ts: String,
    pub last_reply_ts: String,
    pub unread: u32,
    pub mentioned: bool,
    pub on_my_message: bool,
    pub i_replied: bool,
    pub last_reply_user: Option<String>,
}

/// A conversation in the sidebar.
#[derive(Debug)]
pub struct ChatInfo {
    pub id: String,
    pub name: String,
    pub username: Option<String>,
    pub unread: u32,
    pub section: ChatSection,
    pub is_member: bool,
}

/// The contents of a thread entry.
pub struct ThreadV {
    pub channel_id: Seq<char>,
    pub channel_name: Seq<char>,
    pub thread_ts: Seq<char>,
    pub last_reply_ts: Seq<char>,
    pub unread: u32,
    pub mentioned: bool,
    pub on_my_message: bool,
    pub i_replied: bool,
    pub last_reply_user: Option<Seq<char>>,
}

impl View for ThreadInfo {
    type V = ThreadV;

    open spec fn view(&self) -> ThreadV {
        ThreadV {
            channel_id: self.channel_id@,
            channel_name: self.channel_name@,
            thread_ts: self.thread_ts@,
            last_reply_ts: self.last_reply_ts@,
            unread: self.unread,
            mentioned: self.mentioned,
            on_my_message: self.on_my_message,
            i_replied: self.i_replied,
            last_reply_user: option_view(self.last_reply_user),
        }
    }
}

/// The contents of a chat entry.
pub struct ChatV {
    pub id: Seq<char>,
    pub name: Seq<char>,
    pub username: Option<Seq<char>>,
    pub unread: u32,
    pub section: ChatSection,
    pub is_member: bool,
}

impl View for ChatInfo {
    type V = ChatV;

    open spec fn view(&self) -> ChatV {
        ChatV {
            id: self.id@,
            name: self.name@,
            username: option_view(self.username),
            unread: self.unread,
            section: self.section,
            is_member: self.is_member,
        }
    }
}

/// The contents of a list of threads.
pub open spec fn threads_view(v: Seq<ThreadInfo>) -> Seq<ThreadV> {
    Seq::new(v.len(), |i: int| v[i]@)
}

/// The contents of a list of chats.
pub open spec fn chats_view(v: Seq<ChatInfo>) -> Seq<ChatV> {
    Seq::new(v.len(), |i: int| v[i]@)
}

} // verus!
