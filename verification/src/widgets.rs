//! Display records for messages, attachment cards and chat panes.
use vstd::prelude::*;
use crate::text::option_view;

verus! {

/// A Slack attachment prepared for boxed display.
#[derive(Debug)]
pub struct AttachmentCard {
    pub color: Option<String>,
    pub author: Option<String>,
    pub title: Option<String>,
    pub title_link: Option<String>,
    pub pretext: Option<String>,
    pub body: String,
    pub footer: Option<String>,
}

/// The contents of an attachment card.
pub struct CardV {
    pub color: Option<Seq<char>>,
    pub author: Option<Seq<char>>,
    pub title: Option<Seq<char>>,
    pub title_link: Option<Seq<char>>,
    pub pretext: Option<Seq<char>>,
    pub body: Seq<char>,
    pub footer: Option<Seq<char>>,
}

impl View for AttachmentCard {
    type V = CardV;

    open spec fn view(&self) -> CardV {
        CardV {
            color: option_view(self.color),
            author: option_view(self.author),
            title: option_view(self.title),
            title_link: option_view(self.title_link),
            pretext: option_view(self.pretext),
            body: self.body@,
            footer: option_view(self.footer),
        }
    }
}

/// The contents of a sequence of cards.
pub open spec fn cards_view(v: Seq<AttachmentCard>) -> Seq<CardV> {
    Seq::new(v.len(), |i: int| v[i]@)
}

/// A copy of a card.
pub fn copy_card(c: &AttachmentCard) -> (r: AttachmentCard)
    ensures
        r@ == c@,
{
    AttachmentCard {
        color: crate::text::copy_opt_string(&c.color),
        author: crate::text::copy_opt_string(&c.author),
        title: crate::text::copy_opt_string(&c.title),
        title_link: crate::text::copy_opt_string(&c.title_link),
        pretext: crate::text::copy_opt_string(&c.pretext),
        body: c.body.clone(),
        footer: crate::text::copy_opt_string(&c.footer),
    }
}

/// Copies of a sequence of cards.
pub fn copy_cards(v: &[AttachmentCard]) -> (r: Vec<AttachmentCard>)
    ensures
        cards_view(r@) == cards_view(v@),
{
    let mut r: Vec<AttachmentCard> = Vec::new();
    let mut i: usize = 0;
    while i < v.len()
        invariant
            i <= v.len(),
            cards_view(r@) =~= cards_view(v@).take(i as int),
        decreases v.len() - i,
    {
        let c = copy_card(&v[i]);
        let ghost r0 = r@;
        r.push(c);
        assert(r@ == r0.push(c));
        assert(cards_view(r@) =~= cards_view(r0).push(v@[i as int]@));
        i += 1;
    }
    assert(cards_view(v@).take(v@.len() as int) =~= cards_view(v@));
    r
}

/// One message as displayed in a pane.
#[derive(Debug)]
pub struct MessageData {
    pub sender_name: String,
    pub text: String,
    pub is_outgoing: bool,
    pub ts: String,
    pub reactions: Vec<(String, u32)>,
    pub reply_count: u32,
    pub cards: Vec<AttachmentCard>,
    pub mentions_me: bool,
    pub local_echo_id: Option<u64>,
    pub is_edited: bool,
    pub is_deleted: bool,
    pub media_type: Option<String>,
    pub file_ids: Vec<String>,
    pub file_urls: Vec<String>,
    pub file_names: Vec<String>,
}

/// The contents of a displayed message.
pub struct MessageV {
    pub sender_name: Seq<char>,
    pub text: Seq<char>,
    pub is_outgoing: bool,
    pub ts: Seq<char>,
    pub reactions: Seq<(Seq<char>, u32)>,
    pub reply_count: u32,
    pub cards: Seq<CardV>,
    pub mentions_me: bool,
    pub local_echo_id: Option<u64>,
    pub is_edited: bool,
    pub is_deleted: bool,
    pub media_type: Option<Seq<char>>,
    pub file_ids: Seq<Seq<char>>,
    pub file_urls: Seq<Seq<char>>,
    pub file_names: Seq<Seq<char>>,
}

impl View for MessageData {
    type V = MessageV;

    open spec fn view(&self) -> MessageV {
        MessageV {
            sender_name: self.sender_name@,
            text: self.text@,
            is_outgoing: self.is_outgoing,
            ts: self.ts@,
            reactions: Seq::new(self.reactions@.len(), |i: int| (self.reactions@[i].0@, self.reactions@[i].1)),
            reply_count: self.reply_count,
            cards: cards_view(self.cards@),
            mentions_me: self.mentions_me,
            local_echo_id: self.local_echo_id,
            is_edited: self.is_edited,
            is_deleted: self.is_deleted,
            media_type: option_view(self.media_type),
            file_ids: crate::formatting::views(self.file_ids@),
            file_urls: crate::formatting::views(self.file_urls@),
            file_names: crate::formatting::views(self.file_names@),
        }
    }
}

/// The contents of a sequence of messages.
pub open spec fn messages_view(v: Seq<MessageData>) -> Seq<MessageV> {
    Seq::new(v.len(), |i: int| v[i]@)
}

/// A copy of a list of strings.
pub fn copy_strings(v: &Vec<String>) -> (r: Vec<String>)
    ensures
        crate::formatting::views(r@) == crate::formatting::views(v@),
{
    let mut r: Vec<String> = Vec::new();
    let mut i: usize = 0;
    while i < v.len()
        invariant
            i <= v.len(),
            crate::formatting::views(r@) =~= crate::formatting::views(v@).take(i as int),
        decreases v.len() - i,
    {
        let ghost r0 = r@;
        r.push(v[i].clone());
        assert(crate::formatting::views(r@) =~= crate::formatting::views(r0).push(v@[i as int]@));
        i += 1;
    }
    r
}

/// A copy of a message.
pub fn copy_message(m: &MessageData) -> (r: MessageData)
    ensures
        r@ == m@,
{
    let mut reactions: Vec<(String, u32)> = Vec::new();
    let mut i: usize = 0;
    while i < m.reactions.len()
        invariant
            i <= m.reactions.len(),
            reactions@.len() == i,
            forall|j: int| 0 <= j < i ==> (#[trigger] reactions@[j]).0@ == m.reactions@[j].0@
                && reactions@[j].1 == m.reactions@[j].1,
        decreases m.reactions.len() - i,
    {
        reactions.push((m.reactions[i].0.clone(), m.reactions[i].1));
        i += 1;
    }
    let r = MessageData {
        sender_name: m.sender_name.clone(),
        text: m.text.clone(),
        is_outgoing: m.is_outgoing,
        ts: m.ts.clone(),
        reactions,
        reply_count: m.reply_count,
        cards: copy_cards(&m.cards),
        mentions_me: m.mentions_me,
        local_echo_id: m.local_echo_id,
        is_edited: m.is_edited,
        is_deleted: m.is_deleted,
        media_type: crate::text::copy_opt_string(&m.media_type),
        file_ids: copy_strings(&m.file_ids),
        file_urls: copy_strings(&m.file_urls),
        file_names: copy_strings(&m.file_names),
    };
    assert(r@.reactions =~= m@.reactions);
    r
}

/// The state of `@name` / `/command` completion in an input box.
#[derive(Debug)]
pub struct TabCompleteState {
    pub before: String,
    pub after: String,
    pub candidates: Vec<String>,
    pub index: usize,
}

/// One chat pane: a channel or thread, its messages and its input box.
#[derive(Debug)]
pub struct ChatPane {
    pub channel_id_str: Option<String>,
    pub thread_ts: Option<String>,
    pub chat_name: String,
    pub msg_data: Vec<MessageData>,
    /// Lines scrolled up from the bottom; `usize::MAX` follows the newest message.
    pub scroll_offset: usize,
    pub input_buffer: String,
    /// Byte offset of the cursor in `input_buffer`.
    pub input_cursor: usize,
    pub tab_complete_state: Option<TabCompleteState>,
    /// Timestamp of the message being replied to.
    pub reply_to_message: Option<String>,
    /// Name shown in the "is typing" line.
    pub typing_user: Option<String>,
    /// The rendered lines no longer match the messages.
    pub render_stale: bool,
}

impl ChatPane {
    /// An empty pane showing no chat.
    pub fn new() -> (p: ChatPane)
        ensures
            p.channel_id_str is None,
            p.thread_ts is None,
            p.chat_name@ == Seq::<char>::empty(),
            p.msg_data@.len() == 0,
            p.scroll_offset == 0,
            p.input_buffer@ == Seq::<char>::empty(),
            p.input_cursor == 0,
            p.tab_complete_state is None,
            p.reply_to_message is None,
            p.typing_user is None,
            !p.render_stale,
            p@ == empty_pane(),
    {
        let p = ChatPane {
            channel_id_str: None,
            thread_ts: None,
            chat_name: String::new(),
            msg_data: Vec::new(),
            scroll_offset: 0,
            input_buffer: String::new(),
            input_cursor: 0,
            tab_complete_state: None,
            reply_to_message: None,
            typing_user: None,
            render_stale: false,
        };
        assert(messages_view(p.msg_data@) =~= Seq::<MessageV>::empty());
        p
    }

    /// Marks the rendered lines as out of date.
    pub fn invalidate_cache(&mut self)
        ensures
            final(self).render_stale,
            final(self).msg_data == old(self).msg_data,
            final(self).input_buffer == old(self).input_buffer,
            final(self).input_cursor == old(self).input_cursor,
            final(self).channel_id_str == old(self).channel_id_str,
            final(self).thread_ts == old(self).thread_ts,
            final(self).chat_name == old(self).chat_name,
            final(self).scroll_offset == old(self).scroll_offset,
            final(self).tab_complete_state == old(self).tab_complete_state,
            final(self).reply_to_message == old(self).reply_to_message,
            final(self).typing_user == old(self).typing_user,
    {
        self.render_stale = true;
    }

    /// Shows `name` in the typing line.
    pub fn show_typing_indicator(&mut self, name: &str)
        ensures
            final(self).typing_user matches Some(u) && u@ == name@,
            final(self).msg_data == old(self).msg_data,
            final(self).input_buffer == old(self).input_buffer,
            final(self).input_cursor == old(self).input_cursor,
            final(self).channel_id_str == old(self).channel_id_str,
            final(self).thread_ts == old(self).thread_ts,
            final(self).chat_name == old(self).chat_name,
            final(self).scroll_offset == old(self).scroll_offset,
            final(self).tab_complete_state == old(self).tab_complete_state,
            final(self).reply_to_message == old(self).reply_to_message,
            final(self).render_stale == old(self).render_stale,
    {
        self.typing_user = Some(name.to_string());
    }
}

/// The contents of a completion state.
pub struct TabV {
    pub before: Seq<char>,
    pub after: Seq<char>,
    pub candidates: Seq<Seq<char>>,
    pub index: usize,
}

impl View for TabCompleteState {
    type V = TabV;

    open spec fn view(&self) -> TabV {
        TabV {
            before: self.before@,
            after: self.after@,
            candidates: crate::formatting::views(self.candidates@),
            index: self.index,
        }
    }
}

/// The contents of a pane.
pub struct PaneV {
    pub channel_id_str: Option<Seq<char>>,
    pub thread_ts: Option<Seq<char>>,
    pub chat_name: Seq<char>,
    pub msg_data: Seq<MessageV>,
    pub scroll_offset: usize,
    pub input_buffer: Seq<char>,
    pub input_cursor: usize,
    pub tab_complete_state: Option<TabV>,
    pub reply_to_message: Option<Seq<char>>,
    pub typing_user: Option<Seq<char>>,
    pub render_stale: bool,
}

impl View for ChatPane {
    type V = PaneV;

    open spec fn view(&self) -> PaneV {
        PaneV {
            channel_id_str: option_view(self.channel_id_str),
            thread_ts: option_view(self.thread_ts),
            chat_name: self.chat_name@,
            msg_data: messages_view(self.msg_data@),
            scroll_offset: self.scroll_offset,
            input_buffer: self.input_buffer@,
            input_cursor: self.input_cursor,
            tab_complete_state: match self.tab_complete_state {
                Some(t) => Some(t@),
                None => None,
            },
            reply_to_message: option_view(self.reply_to_message),
            typing_user: option_view(self.typing_user),
            render_stale: self.render_stale,
        }
    }
}

/// The contents of a list of panes.
/// The contents of a pane that shows nothing yet.
pub open spec fn empty_pane() -> PaneV {
    PaneV {
        channel_id_str: None,
        thread_ts: None,
        chat_name: Seq::empty(),
        msg_data: Seq::empty(),
        scroll_offset: 0,
        input_buffer: Seq::empty(),
        input_cursor: 0,
        tab_complete_state: None,
        reply_to_message: None,
        typing_user: None,
        render_stale: false,
    }
}

pub open spec fn panes_view(v: Seq<ChatPane>) -> Seq<PaneV> {
    Seq::new(v.len(), |i: int| v[i]@)
}

} // verus!
