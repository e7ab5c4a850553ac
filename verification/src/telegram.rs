//! Messages of the messenger as plain values.

use vstd::prelude::*;

use crate::strings;

verus! {

/// The author of a message.
#[derive(Debug)]
pub struct Sender {
    pub id: u64,
    pub is_bot: bool,
    pub first_name: String,
    pub last_name: Option<String>,
    pub username: Option<String>,
}

/// What a [`Sender`] holds.
pub struct SenderView {
    pub id: u64,
    pub is_bot: bool,
    pub first_name: Seq<char>,
    pub last_name: Option<Seq<char>>,
    pub username: Option<Seq<char>>,
}

impl View for Sender {
    type V = SenderView;

    open spec fn view(&self) -> SenderView {
        SenderView {
            id: self.id,
            is_bot: self.is_bot,
            first_name: self.first_name@,
            last_name: strings::optional(self.last_name),
            username: strings::optional(self.username),
        }
    }
}

impl SenderView {
    /// The first and the last name.
    pub open spec fn full_name(self) -> Seq<char> {
        match self.last_name {
            Some(last) => self.first_name + " "@ + last,
            None => self.first_name,
        }
    }
}

impl Sender {
    /// See [`SenderView::full_name`].
    pub fn full_name(&self) -> (r: String)
        ensures
            r@ == self@.full_name(),
    {
        let mut out = self.first_name.clone();
        match &self.last_name {
            Some(last) => {
                out.append(" ");
                out.append(last.as_str());
            },
            None => {},
        }
        out
    }
}

/// An optional author as a mathematical value.
pub open spec fn sender_view(s: Option<Sender>) -> Option<SenderView> {
    match s {
        Some(u) => Some(u@),
        None => None,
    }
}

/// A message that another one replies to.
#[derive(Debug)]
pub struct Replied {
    pub message_id: i32,
    pub from: Option<Sender>,
    pub text: Option<String>,
    pub caption: Option<String>,
    /// The message tells that a topic was created.
    pub topic_created: bool,
    /// The bot through which the message was sent.
    pub via_bot: Option<u64>,
    /// The chat in whose name the message was sent.
    pub sender_chat: Option<i64>,
}

/// What a [`Replied`] holds.
pub struct RepliedView {
    pub message_id: i32,
    pub from: Option<SenderView>,
    pub text: Option<Seq<char>>,
    pub caption: Option<Seq<char>>,
    pub topic_created: bool,
    pub via_bot: Option<u64>,
    pub sender_chat: Option<i64>,
}

impl View for Replied {
    type V = RepliedView;

    open spec fn view(&self) -> RepliedView {
        RepliedView {
            message_id: self.message_id,
            from: sender_view(self.from),
            text: strings::optional(self.text),
            caption: strings::optional(self.caption),
            topic_created: self.topic_created,
            via_bot: self.via_bot,
            sender_chat: self.sender_chat,
        }
    }
}

/// The first of two texts that is there.
pub open spec fn text_or_caption(text: Option<Seq<char>>, caption: Option<Seq<char>>) -> Option<
    Seq<char>,
> {
    match text {
        Some(t) => Some(t),
        None => caption,
    }
}

impl RepliedView {
    /// The text of the message or the caption of what it holds.
    pub open spec fn body(self) -> Option<Seq<char>> {
        text_or_caption(self.text, self.caption)
    }
}

impl Replied {
    /// See [`RepliedView::body`].
    pub fn body(&self) -> (r: Option<&str>)
        ensures
            match r {
                Some(s) => self@.body() == Some(s@),
                None => self@.body() is None,
            },
    {
        match &self.text {
            Some(t) => Some(t.as_str()),
            None => match &self.caption {
                Some(c) => Some(c.as_str()),
                None => None,
            },
        }
    }
}

/// A file that a message holds.
#[derive(Debug)]
pub struct Attachment {
    pub file_name: Option<String>,
    /// The type and subtype of the contents.
    pub mime_type: Option<String>,
    pub size: u32,
}

/// What an [`Attachment`] holds.
pub struct AttachmentView {
    pub file_name: Option<Seq<char>>,
    pub mime_type: Option<Seq<char>>,
    pub size: u32,
}

impl View for Attachment {
    type V = AttachmentView;

    open spec fn view(&self) -> AttachmentView {
        AttachmentView {
            file_name: strings::optional(self.file_name),
            mime_type: strings::optional(self.mime_type),
            size: self.size,
        }
    }
}

/// A message that came in.
#[derive(Debug)]
pub struct Incoming {
    pub chat_id: i64,
    /// The chat is a private one.
    pub private: bool,
    /// The chat is a group with topics.
    pub forum: bool,
    pub thread_id: Option<i32>,
    pub from: Option<Sender>,
    pub text: Option<String>,
    pub caption: Option<String>,
    pub document: Option<Attachment>,
    pub reply: Option<Replied>,
    /// The part of a message that is quoted.
    pub quote: Option<String>,
}

/// What an [`Incoming`] holds.
pub struct IncomingView {
    pub chat_id: i64,
    pub private: bool,
    pub forum: bool,
    pub thread_id: Option<i32>,
    pub from: Option<SenderView>,
    pub text: Option<Seq<char>>,
    pub caption: Option<Seq<char>>,
    pub document: Option<AttachmentView>,
    pub reply: Option<RepliedView>,
    pub quote: Option<Seq<char>>,
}

impl View for Incoming {
    type V = IncomingView;

    open spec fn view(&self) -> IncomingView {
        IncomingView {
            chat_id: self.chat_id,
            private: self.private,
            forum: self.forum,
            thread_id: self.thread_id,
            from: sender_view(self.from),
            text: strings::optional(self.text),
            caption: strings::optional(self.caption),
            document: match self.document {
                Some(d) => Some(d@),
                None => None,
            },
            reply: match self.reply {
                Some(r) => Some(r@),
                None => None,
            },
            quote: strings::optional(self.quote),
        }
    }
}

impl IncomingView {
    /// The text of the message or the caption of what it holds.
    pub open spec fn body(self) -> Option<Seq<char>> {
        text_or_caption(self.text, self.caption)
    }

    /// The id of the author; zero if there is none.
    pub open spec fn user_id(self) -> i64 {
        match self.from {
            Some(u) => u.id as i64,
            None => 0,
        }
    }

    /// The message that is replied to stands at the head of the topic.
    pub open spec fn replies_to_topic(self) -> bool {
        match self.reply {
            Some(r) => r.topic_created || self.thread_id == Some(r.message_id),
            None => false,
        }
    }
}

impl Incoming {
    /// See [`IncomingView::body`].
    pub fn body(&self) -> (r: Option<&str>)
        ensures
            match r {
                Some(s) => self@.body() == Some(s@),
                None => self@.body() is None,
            },
    {
        match &self.text {
            Some(t) => Some(t.as_str()),
            None => match &self.caption {
                Some(c) => Some(c.as_str()),
                None => None,
            },
        }
    }

    /// See [`IncomingView::user_id`].
    pub fn user_id(&self) -> (r: i64)
        ensures
            r == self@.user_id(),
    {
        match &self.from {
            Some(u) => u.id as i64,
            None => 0,
        }
    }

    /// See [`IncomingView::replies_to_topic`].
    pub fn replies_to_topic(&self) -> (r: bool)
        ensures
            r == self@.replies_to_topic(),
    {
        match &self.reply {
            Some(r) => r.topic_created || match self.thread_id {
                Some(t) => t == r.message_id,
                None => false,
            },
            None => false,
        }
    }
}

} // verus!
