//! What arrives from the messaging service: the directory of groups and
//! contacts, and decoded messages.

use vstd::prelude::*;

verus! {

/// A file that came with a message.
#[derive(Debug, Clone, PartialEq, Eq)]
pub struct Attachment {
    pub id: String,
    pub content_type: String,
    pub filename: String,
    pub size: u64,
}

/// The mathematical model of an [`Attachment`].
pub struct AttachmentView {
    pub id: Seq<char>,
    pub content_type: Seq<char>,
    pub filename: Seq<char>,
    pub size: u64,
}

impl DeepView for Attachment {
    type V = AttachmentView;

    open spec fn deep_view(&self) -> AttachmentView {
        AttachmentView {
            id: self.id@,
            content_type: self.content_type@,
            filename: self.filename@,
            size: self.size,
        }
    }
}

/// A group as the service lists it; also the group that a message names.
#[derive(Debug, Clone, PartialEq, Eq)]
pub struct GroupInfo {
    pub group_id: String,
    pub name: Option<String>,
}

/// A contact as the service lists it.
#[derive(Debug, Clone, PartialEq, Eq)]
pub struct ContactInfo {
    pub phone_number: String,
    pub name: String,
}

/// The content of a message, whether it was received or sent from another
/// device of the same account.
#[derive(Debug, Clone, PartialEq, Eq)]
pub struct InnerMessage {
    pub message: Option<String>,
    pub attachments: Option<Vec<Attachment>>,
    pub group_info: Option<GroupInfo>,
    pub destination: Option<String>,
}

/// A copy of a message that another device of the account sent.
#[derive(Debug, Clone, PartialEq, Eq)]
pub struct SyncMessage {
    pub sent_message: InnerMessage,
}

/// The envelope of a message: who sent it, when, and its content in one of
/// two places.
#[derive(Debug, Clone, PartialEq, Eq)]
pub struct Envelope {
    pub source: String,
    pub timestamp: u64,
    pub sync_message: Option<SyncMessage>,
    pub data_message: Option<InnerMessage>,
}

/// A decoded message.
#[derive(Debug, Clone, PartialEq, Eq)]
pub struct Message {
    pub envelope: Envelope,
}

/// The content of a message: the copy of a sent message if there is one,
/// else the received content.
pub open spec fn inner_message(message: Message) -> Option<InnerMessage> {
    match message.envelope.sync_message {
        Some(sync) => Some(sync.sent_message),
        None => message.envelope.data_message,
    }
}

/// The files of a content; none where the field is absent.
pub open spec fn attachments_of(inner: InnerMessage) -> Seq<AttachmentView> {
    match inner.attachments {
        Some(files) => files.deep_view(),
        None => Seq::empty(),
    }
}

/// The identity of the channel that a content belongs to: its group, else
/// the destination of what this account sent, else the sender.
pub open spec fn channel_of(inner: InnerMessage, source: Seq<char>, is_from_me: bool) -> Option<
    Seq<char>,
> {
    match inner.group_info {
        Some(group) => Some(group.group_id@),
        None => if is_from_me {
            inner.destination.deep_view()
        } else {
            Some(source)
        },
    }
}

/// What a message asks of the channel list, in mathematical form.
pub struct Delivery {
    pub source: Seq<char>,
    pub channel_id: Seq<char>,
    pub is_group: bool,
    pub is_from_me: bool,
    pub text: Option<Seq<char>>,
    pub attachments: Seq<AttachmentView>,
    pub arrived_at: u64,
}

/// Where a message goes, for the account with the phone number `own_phone`.
/// A message without content, with neither text nor files, or one sent by
/// this account without a destination, is dropped.
pub open spec fn delivery(message: Message, own_phone: Seq<char>) -> Option<Delivery> {
    match inner_message(message) {
        None => None,
        Some(inner) => {
            let source = message.envelope.source@;
            let is_from_me = source == own_phone;
            if inner.message is None && attachments_of(inner).len() == 0 {
                None
            } else {
                match channel_of(inner, source, is_from_me) {
                    None => None,
                    Some(channel_id) => Some(
                        Delivery {
                            source,
                            channel_id,
                            is_group: inner.group_info is Some,
                            is_from_me,
                            text: inner.message.deep_view(),
                            attachments: attachments_of(inner),
                            arrived_at: message.envelope.timestamp,
                        },
                    ),
                }
            }
        },
    }
}

/// A message taken apart: what [`delivery`] describes, as owned values.
#[derive(Debug, Clone, PartialEq, Eq)]
pub struct Incoming {
    pub source: String,
    pub channel_id: String,
    pub is_group: bool,
    pub is_from_me: bool,
    pub text: Option<String>,
    pub attachments: Vec<Attachment>,
    pub arrived_at: u64,
}

impl DeepView for Incoming {
    type V = Delivery;

    open spec fn deep_view(&self) -> Delivery {
        Delivery {
            source: self.source@,
            channel_id: self.channel_id@,
            is_group: self.is_group,
            is_from_me: self.is_from_me,
            text: self.text.deep_view(),
            attachments: self.attachments.deep_view(),
            arrived_at: self.arrived_at,
        }
    }
}

/// Takes a message apart, or drops it.
pub fn unpack(message: Message, own_phone: &String) -> (incoming: Option<Incoming>)
    ensures
        incoming.deep_view() == delivery(message, own_phone@),
{
    let Message { envelope } = message;
    let Envelope { source, timestamp, sync_message, data_message } = envelope;
    let inner = match sync_message {
        Some(sync) => sync.sent_message,
        None => match data_message {
            Some(inner) => inner,
            None => {
                return None;
            },
        },
    };
    let ghost content = inner;
    let InnerMessage { message: text, attachments, group_info, destination } = inner;
    let attachments = match attachments {
        Some(files) => files,
        None => Vec::new(),
    };
    assert(attachments.deep_view() =~= attachments_of(content));
    if text.is_none() && attachments.len() == 0 {
        return None;
    }
    let is_from_me = source == *own_phone;
    let (channel_id, is_group) = match group_info {
        Some(group) => (group.group_id, true),
        None => if is_from_me {
            match destination {
                Some(destination) => (destination, false),
                None => {
                    return None;
                },
            }
        } else {
            (source.clone(), false)
        },
    };
    Some(
        Incoming {
            source,
            channel_id,
            is_group,
            is_from_me,
            text,
            attachments,
            arrived_at: timestamp,
        },
    )
}

} // verus!
