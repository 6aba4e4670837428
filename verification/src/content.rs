//! Decrypted content as the protocol client hands it over, and what of it
//! is stored as a message.

use crate::ident::{parse_uuid, parsed_uuid, Uuid};
use vstd::prelude::*;

verus! {

/// The length of a valid profile key in bytes.
pub const PROFILE_KEY_LEN: usize = 32;

/// Who sent a content.
#[derive(Debug, Clone, PartialEq, Eq)]
pub struct ServiceAddress {
    pub uuid: Option<Uuid>,
    pub phonenumber: Option<String>,
}

/// What comes with a content besides its body.
#[derive(Debug, Clone, PartialEq, Eq)]
pub struct Metadata {
    pub sender: ServiceAddress,
}

/// A text message.
#[derive(Debug, Clone, PartialEq, Eq)]
pub struct DataMessage {
    pub body: Option<String>,
    /// whether the message names a group
    pub group_v2: bool,
    pub timestamp: Option<u64>,
    pub profile_key: Option<Vec<u8>>,
}

/// The record of a message that another device of the account sent.
#[derive(Debug, Clone, PartialEq, Eq)]
pub struct Sent {
    pub destination_uuid: Option<String>,
    pub timestamp: Option<u64>,
    pub message: Option<DataMessage>,
}

/// What another device of the account reports.
#[derive(Debug, Clone, PartialEq, Eq)]
pub struct SyncMessage {
    pub sent: Option<Sent>,
}

/// The body of a content.
#[derive(Debug, Clone, PartialEq, Eq)]
pub enum ContentBody {
    DataMessage(DataMessage),
    SynchronizeMessage(SyncMessage),
    /// a receipt, a call, a typing notice and the like
    Other,
}

/// A decrypted content.
#[derive(Debug, Clone, PartialEq, Eq)]
pub struct Content {
    pub metadata: Metadata,
    pub body: ContentBody,
}

/// The model of what a content holds for the channel list.
pub enum ParcelView {
    /// a note that the user wrote to themself on another device
    Note { text: Seq<char>, timestamp: u64 },
    /// a message from a contact, outside any group
    Direct {
        uuid: Uuid,
        phone_number: Seq<char>,
        text: Seq<char>,
        timestamp: u64,
        profile_key: Seq<u8>,
    },
    /// nothing that is stored
    Ignored,
}

/// The note to self in a content for the account `own`, if it is one: the
/// record of a sent text whose destination reads as `own`.
pub open spec fn note_of(content: Content, own: Uuid) -> Option<ParcelView> {
    match content.body {
        ContentBody::SynchronizeMessage(sync) => match sync.sent {
            Some(sent) => match (sent.destination_uuid, sent.timestamp, sent.message) {
                (Some(destination), Some(timestamp), Some(message)) => match message.body {
                    Some(text) => if parsed_uuid(destination@) == Some(own) {
                        Some(ParcelView::Note { text: text@, timestamp })
                    } else {
                        None
                    },
                    None => None,
                },
                _ => None,
            },
            None => None,
        },
        _ => None,
    }
}

/// The direct message in a content, if it is one: a text outside any group
/// with a time and a profile key, from a sender known by identifier and
/// phone number.
pub open spec fn direct_of(content: Content) -> Option<ParcelView> {
    match content.body {
        ContentBody::DataMessage(message) => match (
            content.metadata.sender.uuid,
            content.metadata.sender.phonenumber,
            message.body,
            message.timestamp,
            message.profile_key,
        ) {
            (Some(uuid), Some(phone_number), Some(text), Some(timestamp), Some(key)) => if
                !message.group_v2 {
                Some(
                    ParcelView::Direct {
                        uuid,
                        phone_number: phone_number@,
                        text: text@,
                        timestamp,
                        profile_key: key@,
                    },
                )
            } else {
                None
            },
            _ => None,
        },
        _ => None,
    }
}

/// What a content holds for the account `own`.
pub open spec fn classify(content: Content, own: Uuid) -> ParcelView {
    match note_of(content, own) {
        Some(note) => note,
        None => match direct_of(content) {
            Some(direct) => direct,
            None => ParcelView::Ignored,
        },
    }
}

/// What a content holds, as owned values.
#[derive(Debug, Clone, PartialEq, Eq)]
pub enum Parcel {
    Note { text: String, timestamp: u64 },
    Direct { uuid: Uuid, phone_number: String, text: String, timestamp: u64, profile_key: Vec<u8> },
    Ignored,
}

impl DeepView for Parcel {
    type V = ParcelView;

    open spec fn deep_view(&self) -> ParcelView {
        match self {
            Parcel::Note { text, timestamp } => ParcelView::Note {
                text: text@,
                timestamp: *timestamp,
            },
            Parcel::Direct { uuid, phone_number, text, timestamp, profile_key } => ParcelView::Direct {
                uuid: *uuid,
                phone_number: phone_number@,
                text: text@,
                timestamp: *timestamp,
                profile_key: profile_key@,
            },
            Parcel::Ignored => ParcelView::Ignored,
        }
    }
}

/// Takes a content apart.
pub fn sort_content(content: Content, own: Uuid) -> (parcel: Parcel)
    ensures
        parcel.deep_view() == classify(content, own),
{
    let Content { metadata, body } = content;
    match body {
        ContentBody::SynchronizeMessage(sync) => {
            let sent = match sync.sent {
                Some(sent) => sent,
                None => {
                    return Parcel::Ignored;
                },
            };
            let Sent { destination_uuid, timestamp, message } = sent;
            match (destination_uuid, timestamp, message) {
                (Some(destination), Some(timestamp), Some(message)) => {
                    match message.body {
                        Some(text) => {
                            match parse_uuid(&destination) {
                                Some(id) => if id == own {
                                    Parcel::Note { text, timestamp }
                                } else {
                                    Parcel::Ignored
                                },
                                None => Parcel::Ignored,
                            }
                        },
                        None => Parcel::Ignored,
                    }
                },
                _ => Parcel::Ignored,
            }
        },
        ContentBody::DataMessage(message) => {
            let ServiceAddress { uuid, phonenumber } = metadata.sender;
            let DataMessage { body: text, group_v2, timestamp, profile_key } = message;
            match (uuid, phonenumber, text, timestamp, profile_key) {
                (Some(uuid), Some(phone_number), Some(text), Some(timestamp), Some(profile_key)) => {
                    if !group_v2 {
                        Parcel::Direct { uuid, phone_number, text, timestamp, profile_key }
                    } else {
                        Parcel::Ignored
                    }
                },
                _ => Parcel::Ignored,
            }
        },
        ContentBody::Other => Parcel::Ignored,
    }
}

} // verus!
