//! The application state and the functions that events drive it with.

use crate::content::{classify, Content, Parcel, PROFILE_KEY_LEN, sort_content};
use crate::event::{KeyCode, KeyEvent, MouseEvent};
use crate::ident::{parse_uuid, parsed_uuid, Uuid, uuid_text, uuid_to_string};
use crate::list::StatefulList;
use crate::model::{
    after_message, after_parcel, backfilled, bubbled, ChannelsView, ChannelView, cleared_unread,
    contact_name, counterpart_lookup_needed, ensured, ensured_index, fresh_channel,
    group_lookup_needed, lemma_position_absent, lemma_position_found, lemma_position_is,
    matches_key, merged, MessageView, moved_selection, NamesView, notification_for,
    NotificationView, or_identity, paged, position, profile_lookup_needed, received,
    renamed_channel, renamed_message, restored_channel, restored_channels, rotated_to_front,
    routed, routed_index, saved_channel, saved_channels, SavedChannelView, sender_lookup_needed,
    sender_name, sent, stored_message, with_message, with_sender,
};
use crate::order::{inserted, insertion_point, sorted_by_name, sorted_into, string_le};
use crate::signal::{Attachment, ContactInfo, delivery, GroupInfo, Incoming, unpack};
use crate::text::{
    byte_len, byte_offset, char_index, char_len_utf8, display_width, insert_char,
    lemma_boundary_iff, lemma_char_index, lemma_motion_passes_step, lemma_space_run_end,
    lemma_word_motion, lemma_char_index_on_boundary, lemma_offset_ends,
    lemma_offset_increasing, lowered, next_boundary, on_char_boundary, previous_boundary,
    remove_char, seek_space, skip_spaces, space_at, space_at_position, space_before, space_run_end,
    space_run_start, stepped, text_width, truncate_at, word_left, word_left_reach, word_motion,
    word_right, word_run_start,
};
use vstd::prelude::*;
use vstd::string::StringExecFns;
use vstd::utf8::{encode_scalar, encode_utf8};

verus! {

/// A stored message.
#[derive(Debug, Clone, PartialEq, Eq)]
pub struct Message {
    pub from_id: Uuid,
    pub from: String,
    pub message: Option<String>,
    pub attachments: Vec<Attachment>,
    /// Arrival time in milliseconds since the Unix epoch, UTC.
    pub arrived_at: u64,
}

impl DeepView for Message {
    type V = MessageView;

    open spec fn deep_view(&self) -> MessageView {
        MessageView {
            from_id: self.from_id,
            from: self.from@,
            message: self.message.deep_view(),
            attachments: self.attachments.deep_view(),
            arrived_at: self.arrived_at,
        }
    }
}

/// A conversation with a contact or a group.
#[derive(Debug, Clone, PartialEq, Eq)]
pub struct Channel {
    /// Either phone number or group id
    pub id: String,
    pub name: String,
    pub is_group: bool,
    pub messages: StatefulList<Message>,
    pub unread_messages: usize,
}

impl DeepView for Channel {
    type V = ChannelView;

    open spec fn deep_view(&self) -> ChannelView {
        ChannelView {
            id: self.id@,
            name: self.name@,
            is_group: self.is_group,
            messages: self.messages.deep_view(),
            unread_messages: self.unread_messages,
        }
    }
}

impl Channel {
    /// A channel without messages.
    pub fn new(id: String, name: String, is_group: bool) -> (channel: Channel)
        ensures
            channel.deep_view() == fresh_channel(id@, name@, is_group),
            channel.id == id,
            channel.name == name,
            channel.messages.wf(),
    {
        let channel = Channel {
            id,
            name,
            is_group,
            messages: StatefulList::with_items(Vec::new()),
            unread_messages: 0,
        };
        assert(channel.messages.items.deep_view() =~= Seq::<MessageView>::empty());
        channel
    }
}

/// Where the visible part of the channel list stands.
#[derive(Debug, Clone, Copy, PartialEq, Eq, Structural)]
pub struct ChannelPosition {
    /// list index of channel at top of viewport
    pub top: usize,
    /// number of rows between selected channel and top of viewport
    pub upside: u16,
    /// number of rows between selected channel and bottom of viewport
    pub downside: u16,
}

impl ChannelPosition {
    /// The window after the selection moved one channel up in a list of
    /// `len` channels, from `selected`. From the first channel the selection
    /// goes to the last, and the window to the end of the list with the
    /// selection in its last row, as far as the list reaches; else the
    /// selection rises in the window, or the window rises with it.
    pub open spec fn scrolled_up(self, selected: Option<usize>, len: int) -> ChannelPosition {
        if selected == Some(0usize) {
            ChannelPosition {
                top: if len > self.downside {
                    (len - self.downside - 1) as usize
                } else {
                    0
                },
                upside: self.downside,
                downside: 0,
            }
        } else if self.upside == 0 {
            ChannelPosition {
                top: if self.top > 0 {
                    (self.top - 1) as usize
                } else {
                    0
                },
                ..self
            }
        } else {
            ChannelPosition {
                upside: (self.upside - 1) as u16,
                downside: (self.downside + 1) as u16,
                ..self
            }
        }
    }

    /// The window after the selection moved down by one row: the selection
    /// sinks in the window, or the window sinks with it.
    pub open spec fn lowered(self) -> ChannelPosition {
        if self.downside == 0 {
            ChannelPosition { top: (self.top + 1) as usize, ..self }
        } else {
            ChannelPosition {
                upside: (self.upside + 1) as u16,
                downside: (self.downside - 1) as u16,
                ..self
            }
        }
    }

    /// The window after the selection moved one channel down in a list of
    /// `len` channels, from `selected`. Where the selection arrives at the
    /// first channel, the window shows the start of the list with the
    /// selection in its first row.
    pub open spec fn scrolled_down(self, selected: Option<usize>, len: int) -> ChannelPosition {
        if moved_selection(selected, len, true) == Some(0usize) {
            ChannelPosition { top: 0, upside: 0, downside: self.lowered().upside }
        } else {
            self.lowered()
        }
    }

    /// The selection can move up without the window leaving the range of
    /// its numbers: where the selection rises in the window, the rows below
    /// it can grow by one.
    pub open spec fn can_scroll_up(self, selected: Option<usize>) -> bool {
        selected != Some(0usize) && self.upside > 0 ==> self.downside < u16::MAX
    }

    /// The selection can move down without the window leaving the range of
    /// its numbers.
    pub open spec fn can_scroll_down(self) -> bool {
        if self.downside == 0 {
            self.top < usize::MAX
        } else {
            self.upside < u16::MAX
        }
    }
}

impl Default for ChannelPosition {
    fn default() -> (position: ChannelPosition)
        ensures
            position == (ChannelPosition { top: 0, upside: 0, downside: 0 }),
    {
        ChannelPosition { top: 0, upside: 0, downside: 0 }
    }
}

/// What is kept between runs, and the cursors that are derived from it.
#[derive(Debug, Clone, PartialEq, Eq)]
pub struct AppData {
    pub channels: StatefulList<Channel>,
    pub chanpos: ChannelPosition,
    pub input: String,
    /// Input position in bytes (not number of chars)
    pub input_cursor: usize,
    /// Input position in chars
    pub input_cursor_chars: usize,
}

impl AppData {
    /// The cursor stands at a character boundary of the input.
    pub open spec fn cursor_on_boundary(&self) -> bool {
        on_char_boundary(self.input@, self.input_cursor as int)
    }

    /// The number of characters before the cursor.
    pub open spec fn cursor_index(&self) -> int {
        char_index(self.input@, self.input_cursor as int)
    }

    /// The cursor stands at a character boundary of the input, and the
    /// character count is the number of characters before it.
    pub open spec fn cursor_wf(&self) -> bool {
        self.cursor_on_boundary() && self.input_cursor_chars == self.cursor_index()
    }

    /// The character count can grow by `n`: it is the number of characters
    /// before the cursor, or below the limit of its type by `n`.
    pub open spec fn count_has_room(&self, n: int) -> bool {
        self.cursor_wf() || self.input_cursor_chars + n <= usize::MAX
    }

    /// Where the cursor stands, in characters.
    pub proof fn lemma_cursor(&self)
        requires
            self.cursor_on_boundary(),
        ensures
            0 <= self.cursor_index() <= self.input@.len(),
            byte_offset(self.input@, self.cursor_index()) == self.input_cursor,
            self.cursor_index() == 0 <==> self.input_cursor == 0,
            self.cursor_index() == self.input@.len() <==> self.input_cursor == byte_offset(
                self.input@,
                self.input@.len() as int,
            ),
            self.input_cursor <= byte_offset(self.input@, self.input@.len() as int),
    {
        lemma_char_index_on_boundary(self.input@, self.input_cursor as int);
        lemma_offset_ends(self.input@);
        lemma_offset_increasing(self.input@, 0, self.cursor_index());
        lemma_offset_increasing(self.input@, self.cursor_index(), self.input@.len() as int);
    }

    /// Whether the cursor stands at a character boundary of the input.
    pub fn cursor_on_char_boundary(&self) -> (valid: bool)
        ensures
            valid == self.cursor_on_boundary(),
    {
        proof {
            lemma_boundary_iff(self.input@, self.input_cursor as int);
        }
        self.input.as_str().is_char_boundary(self.input_cursor)
    }

    /// Whether the cursor stands at a character boundary of the input with
    /// the character count equal to the number of characters before it.
    pub fn cursor_is_consistent(&self) -> (consistent: bool)
        ensures
            consistent == self.cursor_wf(),
    {
        let len = byte_len(&self.input);
        let mut index: usize = 0;
        let mut count: usize = 0;
        proof {
            lemma_offset_ends(self.input@);
        }
        while count < self.input_cursor_chars && index < len
            invariant
                count <= self.input@.len(),
                index == byte_offset(self.input@, count as int),
                len == byte_offset(self.input@, self.input@.len() as int),
                count <= self.input_cursor_chars,
            decreases len - index,
        {
            proof {
                if count < self.input@.len() {
                    lemma_offset_increasing(
                        self.input@,
                        count as int + 1,
                        self.input@.len() as int,
                    );
                }
            }
            index = next_boundary(&self.input, index, Ghost(count as int));
            count = count + 1;
        }
        proof {
            if count < self.input_cursor_chars {
                if count < self.input@.len() {
                    lemma_offset_increasing(self.input@, count as int, self.input@.len() as int);
                }
            }
            if count == self.input_cursor_chars && index == self.input_cursor {
                lemma_char_index(self.input@, count as int);
            }
            if self.cursor_wf() {
                self.lemma_cursor();
            }
        }
        count == self.input_cursor_chars && index == self.input_cursor
    }
}

/// A copy of the files of a message.
pub fn copy_attachments(files: &Vec<Attachment>) -> (copy: Vec<Attachment>)
    ensures
        copy.deep_view() == files.deep_view(),
{
    let mut copy: Vec<Attachment> = Vec::new();
    let mut i: usize = 0;
    while i < files.len()
        invariant
            i <= files@.len(),
            copy@.len() == i,
            forall|j: int| 0 <= j < i ==> (#[trigger] copy@[j]).deep_view() == files@[j].deep_view(),
        decreases files@.len() - i,
    {
        copy.push(
            Attachment {
                id: files[i].id.clone(),
                content_type: files[i].content_type.clone(),
                filename: files[i].filename.clone(),
                size: files[i].size,
            },
        );
        i = i + 1;
    }
    assert(copy.deep_view() =~= files.deep_view());
    copy
}

/// A copy of the messages of a channel.
pub fn copy_messages(messages: &Vec<Message>) -> (copy: Vec<Message>)
    ensures
        copy.deep_view() == messages.deep_view(),
{
    let mut copy: Vec<Message> = Vec::new();
    let mut i: usize = 0;
    while i < messages.len()
        invariant
            i <= messages@.len(),
            copy@.len() == i,
            forall|j: int|
                0 <= j < i ==> (#[trigger] copy@[j]).deep_view() == messages@[j].deep_view(),
        decreases messages@.len() - i,
    {
        let text = match &messages[i].message {
            Some(text) => Some(text.clone()),
            None => None,
        };
        copy.push(
            Message {
                from_id: messages[i].from_id,
                from: messages[i].from.clone(),
                message: text,
                attachments: copy_attachments(&messages[i].attachments),
                arrived_at: messages[i].arrived_at,
            },
        );
        i = i + 1;
    }
    assert(copy.deep_view() =~= messages.deep_view());
    copy
}

/// A channel as it is kept between runs.
#[derive(Debug, Clone, PartialEq, Eq)]
pub struct SavedChannel {
    pub id: String,
    pub name: String,
    pub is_group: bool,
    pub messages: Vec<Message>,
    pub unread_messages: usize,
}

impl DeepView for SavedChannel {
    type V = SavedChannelView;

    open spec fn deep_view(&self) -> SavedChannelView {
        SavedChannelView {
            id: self.id@,
            name: self.name@,
            is_group: self.is_group,
            messages: self.messages.deep_view(),
            unread_messages: self.unread_messages,
        }
    }
}

/// What is kept between runs: the channels in their order, and the text of
/// the input line.
#[derive(Debug, Clone, PartialEq, Eq)]
pub struct Snapshot {
    pub channels: Vec<SavedChannel>,
    pub input: String,
}

impl AppData {
    /// What is kept of the state: the channels with their messages and
    /// unread counts, in their order, and the input text. The selections,
    /// the window and the cursor are not kept.
    pub fn snapshot(&self) -> (snapshot: Snapshot)
        ensures
            snapshot.channels.deep_view() == saved_channels(self.channels.deep_view().items),
            snapshot.input@ == self.input@,
    {
        let mut saved: Vec<SavedChannel> = Vec::new();
        let mut i: usize = 0;
        let ghost listing = self.channels.deep_view().items;
        assert(saved.deep_view() =~= saved_channels(listing.take(0)));
        while i < self.channels.items.len()
            invariant
                i <= self.channels.items@.len(),
                listing == self.channels.deep_view().items,
                saved.deep_view() == saved_channels(listing.take(i as int)),
            decreases self.channels.items@.len() - i,
        {
            let ghost done = saved.deep_view();
            let channel = &self.channels.items[i];
            saved.push(
                SavedChannel {
                    id: channel.id.clone(),
                    name: channel.name.clone(),
                    is_group: channel.is_group,
                    messages: copy_messages(&channel.messages.items),
                    unread_messages: channel.unread_messages,
                },
            );
            assert(saved.deep_view() =~= done.push(saved_channel(listing[i as int])));
            assert forall|j: int| 0 <= j < i + 1 implies #[trigger] saved.deep_view()[j]
                == saved_channels(listing.take(i + 1))[j] by {
                if j < i {
                    assert(done[j] == saved_channels(listing.take(i as int))[j]);
                }
            }
            assert(saved.deep_view() =~= saved_channels(listing.take(i + 1)));
            i = i + 1;
        }
        assert(listing.take(listing.len() as int) =~= listing);
        Snapshot { channels: saved, input: self.input.clone() }
    }

    /// The state that a snapshot stands for: its channels in their order
    /// with nothing selected, the window at the top, and its input text
    /// with the cursor at the end. The character count of the cursor is the
    /// width of the text in terminal columns.
    pub fn from_snapshot(snapshot: Snapshot) -> (data: AppData)
        ensures
            data.channels.deep_view().items == restored_channels(snapshot.channels.deep_view()),
            data.channels.state.selected is None,
            data.chanpos == (ChannelPosition { top: 0, upside: 0, downside: 0 }),
            data.input@ == snapshot.input@,
            data.input_cursor == encode_utf8(snapshot.input@).len(),
            data.input_cursor_chars == display_width(snapshot.input@),
            data.cursor_on_boundary(),
            data.cursor_index() == snapshot.input@.len(),
            data.cursor_wf() <==> display_width(snapshot.input@) == snapshot.input@.len(),
            data.channels.wf(),
    {
        let ghost listing = snapshot.channels.deep_view();
        let Snapshot { channels, input } = snapshot;
        let mut rest = channels;
        let mut items: Vec<Channel> = Vec::new();
        assert(items.deep_view() + restored_channels(rest.deep_view()) =~= restored_channels(
            listing,
        ));
        while rest.len() > 0
            invariant
                items.deep_view() + restored_channels(rest.deep_view()) == restored_channels(
                    listing,
                ),
            decreases rest.len(),
        {
            let ghost done = items.deep_view();
            let ghost open = rest.deep_view();
            let saved = rest.remove(0);
            assert(rest.deep_view() =~= open.drop_first());
            assert(saved.deep_view() == open[0]);
            let SavedChannel { id, name, is_group, messages, unread_messages } = saved;
            items.push(
                Channel {
                    id,
                    name,
                    is_group,
                    messages: StatefulList::with_items(messages),
                    unread_messages,
                },
            );
            assert(items.deep_view() =~= done.push(restored_channel(open[0])));
            assert(items.deep_view() + restored_channels(rest.deep_view()) =~= done
                + restored_channels(open));
        }
        assert(items.deep_view() + restored_channels(rest.deep_view()) =~= items.deep_view());
        proof {
            lemma_offset_ends(input@);
            lemma_char_index(input@, input@.len() as int);
        }
        let input_cursor = byte_len(&input);
        let input_cursor_chars = text_width(&input);
        AppData {
            channels: StatefulList::with_items(items),
            chanpos: ChannelPosition { top: 0, upside: 0, downside: 0 },
            input,
            input_cursor,
            input_cursor_chars,
        }
    }
}

impl Default for AppData {
    fn default() -> (data: AppData)
        ensures
            data.channels.items@.len() == 0,
            data.channels.state.selected is None,
            data.chanpos == (ChannelPosition { top: 0, upside: 0, downside: 0 }),
            data.input@.len() == 0,
            data.input_cursor == 0,
            data.input_cursor_chars == 0,
            data.cursor_wf(),
            data.channels.wf(),
    {
        let data = AppData {
            channels: StatefulList::with_items(Vec::new()),
            chanpos: ChannelPosition { top: 0, upside: 0, downside: 0 },
            input: String::new(),
            input_cursor: 0,
            input_cursor_chars: 0,
        };
        proof {
            lemma_offset_ends(data.input@);
        }
        data
    }
}

/// The channel of a group that the service lists, named by the group's
/// name or, without one, by its identity.
pub open spec fn group_channel(group: GroupInfo) -> ChannelView {
    fresh_channel(group.group_id@, or_identity(group.name.deep_view(), group.group_id@), true)
}

/// The channel of a contact that the service lists.
pub open spec fn contact_channel(contact: ContactInfo) -> ChannelView {
    fresh_channel(contact.phone_number@, contact.name@, false)
}

/// The channels of the groups that the service lists, in its order.
pub open spec fn group_channels(groups: Seq<GroupInfo>) -> Seq<ChannelView> {
    Seq::new(groups.len(), |i: int| group_channel(groups[i]))
}

/// The channels of the contacts that the service lists, in its order.
pub open spec fn contact_channels(contacts: Seq<ContactInfo>) -> Seq<ChannelView> {
    Seq::new(contacts.len(), |i: int| contact_channel(contacts[i]))
}

/// Sorts channels by name; channels of the same name keep their order.
pub fn sort_by_name(channels: Vec<Channel>) -> (sorted: Vec<Channel>)
    ensures
        sorted.deep_view() == sorted_by_name(channels.deep_view()),
{
    let ghost listing = channels.deep_view();
    let mut rest = channels;
    let mut sorted: Vec<Channel> = Vec::new();
    assert(sorted.deep_view() =~= Seq::<ChannelView>::empty());
    while rest.len() > 0
        invariant
            sorted_into(sorted.deep_view(), rest.deep_view()) == sorted_by_name(listing),
        decreases rest.len(),
    {
        let ghost before = rest.deep_view();
        let ghost placed = sorted.deep_view();
        let channel = rest.remove(0);
        assert(rest.deep_view() =~= before.drop_first());
        assert(channel.deep_view() == before[0]);
        let mut p = sorted.len();
        assert(placed.take(p as int) =~= placed);
        while p > 0 && !string_le(&sorted[p - 1].name, &channel.name)
            invariant
                p <= sorted.len(),
                placed == sorted.deep_view(),
                insertion_point(placed, channel.name@) == insertion_point(
                    placed.take(p as int),
                    channel.name@,
                ),
            decreases p,
        {
            assert(placed.take(p as int).drop_last() =~= placed.take(p - 1));
            assert(placed.take(p as int).last() == placed[p - 1]);
            p = p - 1;
        }
        proof {
            if p > 0 {
                assert(placed.take(p as int).last() == placed[p - 1]);
            }
        }
        sorted.insert(p, channel);
        assert(sorted.deep_view() =~= inserted(placed, before[0]));
    }
    sorted
}

impl AppData {
    /// The state at the first run, from the groups and contacts that the
    /// messaging service lists: the groups' channels in the order of their
    /// names, then the contacts' channels in the order of theirs, with the
    /// first channel selected, the window at the top and an empty input
    /// line.
    pub fn init_from_signal(groups: Vec<GroupInfo>, contacts: Vec<ContactInfo>) -> (data: AppData)
        ensures
            data.channels.deep_view().items == sorted_by_name(group_channels(groups@))
                + sorted_by_name(contact_channels(contacts@)),
            data.channels.state.selected == if groups@.len() + contacts@.len() > 0 {
                Some(0usize)
            } else {
                None
            },
            data.chanpos == (ChannelPosition { top: 0, upside: 0, downside: 0 }),
            data.input@.len() == 0,
            data.input_cursor == 0,
            data.input_cursor_chars == 0,
            data.cursor_wf(),
            data.channels.wf(),
    {
        let mut group_list: Vec<Channel> = Vec::new();
        let mut i: usize = 0;
        assert(group_list.deep_view() =~= group_channels(groups@.take(0)));
        while i < groups.len()
            invariant
                i <= groups@.len(),
                group_list.deep_view() == group_channels(groups@.take(i as int)),
            decreases groups@.len() - i,
        {
            let name = match &groups[i].name {
                Some(name) => name.clone(),
                None => groups[i].group_id.clone(),
            };
            let ghost listed = group_list.deep_view();
            group_list.push(Channel::new(groups[i].group_id.clone(), name, true));
            assert(group_list.deep_view() =~= listed.push(group_channel(groups@[i as int])));
            assert forall|j: int| 0 <= j < i + 1 implies #[trigger] group_list.deep_view()[j]
                == group_channels(groups@.take(i + 1))[j] by {
                if j < i {
                    assert(listed[j] == group_channels(groups@.take(i as int))[j]);
                }
            }
            assert(group_list.deep_view() =~= group_channels(groups@.take(i + 1)));
            i = i + 1;
        }
        assert(groups@.take(groups@.len() as int) =~= groups@);
        let mut contact_list: Vec<Channel> = Vec::new();
        let mut k: usize = 0;
        assert(contact_list.deep_view() =~= contact_channels(contacts@.take(0)));
        while k < contacts.len()
            invariant
                k <= contacts@.len(),
                contact_list.deep_view() == contact_channels(contacts@.take(k as int)),
            decreases contacts@.len() - k,
        {
            let ghost listed = contact_list.deep_view();
            contact_list.push(
                Channel::new(contacts[k].phone_number.clone(), contacts[k].name.clone(), false),
            );
            assert(contact_list.deep_view() =~= listed.push(contact_channel(contacts@[k as int])));
            assert forall|j: int| 0 <= j < k + 1 implies #[trigger] contact_list.deep_view()[j]
                == contact_channels(contacts@.take(k + 1))[j] by {
                if j < k {
                    assert(listed[j] == contact_channels(contacts@.take(k as int))[j]);
                }
            }
            assert(contact_list.deep_view() =~= contact_channels(contacts@.take(k + 1)));
            k = k + 1;
        }
        assert(contacts@.take(contacts@.len() as int) =~= contacts@);
        let mut channels = sort_by_name(group_list);
        let mut sorted_contacts = sort_by_name(contact_list);
        let ghost first = channels.deep_view();
        let ghost second = sorted_contacts.deep_view();
        channels.append(&mut sorted_contacts);
        assert(channels.deep_view() =~= first + second);
        proof {
            crate::order::lemma_sorted_by_name(group_channels(groups@));
            crate::order::lemma_sorted_by_name(contact_channels(contacts@));
        }
        let mut channels = StatefulList::with_items(channels);
        if channels.items.len() > 0 {
            channels.state.select(Some(0));
        }
        let data = AppData {
            channels,
            chanpos: ChannelPosition { top: 0, upside: 0, downside: 0 },
            input: String::new(),
            input_cursor: 0,
            input_cursor_chars: 0,
        };
        proof {
            lemma_offset_ends(data.input@);
        }
        data
    }
}

/// The user of this account.
#[derive(Debug, Clone, PartialEq, Eq)]
pub struct User {
    pub name: String,
    pub phone_number: String,
}

/// The settings that the state engine reads.
#[derive(Debug, Clone, PartialEq, Eq)]
pub struct Config {
    pub user: User,
}

/// The state engine.
#[derive(Debug, Clone, PartialEq, Eq)]
pub struct App {
    pub config: Config,
    pub should_quit: bool,
    /// The identifier of this account.
    pub uuid: Uuid,
    pub data: AppData,
}

/// Display names that the messaging service gave for a message; `None`
/// where it was not asked or knew none.
#[derive(Debug, Clone, PartialEq, Eq)]
pub struct Names {
    /// of the sender
    pub sender: Option<String>,
    /// of the group that the message went to
    pub group: Option<String>,
    /// of the contact that the user wrote to from another device
    pub counterpart: Option<String>,
}

impl DeepView for Names {
    type V = NamesView;

    open spec fn deep_view(&self) -> NamesView {
        NamesView {
            sender: self.sender.deep_view(),
            group: self.group.deep_view(),
            counterpart: self.counterpart.deep_view(),
        }
    }
}

/// Which display names the messaging service is to be asked for before a
/// message is delivered.
#[derive(Debug, Clone, Copy, PartialEq, Eq, Structural)]
pub struct Wanted {
    pub sender: bool,
    pub group: bool,
    pub counterpart: bool,
}

/// A notice for the user.
#[derive(Debug, Clone, PartialEq, Eq)]
pub struct Notification {
    pub summary: String,
    pub body: String,
}

impl DeepView for Notification {
    type V = NotificationView;

    open spec fn deep_view(&self) -> NotificationView {
        NotificationView { summary: self.summary@, body: self.body@ }
    }
}

/// What the delivery of a message leaves to do besides saving the state.
#[derive(Debug, Clone, PartialEq, Eq)]
pub struct Handled {
    pub notification: Option<Notification>,
}

/// A message for the protocol client to send.
#[derive(Debug, Clone, PartialEq, Eq)]
pub struct Outgoing {
    pub recipient: Uuid,
    pub body: String,
    /// Milliseconds since the Unix epoch, UTC.
    pub timestamp: u64,
}

/// What sending the input leaves to do besides saving the state.
#[derive(Debug, Clone, PartialEq, Eq)]
pub struct Submitted {
    /// The message for the protocol client; none where the identity of the
    /// channel is not an account identifier.
    pub outgoing: Option<Outgoing>,
}

/// What the engine is driven by.
#[derive(Debug, Clone, PartialEq, Eq)]
pub enum Event {
    Click(MouseEvent),
    Input(KeyEvent),
    Channels {
        remote: Vec<Channel>,
    },
    Message {
        /// used for debugging
        payload: String,
        /// some message if deserialized successfully
        message: Option<crate::signal::Message>,
    },
    PresageMessage(Content),
    Resize {
        cols: u16,
        rows: u16,
    },
    /// The end of the session, with the reason where it is a failure.
    Quit(Option<String>),
}

/// The first position in `items` of a channel with the identity `id` and,
/// where `kind` says which, of that kind.
pub fn find_channel(items: &Vec<Channel>, id: &String, kind: Option<bool>) -> (found: Option<
    usize,
>)
    ensures
        found matches Some(i) ==> position(items.deep_view(), id@, kind) == Some(i as int),
        found is None ==> position(items.deep_view(), id@, kind) is None,
{
    let mut i: usize = 0;
    while i < items.len()
        invariant
            i <= items.len(),
            forall|j: int|
                0 <= j < i ==> !matches_key(#[trigger] items.deep_view()[j], id@, kind),
        decreases items.len() - i,
    {
        let same_kind = match kind {
            Some(is_group) => items[i].is_group == is_group,
            None => true,
        };
        if same_kind && items[i].id == *id {
            proof {
                lemma_position_found(items.deep_view(), id@, kind, i as int);
            }
            return Some(i);
        }
        i = i + 1;
    }
    proof {
        lemma_position_absent(items.deep_view(), id@, kind);
    }
    None
}

impl App {
    /// The two states differ at most in the channels.
    pub open spec fn same_but_channels(self, other: App) -> bool {
        &&& self.config == other.config
        &&& self.should_quit == other.should_quit
        &&& self.uuid == other.uuid
        &&& self.data.chanpos == other.data.chanpos
        &&& self.data.input == other.data.input
        &&& self.data.input_cursor == other.data.input_cursor
        &&& self.data.input_cursor_chars == other.data.input_cursor_chars
    }

    /// The model of the channel list.
    pub open spec fn channels(self) -> ChannelsView {
        self.data.channels.deep_view()
    }

    /// What is to be written to keep the state, see [`AppData::snapshot`].
    pub fn save(&self) -> (snapshot: Snapshot)
        ensures
            snapshot.channels.deep_view() == saved_channels(self.channels().items),
            snapshot.input@ == self.data.input@,
    {
        self.data.snapshot()
    }

    /// The two states differ at most in the input line and its cursor.
    pub open spec fn same_but_input(self, other: App) -> bool {
        &&& self.config == other.config
        &&& self.should_quit == other.should_quit
        &&& self.uuid == other.uuid
        &&& self.data.channels == other.data.channels
        &&& self.data.chanpos == other.data.chanpos
    }

    /// Puts `c` into the input at the cursor and moves the cursor behind it.
    pub fn put_char(&mut self, c: char)
        requires
            old(self).data.cursor_on_boundary(),
            old(self).data.count_has_room(1),
        ensures
            final(self).data.input@ == old(self).data.input@.insert(
                old(self).data.cursor_index(),
                c,
            ),
            final(self).data.input_cursor == old(self).data.input_cursor + encode_scalar(
                c as u32,
            ).len(),
            final(self).data.input_cursor_chars == old(self).data.input_cursor_chars + 1,
            final(self).data.cursor_on_boundary(),
            final(self).data.cursor_index() == old(self).data.cursor_index() + 1,
            old(self).data.cursor_wf() ==> final(self).data.cursor_wf(),
            old(self).same_but_input(*final(self)),
    {
        proof {
            self.data.lemma_cursor();
        }
        let ghost k = self.data.cursor_index();
        let idx = self.data.input_cursor;
        insert_char(&mut self.data.input, idx, c, Ghost(k));
        self.data.input_cursor = idx + char_len_utf8(c);
        proof {
            lemma_char_index(self.data.input@, k + 1);
        }
        self.data.input_cursor_chars = self.data.input_cursor_chars + 1;
    }

    /// Moves the cursor one character back, and lowers the character count
    /// by one unless it is zero. At the start of the input nothing changes
    /// and the result is `None`.
    pub fn on_left(&mut self) -> (moved: Option<()>)
        requires
            old(self).data.cursor_on_boundary(),
        ensures
            final(self).data.input == old(self).data.input,
            old(self).same_but_input(*final(self)),
            final(self).data.cursor_on_boundary(),
            old(self).data.cursor_index() == 0 ==> moved is None && *final(self) == *old(self),
            old(self).data.cursor_index() > 0 ==> moved is Some && final(self).data.cursor_index()
                == old(self).data.cursor_index() - 1 && final(self).data.input_cursor_chars
                == lowered(old(self).data.input_cursor_chars, 1),
            old(self).data.cursor_wf() ==> final(self).data.cursor_wf(),
    {
        proof {
            self.data.lemma_cursor();
        }
        if self.data.input_cursor == 0 {
            return None;
        }
        let ghost k = self.data.cursor_index();
        let idx = previous_boundary(&self.data.input, self.data.input_cursor, Ghost(k));
        self.data.input_cursor = idx;
        if self.data.input_cursor_chars > 0 {
            self.data.input_cursor_chars = self.data.input_cursor_chars - 1;
        }
        proof {
            lemma_char_index(self.data.input@, k - 1);
        }
        Some(())
    }

    /// Moves the cursor one character forward, and raises the character
    /// count by one. At the end of the input nothing changes and the result
    /// is `None`.
    pub fn on_right(&mut self) -> (moved: Option<()>)
        requires
            old(self).data.cursor_on_boundary(),
            old(self).data.cursor_index() < old(self).data.input@.len()
                ==> old(self).data.count_has_room(1),
        ensures
            final(self).data.input == old(self).data.input,
            old(self).same_but_input(*final(self)),
            final(self).data.cursor_on_boundary(),
            old(self).data.cursor_index() == old(self).data.input@.len() ==> moved is None
                && *final(self) == *old(self),
            old(self).data.cursor_index() < old(self).data.input@.len() ==> moved is Some
                && final(self).data.cursor_index() == old(self).data.cursor_index() + 1
                && final(self).data.input_cursor_chars == old(self).data.input_cursor_chars + 1,
            old(self).data.cursor_wf() ==> final(self).data.cursor_wf(),
    {
        let len = byte_len(&self.data.input);
        proof {
            self.data.lemma_cursor();
            lemma_offset_ends(self.data.input@);
            lemma_offset_increasing(self.data.input@, 0, self.data.input@.len() as int);
        }
        if self.data.input_cursor >= len {
            return None;
        }
        let ghost k = self.data.cursor_index();
        let idx = next_boundary(&self.data.input, self.data.input_cursor, Ghost(k));
        self.data.input_cursor = idx;
        self.data.input_cursor_chars = self.data.input_cursor_chars + 1;
        proof {
            lemma_char_index(self.data.input@, k + 1);
        }
        Some(())
    }

    /// Moves the cursor to the start of the input.
    pub fn on_home(&mut self)
        ensures
            final(self).data.input == old(self).data.input,
            final(self).data.input_cursor == 0,
            final(self).data.input_cursor_chars == 0,
            final(self).data.cursor_index() == 0,
            final(self).data.cursor_wf(),
            old(self).same_but_input(*final(self)),
    {
        proof {
            lemma_offset_ends(self.data.input@);
            lemma_char_index(self.data.input@, 0);
        }
        self.data.input_cursor = 0;
        self.data.input_cursor_chars = 0;
    }

    /// Moves the cursor to the end of the input. The character count
    /// becomes the width of the input in terminal columns, which is the
    /// number of its characters where each takes one column.
    pub fn on_end(&mut self)
        ensures
            final(self).data.input == old(self).data.input,
            final(self).data.input_cursor == encode_utf8(old(self).data.input@).len(),
            final(self).data.input_cursor_chars == display_width(old(self).data.input@),
            final(self).data.cursor_on_boundary(),
            final(self).data.cursor_index() == old(self).data.input@.len(),
            final(self).data.cursor_wf() <==> display_width(old(self).data.input@)
                == old(self).data.input@.len(),
            old(self).same_but_input(*final(self)),
    {
        proof {
            lemma_offset_ends(self.data.input@);
            lemma_char_index(self.data.input@, self.data.input@.len() as int);
        }
        self.data.input_cursor = byte_len(&self.data.input);
        self.data.input_cursor_chars = text_width(&self.data.input);
    }

    /// Deletes the character before the cursor, and lowers the character
    /// count by one unless it is zero. At the start of the input nothing
    /// changes and the result is `None`.
    pub fn on_backspace(&mut self) -> (deleted: Option<()>)
        requires
            old(self).data.cursor_on_boundary(),
        ensures
            old(self).same_but_input(*final(self)),
            final(self).data.cursor_on_boundary(),
            old(self).data.cursor_index() == 0 ==> deleted is None && *final(self) == *old(self),
            old(self).data.cursor_index() > 0 ==> deleted is Some && final(self).data.input@
                == old(self).data.input@.remove(old(self).data.cursor_index() - 1)
                && final(self).data.cursor_index() == old(self).data.cursor_index() - 1
                && final(self).data.input_cursor_chars == lowered(
                old(self).data.input_cursor_chars,
                1,
            ),
            old(self).data.cursor_wf() ==> final(self).data.cursor_wf(),
    {
        proof {
            self.data.lemma_cursor();
        }
        if self.data.input_cursor == 0 {
            return None;
        }
        let ghost k = self.data.cursor_index();
        let ghost before = self.data.input@;
        let idx = previous_boundary(&self.data.input, self.data.input_cursor, Ghost(k));
        remove_char(&mut self.data.input, idx, Ghost(k - 1));
        self.data.input_cursor = idx;
        if self.data.input_cursor_chars > 0 {
            self.data.input_cursor_chars = self.data.input_cursor_chars - 1;
        }
        proof {
            assert(self.data.input@.take(k - 1) =~= before.take(k - 1));
            lemma_char_index(self.data.input@, k - 1);
        }
        Some(())
    }

    /// Deletes the word before the cursor: the ASCII spaces before the
    /// cursor, then the characters other than the space before those. The
    /// character count is lowered by the number of characters deleted, and
    /// by no more than to zero. The result is `None` where the deletion
    /// reached the start of the input.
    pub fn on_delete_word(&mut self) -> (found: Option<()>)
        requires
            old(self).data.cursor_on_boundary(),
        ensures
            old(self).same_but_input(*final(self)),
            final(self).data.cursor_on_boundary(),
            ({
                let text = old(self).data.input@;
                let k = old(self).data.cursor_index();
                let start = word_run_start(text, space_run_start(text, k));
                &&& final(self).data.input@ == text.take(start) + text.skip(k)
                &&& final(self).data.cursor_index() == start
                &&& final(self).data.input_cursor_chars == lowered(
                    old(self).data.input_cursor_chars,
                    k - start,
                )
                &&& found is Some <==> start > 0
            }),
            old(self).data.cursor_wf() ==> final(self).data.cursor_wf(),
    {
        proof {
            self.data.lemma_cursor();
        }
        let ghost text = self.data.input@;
        let ghost k = self.data.cursor_index();
        assert(text =~= text.take(k) + text.skip(k));
        let mut in_spaces = true;
        while in_spaces
            invariant
                text == old(self).data.input@,
                k == old(self).data.cursor_index(),
                old(self).same_but_input(*self),
                self.data.cursor_on_boundary(),
                0 <= self.data.cursor_index() <= k <= text.len(),
                self.data.input@ == text.take(self.data.cursor_index()) + text.skip(k),
                self.data.input_cursor_chars == lowered(
                    old(self).data.input_cursor_chars,
                    k - self.data.cursor_index(),
                ),
                old(self).data.cursor_wf() ==> self.data.cursor_wf(),
                space_run_start(text, k) == if in_spaces {
                    space_run_start(text, self.data.cursor_index())
                } else {
                    self.data.cursor_index()
                },
                !in_spaces ==> self.data.cursor_index() > 0,
            decreases self.data.cursor_index() + if in_spaces { 1int } else { 0int },
        {
            proof {
                self.data.lemma_cursor();
            }
            if self.data.input_cursor == 0 {
                return None;
            }
            let ghost j = self.data.cursor_index();
            if space_before(&self.data.input, self.data.input_cursor, Ghost(j)) {
                self.on_backspace();
                assert(self.data.input@ =~= text.take(j - 1) + text.skip(k));
            } else {
                in_spaces = false;
            }
        }
        let mut in_word = true;
        while in_word
            invariant
                text == old(self).data.input@,
                k == old(self).data.cursor_index(),
                old(self).same_but_input(*self),
                self.data.cursor_on_boundary(),
                0 <= self.data.cursor_index() <= k <= text.len(),
                self.data.input@ == text.take(self.data.cursor_index()) + text.skip(k),
                self.data.input_cursor_chars == lowered(
                    old(self).data.input_cursor_chars,
                    k - self.data.cursor_index(),
                ),
                old(self).data.cursor_wf() ==> self.data.cursor_wf(),
                word_run_start(text, space_run_start(text, k)) == if in_word {
                    word_run_start(text, self.data.cursor_index())
                } else {
                    self.data.cursor_index()
                },
                !in_word ==> self.data.cursor_index() > 0,
            decreases self.data.cursor_index() + if in_word { 1int } else { 0int },
        {
            proof {
                self.data.lemma_cursor();
            }
            if self.data.input_cursor == 0 {
                return None;
            }
            let ghost j = self.data.cursor_index();
            if !space_before(&self.data.input, self.data.input_cursor, Ghost(j)) {
                self.on_backspace();
                assert(self.data.input@ =~= text.take(j - 1) + text.skip(k));
            } else {
                in_word = false;
            }
        }
        Some(())
    }

    /// Deletes the input from the cursor on.
    pub fn on_delete_suffix(&mut self)
        requires
            old(self).data.cursor_on_boundary(),
        ensures
            final(self).data.input@ == old(self).data.input@.take(old(self).data.cursor_index()),
            final(self).data.input_cursor == old(self).data.input_cursor,
            final(self).data.input_cursor_chars == old(self).data.input_cursor_chars,
            final(self).data.cursor_on_boundary(),
            final(self).data.cursor_index() == old(self).data.cursor_index(),
            old(self).data.cursor_wf() ==> final(self).data.cursor_wf(),
            old(self).same_but_input(*final(self)),
    {
        proof {
            self.data.lemma_cursor();
        }
        let ghost k = self.data.cursor_index();
        let ghost before = self.data.input@;
        if self.data.input_cursor < byte_len(&self.data.input) {
            truncate_at(&mut self.data.input, self.data.input_cursor, Ghost(k));
        } else {
            proof {
                assert(before.take(k) =~= before);
            }
        }
        proof {
            assert(self.data.input@.take(k) =~= before.take(k));
            lemma_char_index(self.data.input@, k);
        }
    }

    /// One step of the cursor in the given direction.
    fn step(&mut self, forward: bool) -> (moved: Option<()>)
        requires
            old(self).data.cursor_on_boundary(),
            forward && old(self).data.cursor_index() < old(self).data.input@.len()
                ==> old(self).data.count_has_room(1),
        ensures
            final(self).data.input == old(self).data.input,
            old(self).same_but_input(*final(self)),
            final(self).data.cursor_on_boundary(),
            0 <= old(self).data.cursor_index() <= old(self).data.input@.len(),
            match stepped(old(self).data.input@, old(self).data.cursor_index(), forward) {
                Some(next) => {
                    &&& moved is Some
                    &&& final(self).data.cursor_index() == next
                    &&& final(self).data.input_cursor_chars == if forward {
                        (old(self).data.input_cursor_chars + 1) as usize
                    } else {
                        lowered(old(self).data.input_cursor_chars, 1)
                    }
                },
                None => moved is None && *final(self) == *old(self),
            },
            old(self).data.cursor_wf() ==> final(self).data.cursor_wf(),
    {
        proof {
            self.data.lemma_cursor();
        }
        if forward {
            self.on_right()
        } else {
            self.on_left()
        }
    }

    /// A word motion in the given direction, see [`word_motion`]. The
    /// character count follows the cursor. The result is `None` where the
    /// text ended before the motion found its space.
    fn word_operation(&mut self, forward: bool) -> (found: Option<()>)
        requires
            old(self).data.cursor_on_boundary(),
            forward ==> old(self).data.count_has_room(
                word_motion(old(self).data.input@, old(self).data.cursor_index(), true).0
                    - old(self).data.cursor_index(),
            ),
        ensures
            final(self).data.input == old(self).data.input,
            old(self).same_but_input(*final(self)),
            final(self).data.cursor_on_boundary(),
            final(self).data.cursor_index() == word_motion(
                old(self).data.input@,
                old(self).data.cursor_index(),
                forward,
            ).0,
            forward ==> final(self).data.cursor_index() >= old(self).data.cursor_index()
                && final(self).data.input_cursor_chars == old(self).data.input_cursor_chars
                + final(self).data.cursor_index() - old(self).data.cursor_index(),
            !forward ==> final(self).data.cursor_index() <= old(self).data.cursor_index()
                && final(self).data.input_cursor_chars == lowered(
                old(self).data.input_cursor_chars,
                old(self).data.cursor_index() - final(self).data.cursor_index(),
            ),
            found is Some <==> word_motion(
                old(self).data.input@,
                old(self).data.cursor_index(),
                forward,
            ).1,
            old(self).data.cursor_wf() ==> final(self).data.cursor_wf(),
    {
        proof {
            self.data.lemma_cursor();
        }
        let ghost text = self.data.input@;
        let ghost k = self.data.cursor_index();
        let ghost count = self.data.input_cursor_chars;
        let ghost target = word_motion(text, k, forward).0;
        proof {
            lemma_word_motion(text, k, forward);
        }
        let mut skipping = true;
        while skipping
            invariant
                text == old(self).data.input@,
                k == old(self).data.cursor_index(),
                count == old(self).data.input_cursor_chars,
                self.data.input == old(self).data.input,
                old(self).same_but_input(*self),
                self.data.cursor_on_boundary(),
                0 <= self.data.cursor_index() <= text.len(),
                0 <= k <= text.len(),
                target == word_motion(text, k, forward).0,
                forward ==> self.data.cursor_index() <= target && self.data.count_has_room(
                    target - self.data.cursor_index(),
                ),
                forward ==> self.data.cursor_index() >= k && self.data.input_cursor_chars == count
                    + self.data.cursor_index() - k,
                !forward ==> self.data.cursor_index() <= k && self.data.input_cursor_chars
                    == lowered(count, k - self.data.cursor_index()),
                old(self).data.cursor_wf() ==> self.data.cursor_wf(),
                skip_spaces(text, k, forward) == if skipping {
                    skip_spaces(text, self.data.cursor_index(), forward)
                } else {
                    (self.data.cursor_index(), true)
                },
            decreases
                    (if forward {
                        text.len() - self.data.cursor_index()
                    } else {
                        self.data.cursor_index()
                    }) + if skipping { 1int } else { 0int },
        {
            proof {
                lemma_motion_passes_step(text, self.data.cursor_index(), forward);
            }
            match self.step(forward) {
                None => {
                    skipping = false;
                },
                Some(_) => {
                    match space_at(
                        &self.data.input,
                        self.data.input_cursor,
                        Ghost(self.data.cursor_index()),
                    ) {
                        None => {
                            return None;
                        },
                        Some(space) => {
                            if !space {
                                skipping = false;
                            }
                        },
                    }
                },
            }
        }
        loop
            invariant
                text == old(self).data.input@,
                k == old(self).data.cursor_index(),
                count == old(self).data.input_cursor_chars,
                self.data.input == old(self).data.input,
                old(self).same_but_input(*self),
                self.data.cursor_on_boundary(),
                0 <= self.data.cursor_index() <= text.len(),
                0 <= k <= text.len(),
                target == word_motion(text, k, forward).0,
                forward ==> self.data.cursor_index() <= target && self.data.count_has_room(
                    target - self.data.cursor_index(),
                ),
                forward ==> self.data.cursor_index() >= k && self.data.input_cursor_chars == count
                    + self.data.cursor_index() - k,
                !forward ==> self.data.cursor_index() <= k && self.data.input_cursor_chars
                    == lowered(count, k - self.data.cursor_index()),
                old(self).data.cursor_wf() ==> self.data.cursor_wf(),
                word_motion(text, k, forward) == seek_space(
                    text,
                    self.data.cursor_index(),
                    forward,
                ),
            decreases
                    (if forward {
                        text.len() - self.data.cursor_index()
                    } else {
                        self.data.cursor_index()
                    }),
        {
            proof {
                lemma_motion_passes_step(text, self.data.cursor_index(), forward);
            }
            match self.step(forward) {
                None => {
                    return None;
                },
                Some(_) => {
                    match space_at(
                        &self.data.input,
                        self.data.input_cursor,
                        Ghost(self.data.cursor_index()),
                    ) {
                        None => {
                            return None;
                        },
                        Some(space) => {
                            if space {
                                return Some(());
                            }
                        },
                    }
                },
            }
        }
    }

    /// Move a word back
    pub fn on_alt_left(&mut self)
        requires
            old(self).data.cursor_on_boundary(),
            old(self).data.cursor_index() == 0 && space_at_position(old(self).data.input@, 0)
                == Some(true) ==> old(self).data.count_has_room(1),
        ensures
            final(self).data.input == old(self).data.input,
            old(self).same_but_input(*final(self)),
            final(self).data.cursor_on_boundary(),
            ({
                let text = old(self).data.input@;
                let k = old(self).data.cursor_index();
                &&& final(self).data.cursor_index() == word_left(text, k)
                &&& final(self).data.input_cursor_chars == lowered(
                    old(self).data.input_cursor_chars,
                    k - word_left_reach(text, k),
                ) + word_left(text, k) - word_left_reach(text, k)
            }),
            old(self).data.cursor_wf() ==> final(self).data.cursor_wf(),
    {
        proof {
            self.data.lemma_cursor();
        }
        self.step(false);
        self.word_operation(false);
        proof {
            self.data.lemma_cursor();
        }
        let space = space_at(
            &self.data.input,
            self.data.input_cursor,
            Ghost(self.data.cursor_index()),
        );
        match space {
            Some(true) => {
                self.on_right();
            },
            _ => {},
        }
    }

    /// Move a word forward
    pub fn on_alt_right(&mut self)
        requires
            old(self).data.cursor_on_boundary(),
            old(self).data.count_has_room(
                word_right(old(self).data.input@, old(self).data.cursor_index())
                    - old(self).data.cursor_index(),
            ),
        ensures
            final(self).data.input == old(self).data.input,
            old(self).same_but_input(*final(self)),
            final(self).data.cursor_on_boundary(),
            ({
                let text = old(self).data.input@;
                let k = old(self).data.cursor_index();
                &&& final(self).data.cursor_index() == word_right(text, k)
                &&& final(self).data.input_cursor_chars == old(self).data.input_cursor_chars
                    + word_right(text, k) - k
            }),
            old(self).data.cursor_wf() ==> final(self).data.cursor_wf(),
    {
        proof {
            self.data.lemma_cursor();
        }
        let ghost text = self.data.input@;
        let ghost k = self.data.cursor_index();
        let ghost count = self.data.input_cursor_chars;
        proof {
            lemma_word_motion(text, k, true);
            lemma_space_run_end(text, word_motion(text, k, true).0);
        }
        self.word_operation(true);
        let mut on_space = true;
        while on_space
            invariant
                text == old(self).data.input@,
                k == old(self).data.cursor_index(),
                count == old(self).data.input_cursor_chars,
                self.data.input == old(self).data.input,
                old(self).same_but_input(*self),
                self.data.cursor_on_boundary(),
                k <= self.data.cursor_index() <= word_right(text, k) <= text.len(),
                self.data.count_has_room(word_right(text, k) - self.data.cursor_index()),
                self.data.input_cursor_chars == count + self.data.cursor_index() - k,
                old(self).data.cursor_wf() ==> self.data.cursor_wf(),
                word_right(text, k) == if on_space {
                    space_run_end(text, self.data.cursor_index())
                } else {
                    self.data.cursor_index()
                },
            decreases text.len() - self.data.cursor_index() + if on_space { 1int } else { 0int },
        {
            proof {
                self.data.lemma_cursor();
                lemma_space_run_end(text, self.data.cursor_index());
            }
            let space = space_at(
                &self.data.input,
                self.data.input_cursor,
                Ghost(self.data.cursor_index()),
            );
            match space {
                Some(true) => {
                    self.on_right();
                },
                _ => {
                    on_space = false;
                },
            }
        }
    }

    /// The two states differ at most in the channels and the window over
    /// them.
    pub open spec fn same_but_list(self, other: App) -> bool {
        &&& self.config == other.config
        &&& self.should_quit == other.should_quit
        &&& self.uuid == other.uuid
        &&& self.data.input == other.data.input
        &&& self.data.input_cursor == other.data.input_cursor
        &&& self.data.input_cursor_chars == other.data.input_cursor_chars
    }

    /// Moves the selection one channel up, to the last channel from the
    /// first, and the window with it. The unread count of the channel that
    /// was selected is cleared; the result says whether there was anything
    /// to clear, after which the state is to be saved.
    pub fn on_up(&mut self) -> (cleared: bool)
        requires
            old(self).data.channels.wf(),
            old(self).data.chanpos.can_scroll_up(old(self).data.channels.state.selected),
        ensures
            final(self).channels().items == cleared_unread(old(self).channels()).items,
            final(self).channels().selected == moved_selection(
                old(self).channels().selected,
                old(self).channels().items.len() as int,
                false,
            ),
            final(self).data.chanpos == old(self).data.chanpos.scrolled_up(
                old(self).channels().selected,
                old(self).channels().items.len() as int,
            ),
            cleared == (old(self).channels().selected matches Some(s)
                && old(self).channels().items[s as int].unread_messages > 0),
            final(self).data.channels.items@.len() == old(self).data.channels.items@.len(),
            old(self).same_but_list(*final(self)),
            final(self).data.channels.wf(),
    {
        let cleared = self.reset_unread_messages();
        if self.data.channels.state.selected() == Some(0) {
            let len = self.data.channels.items.len();
            let below = self.data.chanpos.downside as usize;
            self.data.chanpos.top = if len > below {
                len - below - 1
            } else {
                0
            };
            self.data.chanpos.upside = self.data.chanpos.downside;
            self.data.chanpos.downside = 0;
        } else {
            if self.data.chanpos.upside == 0 {
                if self.data.chanpos.top > 0 {
                    self.data.chanpos.top = self.data.chanpos.top - 1;
                }
            } else {
                self.data.chanpos.upside = self.data.chanpos.upside - 1;
                self.data.chanpos.downside = self.data.chanpos.downside + 1;
            }
        }
        self.data.channels.previous();
        cleared
    }

    /// Moves the selection one channel down, to the first channel from the
    /// last, and the window with it. The unread count of the channel that
    /// was selected is cleared; the result says whether there was anything
    /// to clear, after which the state is to be saved.
    pub fn on_down(&mut self) -> (cleared: bool)
        requires
            old(self).data.channels.wf(),
            old(self).data.chanpos.can_scroll_down(),
        ensures
            final(self).channels().items == cleared_unread(old(self).channels()).items,
            final(self).channels().selected == moved_selection(
                old(self).channels().selected,
                old(self).channels().items.len() as int,
                true,
            ),
            final(self).data.chanpos == old(self).data.chanpos.scrolled_down(
                old(self).channels().selected,
                old(self).channels().items.len() as int,
            ),
            cleared == (old(self).channels().selected matches Some(s)
                && old(self).channels().items[s as int].unread_messages > 0),
            final(self).data.channels.items@.len() == old(self).data.channels.items@.len(),
            old(self).same_but_list(*final(self)),
            final(self).data.channels.wf(),
    {
        let cleared = self.reset_unread_messages();
        if self.data.chanpos.downside == 0 {
            self.data.chanpos.top = self.data.chanpos.top + 1;
        } else {
            self.data.chanpos.upside = self.data.chanpos.upside + 1;
            self.data.chanpos.downside = self.data.chanpos.downside - 1;
        }
        self.data.channels.next();
        if self.data.channels.state.selected() == Some(0) {
            self.data.chanpos.top = 0;
            self.data.chanpos.downside = self.data.chanpos.upside;
            self.data.chanpos.upside = 0;
        }
        cleared
    }

    /// Moves the selection in the messages of the current channel a step
    /// forward. Without channels nothing changes.
    pub fn on_pgup(&mut self)
        ensures
            final(self).channels() == paged(old(self).channels(), true),
            final(self).data.channels.items@.len() == old(self).data.channels.items@.len(),
            old(self).same_but_channels(*final(self)),
            old(self).data.channels.wf() ==> final(self).data.channels.wf(),
    {
        let select = match self.data.channels.state.selected() {
            Some(select) => select,
            None => 0,
        };
        if select < self.data.channels.items.len() {
            self.data.channels.items[select].messages.next();
            assert(self.channels().items =~= paged(old(self).channels(), true).items);
        }
    }

    /// Moves the selection in the messages of the current channel a step
    /// backward. Without channels nothing changes.
    pub fn on_pgdn(&mut self)
        ensures
            final(self).channels() == paged(old(self).channels(), false),
            final(self).data.channels.items@.len() == old(self).data.channels.items@.len(),
            old(self).same_but_channels(*final(self)),
            old(self).data.channels.wf() ==> final(self).data.channels.wf(),
    {
        let select = match self.data.channels.state.selected() {
            Some(select) => select,
            None => 0,
        };
        if select < self.data.channels.items.len() {
            self.data.channels.items[select].messages.previous();
            assert(self.channels().items =~= paged(old(self).channels(), false).items);
        }
    }

    /// What sending the input to the channel at `channel_idx` at the time
    /// `now` makes of the state `self`: the state `after` and what is left
    /// to do. The input line is empty, its text is a message of the user
    /// at the end of the channel, the unread count of the selected channel
    /// is cleared, and the channel stands at the front. There is a message
    /// for the protocol client exactly where the identity of the channel
    /// reads as an account identifier, which is its recipient.
    pub open spec fn send_outcome(
        self,
        after: App,
        channel_idx: usize,
        now: u64,
        outcome: Submitted,
    ) -> bool {
        let channel = self.channels().items[channel_idx as int];
        &&& after.channels() == sent(
            self.channels(),
            channel_idx as int,
            MessageView {
                from_id: self.uuid,
                from: self.config.user.name@,
                message: Some(self.data.input@),
                attachments: Seq::empty(),
                arrived_at: now,
            },
        )
        &&& after.data.input@ == Seq::<char>::empty()
        &&& after.data.input_cursor == 0
        &&& after.data.input_cursor_chars == 0
        &&& after.config == self.config
        &&& after.uuid == self.uuid
        &&& after.should_quit == self.should_quit
        &&& after.data.chanpos == self.data.chanpos
        &&& match parsed_uuid(channel.id) {
            Some(recipient) => {
                &&& outcome.outgoing matches Some(outgoing)
                &&& outgoing.recipient == recipient
                &&& outgoing.body@ == self.data.input@
                &&& outgoing.timestamp == now
            },
            None => outcome.outgoing is None,
        }
    }

    /// The character that a key types: a line feed for a carriage return.
    pub open spec fn typed_char(c: char) -> char {
        if c == '\r' {
            '\n'
        } else {
            c
        }
    }

    /// The selected channel is a group.
    pub open spec fn group_selected(self) -> bool {
        self.data.channels.state.selected matches Some(idx) && idx < self.data.channels.items@.len()
            && self.data.channels.items@[idx as int].is_group
    }

    /// Whether a key sends the input: Enter does, where there is input
    /// and a channel is selected.
    pub open spec fn key_sends(self, key: KeyCode) -> bool {
        key is Enter && self.data.input@.len() > 0 && self.data.channels.state.selected is Some
    }

    /// Handles a key: a character goes into the input, with a line feed
    /// for a carriage return; Enter sends the input, if there is any, to
    /// the selected channel, at the time `now`; Home, End and Backspace
    /// edit the input line; any other key does nothing. Returns what is
    /// left to do where the input was sent, after which the state is to be
    /// saved. Sending to a group is not supported.
    pub fn on_key(&mut self, key: KeyCode, now: u64) -> (outcome: Option<Submitted>)
        requires
            key is Char ==> old(self).data.cursor_on_boundary() && old(self).data.count_has_room(1),
            key is Backspace ==> old(self).data.cursor_on_boundary(),
            old(self).key_sends(key) ==> old(self).data.channels.wf(),
            old(self).key_sends(key) ==> !old(self).group_selected(),
        ensures
            final(self).config == old(self).config,
            final(self).uuid == old(self).uuid,
            final(self).should_quit == old(self).should_quit,
            final(self).data.chanpos == old(self).data.chanpos,
            old(self).data.channels.wf() ==> final(self).data.channels.wf(),
            old(self).data.cursor_on_boundary() ==> final(self).data.cursor_on_boundary(),
            old(self).data.cursor_wf() && !(key is End) ==> final(self).data.cursor_wf(),
            outcome is Some <==> old(self).key_sends(key),
            match key {
                KeyCode::Char(c) => {
                    &&& old(self).same_but_input(*final(self))
                    &&& final(self).data.input@ == old(self).data.input@.insert(
                        old(self).data.cursor_index(),
                        Self::typed_char(c),
                    )
                    &&& final(self).data.cursor_index() == old(self).data.cursor_index() + 1
                    &&& final(self).data.input_cursor_chars == old(self).data.input_cursor_chars
                        + 1
                },
                KeyCode::Enter => match (old(self).data.channels.state.selected, outcome) {
                    (Some(idx), Some(sent)) => old(self).send_outcome(*final(self), idx, now, sent),
                    _ => *final(self) == *old(self),
                },
                KeyCode::Home => {
                    &&& old(self).same_but_input(*final(self))
                    &&& final(self).data.input == old(self).data.input
                    &&& final(self).data.input_cursor == 0
                    &&& final(self).data.input_cursor_chars == 0
                },
                KeyCode::End => {
                    &&& old(self).same_but_input(*final(self))
                    &&& final(self).data.input == old(self).data.input
                    &&& final(self).data.input_cursor == encode_utf8(old(self).data.input@).len()
                    &&& final(self).data.input_cursor_chars == display_width(
                        old(self).data.input@,
                    )
                },
                KeyCode::Backspace => {
                    &&& old(self).same_but_input(*final(self))
                    &&& old(self).data.cursor_index() == 0 ==> *final(self) == *old(self)
                    &&& old(self).data.cursor_index() > 0 ==> final(self).data.input@
                        == old(self).data.input@.remove(old(self).data.cursor_index() - 1)
                        && final(self).data.cursor_index() == old(self).data.cursor_index() - 1
                        && final(self).data.input_cursor_chars == lowered(
                        old(self).data.input_cursor_chars,
                        1,
                    )
                },
                _ => *final(self) == *old(self),
            },
    {
        match key {
            KeyCode::Char(c) => {
                if c == '\r' {
                    self.put_char('\n');
                } else {
                    self.put_char(c);
                }
                None
            },
            KeyCode::Enter => {
                if !self.data.input.as_str().is_empty() {
                    if let Some(idx) = self.data.channels.state.selected() {
                        return Some(self.send_input(idx, now));
                    }
                }
                None
            },
            KeyCode::Home => {
                self.on_home();
                None
            },
            KeyCode::End => {
                self.on_end();
                None
            },
            KeyCode::Backspace => {
                self.on_backspace();
                None
            },
            _ => None,
        }
    }

    /// The engine for the account `uuid` over the state that was kept, or
    /// over an empty state. Where channels are there and none is selected,
    /// the first one is; the second result says so, after which the state
    /// is to be saved.
    pub fn try_new(config: Config, uuid: Uuid, data: AppData) -> (started: (App, bool))
        ensures
            started.0.config == config,
            started.0.uuid == uuid,
            !started.0.should_quit,
            started.0.data.channels.items == data.channels.items,
            started.0.data.chanpos == data.chanpos,
            started.0.data.input == data.input,
            started.0.data.input_cursor == data.input_cursor,
            started.0.data.input_cursor_chars == data.input_cursor_chars,
            started.1 == (data.channels.state.selected is None && data.channels.items@.len() > 0),
            started.0.data.channels.state.selected == if started.1 {
                Some(0usize)
            } else {
                data.channels.state.selected
            },
            data.channels.wf() ==> started.0.data.channels.wf(),
    {
        let mut data = data;
        let mut select_first = false;
        if data.channels.state.selected().is_none() && data.channels.items.len() > 0 {
            data.channels.state.select(Some(0));
            select_first = true;
        }
        (App { config, should_quit: false, uuid, data }, select_first)
    }

    /// Whether the selection, if there is one, points at a channel.
    pub fn selection_is_valid(&self) -> (valid: bool)
        ensures
            valid == self.data.channels.wf(),
    {
        match self.data.channels.state.selected() {
            Some(selected) => selected < self.data.channels.items.len(),
            None => true,
        }
    }

    /// Whether the selection can move up, see
    /// [`ChannelPosition::can_scroll_up`].
    pub fn can_go_up(&self) -> (fits: bool)
        ensures
            fits == self.data.chanpos.can_scroll_up(self.data.channels.state.selected),
    {
        self.data.channels.state.selected() == Some(0) || self.data.chanpos.upside == 0
            || self.data.chanpos.downside < u16::MAX
    }

    /// Whether the selection can move down, see
    /// [`ChannelPosition::can_scroll_down`].
    pub fn can_go_down(&self) -> (fits: bool)
        ensures
            fits == self.data.chanpos.can_scroll_down(),
    {
        if self.data.chanpos.downside == 0 {
            self.data.chanpos.top < usize::MAX
        } else {
            self.data.chanpos.upside < u16::MAX
        }
    }

    /// Whether every unread count can still grow, see
    /// [`App::unread_in_range`].
    pub fn unread_counts_in_range(&self) -> (fits: bool)
        ensures
            fits == self.unread_in_range(),
    {
        let mut i: usize = 0;
        while i < self.data.channels.items.len()
            invariant
                i <= self.data.channels.items@.len(),
                forall|j: int|
                    0 <= j < i ==> (#[trigger] self.data.channels.items@[j]).unread_messages
                        < usize::MAX,
            decreases self.data.channels.items@.len() - i,
        {
            if self.data.channels.items[i].unread_messages == usize::MAX {
                return false;
            }
            i = i + 1;
        }
        true
    }

    /// No unread count is at the limit of its type.
    pub open spec fn unread_in_range(self) -> bool {
        forall|i: int|
            0 <= i < self.data.channels.items@.len() ==> (
            #[trigger] self.data.channels.items@[i]).unread_messages < usize::MAX
    }

    /// The channel for the identity `id` and, where `kind` says which, of
    /// that kind: the first one there is, else a new one at the end of the
    /// list with the name `name`. Returns its position.
    fn ensure_channel(&mut self, id: String, kind: Option<bool>, name: String, is_group: bool) -> (idx:
        usize)
        ensures
            final(self).channels().items == ensured(
                old(self).channels().items,
                id@,
                kind,
                name@,
                is_group,
            ),
            idx == ensured_index(old(self).channels().items, id@, kind),
            idx < final(self).data.channels.items@.len(),
            final(self).channels().items[idx as int].id == id@,
            final(self).channels().selected == old(self).channels().selected,
            old(self).same_but_channels(*final(self)),
            old(self).data.channels.wf() ==> final(self).data.channels.wf(),
            old(self).unread_in_range() ==> final(self).unread_in_range(),
    {
        match find_channel(&self.data.channels.items, &id, kind) {
            Some(idx) => {
                proof {
                    lemma_position_is(old(self).channels().items, id@, kind);
                }
                idx
            },
            None => {
                self.data.channels.push_back(Channel::new(id, name, is_group));
                assert(self.channels().items =~= old(self).channels().items.push(
                    fresh_channel(id@, name@, is_group),
                ));
                self.data.channels.items.len() - 1
            },
        }
    }

    /// The channel of this account's notes to itself, made if there is
    /// none: the first channel whose identity is the account's identifier
    /// in text. Returns its position. The identity of that channel reads as
    /// the account's identifier.
    pub fn ensure_own_channel_exists(&mut self) -> (idx: usize)
        ensures
            final(self).channels().items == ensured(
                old(self).channels().items,
                uuid_text(old(self).uuid.0),
                None,
                old(self).config.user.name@,
                false,
            ),
            idx == ensured_index(old(self).channels().items, uuid_text(old(self).uuid.0), None),
            idx < final(self).data.channels.items@.len(),
            parsed_uuid(final(self).channels().items[idx as int].id) == Some(old(self).uuid),
            final(self).channels().selected == old(self).channels().selected,
            old(self).same_but_channels(*final(self)),
            old(self).data.channels.wf() ==> final(self).data.channels.wf(),
            old(self).unread_in_range() ==> final(self).unread_in_range(),
    {
        let id = uuid_to_string(self.uuid);
        let name = self.config.user.name.clone();
        self.ensure_channel(id, None, name, false)
    }

    /// Writes the name `name` into the history for the identity `id`: into
    /// every stored message whose sender name is `id`, and into the
    /// channels whose identity it is.
    fn backfill_name(&mut self, id: &String, name: &String)
        ensures
            final(self).channels().items == backfilled(old(self).channels().items, id@, name@),
            final(self).channels().selected == old(self).channels().selected,
            final(self).data.channels.items@.len() == old(self).data.channels.items@.len(),
            old(self).same_but_channels(*final(self)),
            old(self).data.channels.wf() ==> final(self).data.channels.wf(),
            old(self).unread_in_range() ==> final(self).unread_in_range(),
    {
        let mut i: usize = 0;
        while i < self.data.channels.items.len()
            invariant
                i <= self.data.channels.items@.len(),
                self.data.channels.items@.len() == old(self).data.channels.items@.len(),
                self.data.channels.state == old(self).data.channels.state,
                old(self).same_but_channels(*self),
                forall|j: int|
                    0 <= j < i ==> (#[trigger] self.channels().items[j]) == renamed_channel(
                        old(self).channels().items[j],
                        id@,
                        name@,
                    ),
                forall|j: int|
                    i <= j < self.data.channels.items@.len() ==> (
                    #[trigger] self.data.channels.items@[j]) == old(self).data.channels.items@[j],
                forall|j: int|
                    0 <= j < self.data.channels.items@.len() ==> (
                    #[trigger] self.data.channels.items@[j]).unread_messages
                        == old(self).data.channels.items@[j].unread_messages,
            decreases self.data.channels.items@.len() - i,
        {
            let ghost entry = self.data.channels.items@;
            let ghost entry_view = self.channels().items;
            let ghost channel = entry[i as int];
            let mut k: usize = 0;
            while k < self.data.channels.items[i].messages.items.len()
                invariant
                    i < self.data.channels.items@.len(),
                    self.data.channels.items@.len() == old(self).data.channels.items@.len(),
                    self.data.channels.state == old(self).data.channels.state,
                    old(self).same_but_channels(*self),
                    forall|j: int|
                        0 <= j < self.data.channels.items@.len() && j != i ==> (
                        #[trigger] self.data.channels.items@[j]) == entry[j],
                    k <= self.data.channels.items@[i as int].messages.items@.len(),
                    self.data.channels.items@[i as int].messages.items@.len()
                        == channel.messages.items@.len(),
                    self.data.channels.items@[i as int].id == channel.id,
                    self.data.channels.items@[i as int].name == channel.name,
                    self.data.channels.items@[i as int].is_group == channel.is_group,
                    self.data.channels.items@[i as int].unread_messages
                        == channel.unread_messages,
                    self.data.channels.items@[i as int].messages.state == channel.messages.state,
                    forall|m: int|
                        0 <= m < k ==> (
                        #[trigger] self.data.channels.items@[i as int].messages.items@[m]).deep_view()
                            == renamed_message(
                            channel.messages.items@[m].deep_view(),
                            id@,
                            name@,
                        ),
                    forall|m: int|
                        k <= m < channel.messages.items@.len() ==> (
                        #[trigger] self.data.channels.items@[i as int].messages.items@[m])
                            == channel.messages.items@[m],
                decreases channel.messages.items@.len() - k,
            {
                if self.data.channels.items[i].messages.items[k].from == *id {
                    self.data.channels.items[i].messages.items[k].from = name.clone();
                }
                k = k + 1;
            }
            if self.data.channels.items[i].id == *id {
                self.data.channels.items[i].name = name.clone();
            }
            proof {
                let after = self.data.channels.items@[i as int];
                assert(after.messages.items.deep_view() =~= renamed_channel(
                    channel.deep_view(),
                    id@,
                    name@,
                ).messages.items);
                assert(after.deep_view() == renamed_channel(channel.deep_view(), id@, name@));
                assert forall|j: int| 0 <= j < i + 1 implies (#[trigger] self.channels().items[j])
                    == renamed_channel(old(self).channels().items[j], id@, name@) by {
                    if j < i {
                        assert(self.data.channels.items@[j] == entry[j]);
                        assert(entry_view[j] == entry[j].deep_view());
                    } else {
                        assert(channel == old(self).data.channels.items@[j]);
                    }
                }
            }
            i = i + 1;
        }
        assert(self.channels().items =~= backfilled(old(self).channels().items, id@, name@));
    }

    /// Settles the display name of the sender `phone_number`. The user's
    /// own number has the user's name; a contact whose channel has a name
    /// other than the raw number has that name; for anyone else the name is
    /// what the messaging service gave, `looked_up`. A name that is known is
    /// written back into the history. The sender gets a contact channel if
    /// there is none. Returns the name, or the number where none is known.
    pub fn resolve_contact_name(&mut self, phone_number: String, looked_up: Option<String>) -> (name:
        String)
        ensures
            final(self).channels().items == with_sender(
                old(self).channels().items,
                phone_number@,
                sender_name(
                    old(self).channels().items,
                    phone_number@,
                    old(self).config.user.phone_number@,
                    old(self).config.user.name@,
                    looked_up.deep_view(),
                ),
            ),
            name@ == or_identity(
                sender_name(
                    old(self).channels().items,
                    phone_number@,
                    old(self).config.user.phone_number@,
                    old(self).config.user.name@,
                    looked_up.deep_view(),
                ),
                phone_number@,
            ),
            final(self).channels().selected == old(self).channels().selected,
            old(self).same_but_channels(*final(self)),
            old(self).data.channels.wf() ==> final(self).data.channels.wf(),
            old(self).unread_in_range() ==> final(self).unread_in_range(),
    {
        let found = find_channel(&self.data.channels.items, &phone_number, Some(false));
        proof {
            lemma_position_is(old(self).channels().items, phone_number@, Some(false));
        }
        let known: Option<String> = if phone_number == self.config.user.phone_number {
            Some(self.config.user.name.clone())
        } else {
            match found {
                Some(i) => {
                    if self.data.channels.items[i].id == self.data.channels.items[i].name {
                        looked_up
                    } else {
                        Some(self.data.channels.items[i].name.clone())
                    }
                },
                None => looked_up,
            }
        };
        match &known {
            Some(name) => {
                self.backfill_name(&phone_number, name);
            },
            None => {},
        }
        let name = match known {
            Some(name) => name,
            None => phone_number.clone(),
        };
        if found.is_none() {
            let ghost before = self.channels().items;
            self.data.channels.push_back(Channel::new(phone_number, name.clone(), false));
            assert(self.channels().items =~= before.push(
                fresh_channel(phone_number@, name@, false),
            ));
        }
        name
    }

    /// Which display names the messaging service is to be asked for before
    /// `incoming` is delivered.
    pub fn wanted_names(&self, incoming: &Incoming) -> (wanted: Wanted)
        ensures
            wanted.sender == sender_lookup_needed(
                self.channels().items,
                incoming.source@,
                self.config.user.phone_number@,
            ),
            wanted.group == group_lookup_needed(self.channels().items, incoming.deep_view()),
            wanted.counterpart == counterpart_lookup_needed(
                self.channels().items,
                incoming.deep_view(),
            ),
    {
        let items = &self.data.channels.items;
        proof {
            lemma_position_is(self.channels().items, incoming.source@, Some(false));
        }
        let sender = if incoming.source == self.config.user.phone_number {
            false
        } else {
            match find_channel(items, &incoming.source, Some(false)) {
                Some(i) => items[i].id == items[i].name,
                None => true,
            }
        };
        let absent = find_channel(items, &incoming.channel_id, Some(incoming.is_group)).is_none();
        let group = incoming.is_group && absent;
        let counterpart = !incoming.is_group && incoming.is_from_me && !(incoming.channel_id
            == incoming.source) && absent;
        Wanted { sender, group, counterpart }
    }

    /// Delivers a message: settles the sender's display name, finds or
    /// makes the channel it belongs to, stores it there and moves that
    /// channel to the front. `names` holds what the messaging service gave
    /// for the names that [`App::wanted_names`] asks for. Returns `None`
    /// for a message that is dropped, which changes nothing; else what is
    /// left to do, after which the state is to be saved.
    pub fn on_message(&mut self, message: Option<crate::signal::Message>, names: Names) -> (handled:
        Option<Handled>)
        requires
            old(self).unread_in_range(),
        ensures
            old(self).same_but_channels(*final(self)),
            old(self).data.channels.wf() ==> final(self).data.channels.wf(),
            match message {
                Some(message) => match delivery(message, old(self).config.user.phone_number@) {
                    Some(delivery) => {
                        let own_phone = old(self).config.user.phone_number@;
                        let own_name = old(self).config.user.name@;
                        let items = old(self).channels().items;
                        &&& final(self).channels() == after_message(
                            old(self).channels(),
                            delivery,
                            own_phone,
                            own_name,
                            names.deep_view(),
                        )
                        &&& handled matches Some(handled)
                        &&& handled.notification.deep_view() == notification_for(
                            delivery,
                            or_identity(
                                sender_name(
                                    items,
                                    delivery.source,
                                    own_phone,
                                    own_name,
                                    names.sender.deep_view(),
                                ),
                                delivery.source,
                            ),
                            routed(items, delivery, own_phone, own_name, names.deep_view())[routed_index(
                                items,
                                delivery,
                                own_phone,
                                own_name,
                                names.deep_view(),
                            )].name,
                        )
                    },
                    None => handled is None && *final(self) == *old(self),
                },
                None => handled is None && *final(self) == *old(self),
            },
    {
        let message = match message {
            Some(message) => message,
            None => {
                return None;
            },
        };
        let incoming = match unpack(message, &self.config.user.phone_number) {
            Some(incoming) => incoming,
            None => {
                return None;
            },
        };
        let ghost delivery = incoming.deep_view();
        let Incoming { source, channel_id, is_group, is_from_me, text, attachments, arrived_at } =
            incoming;
        let Names { sender, group, counterpart } = names;
        let name = self.resolve_contact_name(source, sender);
        let looked_up = if is_group {
            group
        } else if is_from_me {
            counterpart
        } else {
            None
        };
        let channel_name = match looked_up {
            Some(name) => name,
            None => channel_id.clone(),
        };
        let channel_idx = self.ensure_channel(channel_id, Some(is_group), channel_name, is_group);
        let notification = match &text {
            Some(body) => {
                if !is_from_me && !body.as_str().is_empty() {
                    let mut summary = name.clone();
                    if is_group {
                        proof {
                            reveal_strlit(" in ");
                            assert(" in "@ =~= seq![' ', 'i', 'n', ' ']);
                        }
                        summary.append(" in ");
                        summary.append(self.data.channels.items[channel_idx].name.as_str());
                    }
                    Some(Notification { summary, body: body.clone() })
                } else {
                    None
                }
            },
            None => None,
        };
        let stored = Message {
            from_id: Uuid::nil(),
            from: name,
            message: text,
            attachments,
            arrived_at,
        };
        assert(stored.deep_view() == stored_message(delivery, name@));
        self.add_message_to_channel(channel_idx, stored);
        Some(Handled { notification })
    }

    /// The channel of the contact `uuid`, made if there is none: the first
    /// channel whose identity is the identifier in text. A new channel is
    /// named as the messaging service names the contact, `profile_name`,
    /// where the profile key has 32 bytes and the service knew a name, else
    /// `fallback_name`. Returns its position. The identity of that channel
    /// reads as `uuid`.
    pub fn ensure_contact_channel_exists(
        &mut self,
        uuid: Uuid,
        profile_key: Vec<u8>,
        fallback_name: String,
        profile_name: Option<String>,
    ) -> (idx: usize)
        ensures
            final(self).channels().items == ensured(
                old(self).channels().items,
                uuid_text(uuid.0),
                None,
                contact_name(profile_key@.len(), profile_name.deep_view(), fallback_name@),
                false,
            ),
            idx == ensured_index(old(self).channels().items, uuid_text(uuid.0), None),
            idx < final(self).data.channels.items@.len(),
            parsed_uuid(final(self).channels().items[idx as int].id) == Some(uuid),
            final(self).channels().selected == old(self).channels().selected,
            old(self).same_but_channels(*final(self)),
            old(self).data.channels.wf() ==> final(self).data.channels.wf(),
            old(self).unread_in_range() ==> final(self).unread_in_range(),
    {
        let id = uuid_to_string(uuid);
        let name = if profile_key.len() == PROFILE_KEY_LEN {
            match profile_name {
                Some(name) => name,
                None => fallback_name,
            }
        } else {
            fallback_name
        };
        self.ensure_channel(id, None, name, false)
    }

    /// Whether the messaging service is to be asked for the profile name of
    /// the sender before `parcel` is stored.
    pub fn profile_name_wanted(&self, parcel: &Parcel) -> (wanted: bool)
        ensures
            wanted == profile_lookup_needed(self.channels().items, parcel.deep_view()),
    {
        match parcel {
            Parcel::Direct { uuid, profile_key, .. } => {
                if profile_key.len() == PROFILE_KEY_LEN {
                    let id = uuid_to_string(*uuid);
                    find_channel(&self.data.channels.items, &id, None).is_none()
                } else {
                    false
                }
            },
            _ => false,
        }
    }

    /// Stores what a decrypted content holds: a note of the user to
    /// themself in the channel of the account, a direct message in the
    /// channel of its sender; either channel is made if there is none and
    /// moves to the front. `profile_name` is what the messaging service gave
    /// where [`App::profile_name_wanted`] asks for it. Any other content
    /// changes nothing. Says whether something was stored, after which the
    /// state is to be saved.
    pub fn on_pressage_message(&mut self, content: Content, profile_name: Option<String>) -> (stored:
        bool)
        requires
            old(self).unread_in_range(),
        ensures
            final(self).channels() == after_parcel(
                old(self).channels(),
                classify(content, old(self).uuid),
                old(self).uuid,
                old(self).config.user.name@,
                profile_name.deep_view(),
            ),
            stored == !(classify(content, old(self).uuid) is Ignored),
            !stored ==> *final(self) == *old(self),
            old(self).same_but_channels(*final(self)),
            old(self).data.channels.wf() ==> final(self).data.channels.wf(),
    {
        match sort_content(content, self.uuid) {
            Parcel::Note { text, timestamp } => {
                let channel_idx = self.ensure_own_channel_exists();
                let message = Message {
                    from_id: self.uuid,
                    from: self.config.user.name.clone(),
                    message: Some(text),
                    attachments: Vec::new(),
                    arrived_at: timestamp,
                };
                assert(message.attachments.deep_view() =~= Seq::empty());
                self.add_message_to_channel(channel_idx, message);
                true
            },
            Parcel::Direct { uuid, phone_number, text, timestamp, profile_key } => {
                let channel_idx = self.ensure_contact_channel_exists(
                    uuid,
                    profile_key,
                    phone_number,
                    profile_name,
                );
                let message = Message {
                    from_id: uuid,
                    from: self.data.channels.items[channel_idx].name.clone(),
                    message: Some(text),
                    attachments: Vec::new(),
                    arrived_at: timestamp,
                };
                assert(message.attachments.deep_view() =~= Seq::empty());
                self.add_message_to_channel(channel_idx, message);
                true
            },
            Parcel::Ignored => false,
        }
    }

    /// Takes in a listing of channels from the messaging service: each
    /// listed channel whose identity no channel has yet is appended, in the
    /// order of the listing. The channels that are there stay as they are.
    pub fn on_channels(&mut self, remote_channels: Vec<Channel>)
        ensures
            final(self).channels().items == merged(
                old(self).channels().items,
                remote_channels.deep_view(),
            ),
            final(self).channels().selected == old(self).channels().selected,
            old(self).same_but_channels(*final(self)),
            old(self).data.channels.wf() ==> final(self).data.channels.wf(),
    {
        let ghost listing = remote_channels.deep_view();
        let mut remote = remote_channels;
        while remote.len() > 0
            invariant
                merged(self.channels().items, remote.deep_view()) == merged(
                    old(self).channels().items,
                    listing,
                ),
                self.data.channels.state == old(self).data.channels.state,
                self.data.channels.items@.len() >= old(self).data.channels.items@.len(),
                old(self).same_but_channels(*self),
            decreases remote.len(),
        {
            let ghost rest = remote.deep_view();
            let ghost items = self.channels().items;
            let channel = remote.remove(0);
            assert(remote.deep_view() =~= rest.drop_first());
            assert(channel.deep_view() == rest[0]);
            if find_channel(&self.data.channels.items, &channel.id, None).is_none() {
                self.data.channels.push_back(channel);
                assert(self.channels().items =~= items.push(rest[0]));
            }
        }
    }

    /// Sends the input to the channel at `channel_idx`, which is no group:
    /// empties the input line, stores the text as a message of the user at
    /// the time `now`, clears the unread count of the selected channel and
    /// moves the channel to the front. Returns the message for the protocol
    /// client to send, if the identity of the channel reads as an account
    /// identifier. The state is to be saved afterwards.
    pub fn send_input(&mut self, channel_idx: usize, now: u64) -> (outcome: Submitted)
        requires
            channel_idx < old(self).data.channels.items@.len(),
            !old(self).data.channels.items@[channel_idx as int].is_group,
            old(self).data.channels.wf(),
        ensures
            old(self).send_outcome(*final(self), channel_idx, now, outcome),
            final(self).data.channels.wf(),
            final(self).data.cursor_wf(),
    {
        let recipient = parse_uuid(&self.data.channels.items[channel_idx].id);
        let mut body = String::new();
        core::mem::swap(&mut self.data.input, &mut body);
        self.data.input_cursor = 0;
        self.data.input_cursor_chars = 0;
        proof {
            lemma_offset_ends(self.data.input@);
            lemma_char_index(self.data.input@, 0);
        }
        let outgoing = match recipient {
            Some(recipient) => Some(Outgoing { recipient, body: body.clone(), timestamp: now }),
            None => None,
        };
        let message = Message {
            from_id: self.uuid,
            from: self.config.user.name.clone(),
            message: Some(body),
            attachments: Vec::new(),
            arrived_at: now,
        };
        assert(message.attachments.deep_view() =~= Seq::empty());
        let ghost stored = message.deep_view();
        self.data.channels.items[channel_idx].messages.items.push(message);
        proof {
            let before = old(self).channels();
            let channel = before.items[channel_idx as int];
            assert(self.channels().items[channel_idx as int].messages.items
                =~= channel.messages.items.push(stored));
            assert(self.channels().items =~= before.items.update(
                channel_idx as int,
                with_message(channel, stored, channel.unread_messages),
            ));
        }
        self.reset_unread_messages();
        self.bubble_up_channel(channel_idx);
        Submitted { outgoing }
    }

    /// Clears the unread count of the selected channel. Says whether there
    /// was anything to clear.
    pub fn reset_unread_messages(&mut self) -> (cleared: bool)
        requires
            old(self).data.channels.wf(),
        ensures
            final(self).channels() == cleared_unread(old(self).channels()),
            cleared == (old(self).channels().selected matches Some(s)
                && old(self).channels().items[s as int].unread_messages > 0),
            !cleared ==> *final(self) == *old(self),
            final(self).data.channels.state == old(self).data.channels.state,
            final(self).data.channels.items@.len() == old(self).data.channels.items@.len(),
            old(self).same_but_channels(*final(self)),
            final(self).data.channels.wf(),
    {
        if let Some(selected_idx) = self.data.channels.state.selected() {
            if self.data.channels.items[selected_idx].unread_messages > 0 {
                self.data.channels.items[selected_idx].unread_messages = 0;
                assert(self.channels().items =~= cleared_unread(old(self).channels()).items);
                return true;
            }
            assert(self.channels().items =~= cleared_unread(old(self).channels()).items);
        }
        false
    }

    /// Moves the channel at `channel_idx` to the front of the list. The
    /// other channels keep their order, and the selection stays with the
    /// channel that it pointed at.
    pub fn bubble_up_channel(&mut self, channel_idx: usize)
        requires
            channel_idx < old(self).data.channels.items@.len(),
        ensures
            final(self).channels() == bubbled(old(self).channels(), channel_idx as int),
            final(self).data.channels.items@ == rotated_to_front(
                old(self).data.channels.items@,
                channel_idx as int,
            ),
            old(self).same_but_channels(*final(self)),
            old(self).data.channels.wf() ==> final(self).data.channels.wf(),
    {
        let channel = self.data.channels.items.remove(channel_idx);
        self.data.channels.insert_front(channel);
        match self.data.channels.state.selected() {
            Some(selected_idx) => {
                if selected_idx == channel_idx {
                    self.data.channels.state.select(Some(0));
                } else if selected_idx < channel_idx {
                    self.data.channels.state.select(Some(selected_idx + 1));
                }
            },
            None => {},
        }
        assert(self.channels().items =~= bubbled(old(self).channels(), channel_idx as int).items);
    }

    /// Stores `message` at the end of the channel at `channel_idx`, counts
    /// it as unread unless that channel is the selected one, and moves the
    /// channel to the front.
    pub fn add_message_to_channel(&mut self, channel_idx: usize, message: Message)
        requires
            channel_idx < old(self).data.channels.items@.len(),
            old(self).data.channels.state.selected != Some(channel_idx)
                ==> old(self).data.channels.items@[channel_idx as int].unread_messages
                < usize::MAX,
        ensures
            final(self).channels() == received(
                old(self).channels(),
                channel_idx as int,
                message.deep_view(),
            ),
            old(self).same_but_channels(*final(self)),
            old(self).data.channels.wf() ==> final(self).data.channels.wf(),
    {
        self.data.channels.items[channel_idx].messages.items.push(message);
        if self.data.channels.state.selected() != Some(channel_idx) {
            self.data.channels.items[channel_idx].unread_messages =
                self.data.channels.items[channel_idx].unread_messages + 1;
        } else {
            self.reset_unread_messages();
        }
        proof {
            let before = old(self).channels();
            let channel = before.items[channel_idx as int];
            let unread: usize = if before.selected == Some(channel_idx) {
                0
            } else {
                (channel.unread_messages + 1) as usize
            };
            assert(self.channels().items[channel_idx as int].messages.items
                =~= channel.messages.items.push(message.deep_view()));
            assert(self.channels().items =~= before.items.update(
                channel_idx as int,
                with_message(channel, message.deep_view(), unread),
            ));
        }
        self.bubble_up_channel(channel_idx);
    }
}

} // verus!
