//! The mathematical model of the channel list, and what each event makes of
//! it.

use crate::content::ParcelView;
use crate::ident::{uuid_text, Uuid};
use crate::list::{next_index, previous_index, ListView};
use crate::signal::{AttachmentView, Delivery};
use vstd::prelude::*;

verus! {

/// The model of a stored message.
pub struct MessageView {
    pub from_id: Uuid,
    pub from: Seq<char>,
    pub message: Option<Seq<char>>,
    pub attachments: Seq<AttachmentView>,
    pub arrived_at: u64,
}

/// The model of a channel.
pub struct ChannelView {
    pub id: Seq<char>,
    pub name: Seq<char>,
    pub is_group: bool,
    pub messages: ListView<MessageView>,
    pub unread_messages: usize,
}

/// The model of the channel list.
pub type ChannelsView = ListView<ChannelView>;

/// A channel without messages.
pub open spec fn fresh_channel(id: Seq<char>, name: Seq<char>, is_group: bool) -> ChannelView {
    ChannelView {
        id,
        name,
        is_group,
        messages: ListView { items: Seq::empty(), selected: None },
        unread_messages: 0,
    }
}

/// Whether a channel has the identity `id` and, where `kind` says which, is
/// a group (`Some(true)`) or a contact (`Some(false)`).
pub open spec fn matches_key(channel: ChannelView, id: Seq<char>, kind: Option<bool>) -> bool {
    channel.id == id && (kind matches Some(is_group) ==> channel.is_group == is_group)
}

/// `i` is the first position of a channel with that key.
pub open spec fn is_first_match(
    items: Seq<ChannelView>,
    id: Seq<char>,
    kind: Option<bool>,
    i: int,
) -> bool {
    &&& 0 <= i < items.len()
    &&& matches_key(items[i], id, kind)
    &&& forall|j: int| 0 <= j < i ==> !matches_key(#[trigger] items[j], id, kind)
}

/// The first position of a channel with that key, if there is one.
pub open spec fn position(items: Seq<ChannelView>, id: Seq<char>, kind: Option<bool>) -> Option<
    int,
> {
    if exists|i: int| is_first_match(items, id, kind, i) {
        Some(choose|i: int| is_first_match(items, id, kind, i))
    } else {
        None
    }
}

/// A first match is the position.
pub proof fn lemma_position_found(
    items: Seq<ChannelView>,
    id: Seq<char>,
    kind: Option<bool>,
    i: int,
)
    requires
        is_first_match(items, id, kind, i),
    ensures
        position(items, id, kind) == Some(i),
{
    let j = choose|j: int| is_first_match(items, id, kind, j);
    assert(is_first_match(items, id, kind, j));
    if j < i {
        assert(!matches_key(items[j], id, kind));
    }
    if i < j {
        assert(!matches_key(items[i], id, kind));
    }
}

/// Without a match there is no position.
pub proof fn lemma_position_absent(items: Seq<ChannelView>, id: Seq<char>, kind: Option<bool>)
    requires
        forall|j: int| 0 <= j < items.len() ==> !matches_key(#[trigger] items[j], id, kind),
    ensures
        position(items, id, kind) is None,
{
}

/// What a position says of the list.
pub proof fn lemma_position_is(items: Seq<ChannelView>, id: Seq<char>, kind: Option<bool>)
    ensures
        position(items, id, kind) matches Some(i) ==> is_first_match(items, id, kind, i),
        position(items, id, kind) is None ==> forall|j: int|
            0 <= j < items.len() ==> !matches_key(#[trigger] items[j], id, kind),
{
    if position(items, id, kind) is None {
        assert forall|j: int| 0 <= j < items.len() implies !matches_key(
            #[trigger] items[j],
            id,
            kind,
        ) by {
            if matches_key(items[j], id, kind) {
                lemma_least_match(items, id, kind, j);
            }
        }
    }
}

/// Below a match there is a first match.
proof fn lemma_least_match(items: Seq<ChannelView>, id: Seq<char>, kind: Option<bool>, j: int)
    requires
        0 <= j < items.len(),
        matches_key(items[j], id, kind),
    ensures
        exists|i: int| is_first_match(items, id, kind, i),
    decreases j,
{
    if exists|m: int| 0 <= m < j && matches_key(#[trigger] items[m], id, kind) {
        let m = choose|m: int| 0 <= m < j && matches_key(#[trigger] items[m], id, kind);
        lemma_least_match(items, id, kind, m);
    } else {
        assert(is_first_match(items, id, kind, j));
    }
}

/// Channels at the same places have the same identity and kind.
pub open spec fn same_keys(a: Seq<ChannelView>, b: Seq<ChannelView>) -> bool {
    &&& a.len() == b.len()
    &&& forall|i: int|
        0 <= i < a.len() ==> (#[trigger] a[i]).id == b[i].id && a[i].is_group == b[i].is_group
}

/// Lists with the same keys at the same places have the same positions.
pub proof fn lemma_same_keys_position(
    a: Seq<ChannelView>,
    b: Seq<ChannelView>,
    id: Seq<char>,
    kind: Option<bool>,
)
    requires
        same_keys(a, b),
    ensures
        position(a, id, kind) == position(b, id, kind),
{
    lemma_position_is(a, id, kind);
    match position(a, id, kind) {
        Some(i) => {
            assert(matches_key(b[i], id, kind)) by {
                assert(a[i].id == b[i].id);
            }
            assert forall|j: int| 0 <= j < i implies !matches_key(#[trigger] b[j], id, kind) by {
                assert(!matches_key(a[j], id, kind));
            }
            lemma_position_found(b, id, kind, i);
        },
        None => {
            assert forall|j: int| 0 <= j < b.len() implies !matches_key(
                #[trigger] b[j],
                id,
                kind,
            ) by {
                assert(!matches_key(a[j], id, kind));
            }
            lemma_position_absent(b, id, kind);
        },
    }
}

/// The position of a key in a list with one more channel at its end: where
/// it was, else at the new channel if that has the key.
pub proof fn lemma_push_position(
    items: Seq<ChannelView>,
    channel: ChannelView,
    id: Seq<char>,
    kind: Option<bool>,
)
    ensures
        position(items.push(channel), id, kind) == if position(items, id, kind) is Some {
            position(items, id, kind)
        } else if matches_key(channel, id, kind) {
            Some(items.len() as int)
        } else {
            None
        },
{
    let longer = items.push(channel);
    lemma_position_is(items, id, kind);
    match position(items, id, kind) {
        Some(i) => {
            assert(longer[i] == items[i]);
            assert forall|j: int| 0 <= j < i implies !matches_key(
                #[trigger] longer[j],
                id,
                kind,
            ) by {
                assert(longer[j] == items[j]);
            }
            lemma_position_found(longer, id, kind, i);
        },
        None => {
            if matches_key(channel, id, kind) {
                assert forall|j: int| 0 <= j < items.len() implies !matches_key(
                    #[trigger] longer[j],
                    id,
                    kind,
                ) by {
                    assert(longer[j] == items[j]);
                }
                lemma_position_found(longer, id, kind, items.len() as int);
            } else {
                assert forall|j: int| 0 <= j < longer.len() implies !matches_key(
                    #[trigger] longer[j],
                    id,
                    kind,
                ) by {
                    if j < items.len() {
                        assert(longer[j] == items[j]);
                    }
                }
                lemma_position_absent(longer, id, kind);
            }
        },
    }
}

/// No two channels share identity and kind.
pub open spec fn unique_channels(items: Seq<ChannelView>) -> bool {
    forall|i: int, j: int|
        0 <= i < j < items.len() ==> !((#[trigger] items[i]).id == (#[trigger] items[j]).id
            && items[i].is_group == items[j].is_group)
}

/// A message whose sender name is the raw identity `id` gets `name` for it.
pub open spec fn renamed_message(message: MessageView, id: Seq<char>, name: Seq<char>)
    -> MessageView {
    if message.from == id {
        MessageView { from: name, ..message }
    } else {
        message
    }
}

/// A channel after the name `name` became known for the identity `id`: its
/// messages from `id` carry the name, and so does the channel if it is `id`'s.
pub open spec fn renamed_channel(channel: ChannelView, id: Seq<char>, name: Seq<char>)
    -> ChannelView {
    ChannelView {
        name: if channel.id == id {
            name
        } else {
            channel.name
        },
        messages: ListView {
            items: Seq::new(
                channel.messages.items.len(),
                |k: int| renamed_message(channel.messages.items[k], id, name),
            ),
            selected: channel.messages.selected,
        },
        ..channel
    }
}

/// The channels after the name `name` became known for the identity `id`.
pub open spec fn backfilled(items: Seq<ChannelView>, id: Seq<char>, name: Seq<char>) -> Seq<
    ChannelView,
> {
    Seq::new(items.len(), |i: int| renamed_channel(items[i], id, name))
}

/// The selection after the channel at `idx` moved to the front: it follows
/// the channel it pointed at.
pub open spec fn selection_after_bubble(selected: Option<usize>, idx: int) -> Option<usize> {
    match selected {
        Some(s) => if s == idx {
            Some(0usize)
        } else if s < idx {
            Some((s + 1) as usize)
        } else {
            Some(s)
        },
        None => None,
    }
}

/// The items after the one at `idx` moved to the front; the others keep
/// their order.
pub open spec fn rotated_to_front<V>(items: Seq<V>, idx: int) -> Seq<V> {
    items.remove(idx).insert(0, items[idx])
}

/// The channel list after the channel at `idx` moved to the front.
pub open spec fn bubbled(channels: ChannelsView, idx: int) -> ChannelsView {
    ListView {
        items: rotated_to_front(channels.items, idx),
        selected: selection_after_bubble(channels.selected, idx),
    }
}

/// A channel with one more message at the end of its history.
pub open spec fn with_message(channel: ChannelView, message: MessageView, unread: usize)
    -> ChannelView {
    ChannelView {
        messages: ListView {
            items: channel.messages.items.push(message),
            selected: channel.messages.selected,
        },
        unread_messages: unread,
        ..channel
    }
}

/// The channel list after `message` arrived in the channel at `idx`: the
/// message ends the channel's history, the channel counts one more unread
/// message unless it is the selected one, whose count is cleared, and it
/// moves to the front.
pub open spec fn received(channels: ChannelsView, idx: int, message: MessageView)
    -> ChannelsView {
    let channel = channels.items[idx];
    let unread: usize = if channels.selected == Some(idx as usize) {
        0
    } else {
        (channel.unread_messages + 1) as usize
    };
    bubbled(
        ListView {
            items: channels.items.update(idx, with_message(channel, message, unread)),
            selected: channels.selected,
        },
        idx,
    )
}

/// The channels with the unread count of the selected one cleared.
pub open spec fn cleared_unread(channels: ChannelsView) -> ChannelsView {
    match channels.selected {
        Some(s) => if s < channels.items.len() {
            ListView {
                items: channels.items.update(
                    s as int,
                    ChannelView { unread_messages: 0, ..channels.items[s as int] },
                ),
                selected: channels.selected,
            }
        } else {
            channels
        },
        None => channels,
    }
}

/// The channels after a directory listing arrived: each listed channel whose
/// identity no channel has yet is appended, in the order of the listing.
pub open spec fn merged(items: Seq<ChannelView>, remote: Seq<ChannelView>) -> Seq<ChannelView>
    decreases remote.len(),
{
    if remote.len() == 0 {
        items
    } else if position(items, remote[0].id, None) is None {
        merged(items.push(remote[0]), remote.drop_first())
    } else {
        merged(items, remote.drop_first())
    }
}


/// A display name, or the raw identity where none is known.
pub open spec fn or_identity(name: Option<Seq<char>>, id: Seq<char>) -> Seq<char> {
    match name {
        Some(name) => name,
        None => id,
    }
}

/// The channels with one for the key `(id, kind)`: as they are where one
/// exists, else with a new channel of that identity at the end.
pub open spec fn ensured(
    items: Seq<ChannelView>,
    id: Seq<char>,
    kind: Option<bool>,
    name: Seq<char>,
    is_group: bool,
) -> Seq<ChannelView> {
    if position(items, id, kind) is Some {
        items
    } else {
        items.push(fresh_channel(id, name, is_group))
    }
}

/// The position of the channel for the key `(id, kind)` in [`ensured`].
pub open spec fn ensured_index(items: Seq<ChannelView>, id: Seq<char>, kind: Option<bool>)
    -> int {
    match position(items, id, kind) {
        Some(i) => i,
        None => items.len() as int,
    }
}

/// Whether the display name of the sender `phone` has to be asked for: not
/// for the user, and not for a contact whose channel has a name other than
/// the raw identity.
pub open spec fn sender_lookup_needed(
    items: Seq<ChannelView>,
    phone: Seq<char>,
    own_phone: Seq<char>,
) -> bool {
    phone != own_phone && match position(items, phone, Some(false)) {
        Some(i) => items[i].id == items[i].name,
        None => true,
    }
}

/// The display name of the sender `phone`, if one is known: the user's own
/// name for the user's number, the name of the sender's channel where it has
/// one other than the raw identity, else what was `looked_up`.
pub open spec fn sender_name(
    items: Seq<ChannelView>,
    phone: Seq<char>,
    own_phone: Seq<char>,
    own_name: Seq<char>,
    looked_up: Option<Seq<char>>,
) -> Option<Seq<char>> {
    if phone == own_phone {
        Some(own_name)
    } else {
        match position(items, phone, Some(false)) {
            Some(i) => if items[i].id == items[i].name {
                looked_up
            } else {
                Some(items[i].name)
            },
            None => looked_up,
        }
    }
}

/// The channels after the sender `phone` was resolved to `name`: a known
/// name is written back into the history, and the sender has a contact
/// channel.
pub open spec fn with_sender(items: Seq<ChannelView>, phone: Seq<char>, name: Option<Seq<char>>)
    -> Seq<ChannelView> {
    let known = match name {
        Some(name) => backfilled(items, phone, name),
        None => items,
    };
    if position(items, phone, Some(false)) is Some {
        known
    } else {
        known.push(fresh_channel(phone, or_identity(name, phone), false))
    }
}


/// Display names that the messaging service gave for a message: of its
/// sender, of its group, and of the contact that the user wrote to.
pub struct NamesView {
    pub sender: Option<Seq<char>>,
    pub group: Option<Seq<char>>,
    pub counterpart: Option<Seq<char>>,
}

/// The model of a notice for the user.
pub struct NotificationView {
    pub summary: Seq<char>,
    pub body: Seq<char>,
}

/// The name of a channel made for a message: what the service calls the
/// group, or the contact that the user wrote to, else the raw identity.
pub open spec fn target_name(delivery: Delivery, names: NamesView) -> Seq<char> {
    if delivery.is_group {
        or_identity(names.group, delivery.channel_id)
    } else if delivery.is_from_me {
        or_identity(names.counterpart, delivery.channel_id)
    } else {
        delivery.channel_id
    }
}

/// The channels when a message is about to be stored: its sender is
/// resolved, and its channel exists.
pub open spec fn routed(
    items: Seq<ChannelView>,
    delivery: Delivery,
    own_phone: Seq<char>,
    own_name: Seq<char>,
    names: NamesView,
) -> Seq<ChannelView> {
    ensured(
        with_sender(
            items,
            delivery.source,
            sender_name(items, delivery.source, own_phone, own_name, names.sender),
        ),
        delivery.channel_id,
        Some(delivery.is_group),
        target_name(delivery, names),
        delivery.is_group,
    )
}

/// The position in [`routed`] of the channel that the message goes to.
pub open spec fn routed_index(
    items: Seq<ChannelView>,
    delivery: Delivery,
    own_phone: Seq<char>,
    own_name: Seq<char>,
    names: NamesView,
) -> int {
    ensured_index(
        with_sender(
            items,
            delivery.source,
            sender_name(items, delivery.source, own_phone, own_name, names.sender),
        ),
        delivery.channel_id,
        Some(delivery.is_group),
    )
}

/// The message as it is stored, under the sender's display name.
pub open spec fn stored_message(delivery: Delivery, sender: Seq<char>) -> MessageView {
    MessageView {
        from_id: Uuid(0),
        from: sender,
        message: delivery.text,
        attachments: delivery.attachments,
        arrived_at: delivery.arrived_at,
    }
}

/// The channel list after a message was delivered.
pub open spec fn after_message(
    channels: ChannelsView,
    delivery: Delivery,
    own_phone: Seq<char>,
    own_name: Seq<char>,
    names: NamesView,
) -> ChannelsView {
    received(
        ListView {
            items: routed(channels.items, delivery, own_phone, own_name, names),
            selected: channels.selected,
        },
        routed_index(channels.items, delivery, own_phone, own_name, names),
        stored_message(
            delivery,
            or_identity(
                sender_name(channels.items, delivery.source, own_phone, own_name, names.sender),
                delivery.source,
            ),
        ),
    )
}

/// The notice that a message gives rise to: none for what the user sent or
/// for a message without text; else the text under the sender's name,
/// followed by the group's name where the message went to a group.
pub open spec fn notification_for(delivery: Delivery, sender: Seq<char>, channel: Seq<char>)
    -> Option<NotificationView> {
    match delivery.text {
        Some(text) => if !delivery.is_from_me && text.len() > 0 {
            Some(
                NotificationView {
                    summary: if delivery.is_group {
                        sender + seq![' ', 'i', 'n', ' '] + channel
                    } else {
                        sender
                    },
                    body: text,
                },
            )
        } else {
            None
        },
        None => None,
    }
}

/// Whether the service has to be asked for the name of the group of a
/// message: where the group has no channel yet.
pub open spec fn group_lookup_needed(items: Seq<ChannelView>, delivery: Delivery) -> bool {
    delivery.is_group && position(items, delivery.channel_id, Some(true)) is None
}

/// Whether the service has to be asked for the name of the contact that the
/// user wrote to from another device: where that contact has no channel yet.
pub open spec fn counterpart_lookup_needed(items: Seq<ChannelView>, delivery: Delivery) -> bool {
    !delivery.is_group && delivery.is_from_me && delivery.channel_id != delivery.source
        && position(items, delivery.channel_id, Some(false)) is None
}


/// The name of a channel made for a contact with a profile key of `key_len`
/// bytes: what the service gave under a key of 32 bytes, else the phone
/// number.
pub open spec fn contact_name(key_len: nat, profile_name: Option<Seq<char>>, phone: Seq<char>)
    -> Seq<char> {
    if key_len == 32 {
        or_identity(profile_name, phone)
    } else {
        phone
    }
}

/// Whether the service has to be asked for the profile name of the sender
/// of a content: for a direct message under a key of 32 bytes from someone
/// without a channel.
pub open spec fn profile_lookup_needed(items: Seq<ChannelView>, parcel: ParcelView) -> bool {
    match parcel {
        ParcelView::Direct { uuid, profile_key, .. } => profile_key.len() == 32 && position(
            items,
            uuid_text(uuid.0),
            None,
        ) is None,
        _ => false,
    }
}

/// The channel list after a content arrived for the account `own`, whose
/// user is called `own_name`.
pub open spec fn after_parcel(
    channels: ChannelsView,
    parcel: ParcelView,
    own: Uuid,
    own_name: Seq<char>,
    profile_name: Option<Seq<char>>,
) -> ChannelsView {
    match parcel {
        ParcelView::Note { text, timestamp } => {
            let id = uuid_text(own.0);
            received(
                ListView {
                    items: ensured(channels.items, id, None, own_name, false),
                    selected: channels.selected,
                },
                ensured_index(channels.items, id, None),
                MessageView {
                    from_id: own,
                    from: own_name,
                    message: Some(text),
                    attachments: Seq::empty(),
                    arrived_at: timestamp,
                },
            )
        },
        ParcelView::Direct { uuid, phone_number, text, timestamp, profile_key } => {
            let id = uuid_text(uuid.0);
            let items = ensured(
                channels.items,
                id,
                None,
                contact_name(profile_key.len(), profile_name, phone_number),
                false,
            );
            let idx = ensured_index(channels.items, id, None);
            received(
                ListView { items, selected: channels.selected },
                idx,
                MessageView {
                    from_id: uuid,
                    from: items[idx].name,
                    message: Some(text),
                    attachments: Seq::empty(),
                    arrived_at: timestamp,
                },
            )
        },
        ParcelView::Ignored => channels,
    }
}

/// The channel list after the user sent `message` to the channel at `idx`:
/// the message ends that channel's history, the unread count of the selected
/// channel is cleared, and the channel moves to the front.
pub open spec fn sent(channels: ChannelsView, idx: int, message: MessageView) -> ChannelsView {
    let channel = channels.items[idx];
    bubbled(
        cleared_unread(
            ListView {
                items: channels.items.update(
                    idx,
                    with_message(channel, message, channel.unread_messages),
                ),
                selected: channels.selected,
            },
        ),
        idx,
    )
}


/// The selection of a list of `len` items after a step forward or backward;
/// an empty list keeps what it has.
pub open spec fn moved_selection(selected: Option<usize>, len: int, forward: bool) -> Option<
    usize,
> {
    if len == 0 {
        selected
    } else if forward {
        Some(next_index(selected, len) as usize)
    } else {
        Some(previous_index(selected, len) as usize)
    }
}

/// The channel whose messages are paged through: the selected one, else the
/// first.
pub open spec fn paged_index(channels: ChannelsView) -> int {
    match channels.selected {
        Some(s) => s as int,
        None => 0,
    }
}

/// The channel list after the selection in the messages of the current
/// channel moved a step. Without channels nothing changes.
pub open spec fn paged(channels: ChannelsView, forward: bool) -> ChannelsView {
    let idx = paged_index(channels);
    if 0 <= idx < channels.items.len() {
        let channel = channels.items[idx];
        ListView {
            items: channels.items.update(
                idx,
                ChannelView {
                    messages: ListView {
                        items: channel.messages.items,
                        selected: moved_selection(
                            channel.messages.selected,
                            channel.messages.items.len() as int,
                            forward,
                        ),
                    },
                    ..channel
                },
            ),
            selected: channels.selected,
        }
    } else {
        channels
    }
}


/// The model of a channel as it is kept between runs: all of it but the
/// selection in its messages.
pub struct SavedChannelView {
    pub id: Seq<char>,
    pub name: Seq<char>,
    pub is_group: bool,
    pub messages: Seq<MessageView>,
    pub unread_messages: usize,
}

/// What is kept of a channel.
pub open spec fn saved_channel(channel: ChannelView) -> SavedChannelView {
    SavedChannelView {
        id: channel.id,
        name: channel.name,
        is_group: channel.is_group,
        messages: channel.messages.items,
        unread_messages: channel.unread_messages,
    }
}

/// The channel that a kept one stands for: nothing is selected in its
/// messages.
pub open spec fn restored_channel(saved: SavedChannelView) -> ChannelView {
    ChannelView {
        id: saved.id,
        name: saved.name,
        is_group: saved.is_group,
        messages: ListView { items: saved.messages, selected: None },
        unread_messages: saved.unread_messages,
    }
}

/// What is kept of a list of channels, in their order.
pub open spec fn saved_channels(items: Seq<ChannelView>) -> Seq<SavedChannelView> {
    Seq::new(items.len(), |i: int| saved_channel(items[i]))
}

/// The channels that kept ones stand for, in their order.
pub open spec fn restored_channels(saved: Seq<SavedChannelView>) -> Seq<ChannelView> {
    Seq::new(saved.len(), |i: int| restored_channel(saved[i]))
}

} // verus!
