//! What holds of the state engine across its operations.

use crate::app::ChannelPosition;
use crate::content::ParcelView;
use crate::ident::Uuid;
use crate::list::ListView;
use crate::model::{
    after_message, after_parcel, backfilled, bubbled, cleared_unread, counterpart_lookup_needed,
    ensured, ensured_index, fresh_channel, group_lookup_needed, lemma_position_absent,
    lemma_position_is, lemma_push_position, lemma_same_keys_position, matches_key, merged,
    moved_selection, or_identity, position, profile_lookup_needed, received, restored_channels,
    rotated_to_front, routed, routed_index, same_keys, saved_channels, sender_lookup_needed,
    sender_name, sent, target_name, unique_channels, with_message, with_sender, ChannelView,
    ChannelsView, MessageView, NamesView,
};
use crate::signal::Delivery;
use vstd::prelude::*;

verus! {

/// The selection of a list of `len` items after a sequence of steps, each
/// forward (`true`) or backward (`false`).
pub open spec fn after_steps(selected: Option<usize>, len: int, steps: Seq<bool>) -> Option<
    usize,
>
    decreases steps.len(),
{
    if steps.len() == 0 {
        selected
    } else {
        after_steps(moved_selection(selected, len, steps[0]), len, steps.drop_first())
    }
}

/// However the selection steps forward and backward through a list that is
/// not empty, it points at an item of the list.
pub proof fn lemma_selection_stays_in_list(selected: Option<usize>, len: int, steps: Seq<bool>)
    requires
        0 < len <= usize::MAX,
        selected matches Some(i) ==> i < len,
    ensures
        after_steps(selected, len, steps) matches Some(i) ==> i < len,
        steps.len() > 0 ==> after_steps(selected, len, steps) is Some,
    decreases steps.len(),
{
    if steps.len() > 0 {
        let next = moved_selection(selected, len, steps[0]);
        lemma_selection_stays_in_list(next, len, steps.drop_first());
    }
}

/// A step backward from the first item selects the last, and a step forward
/// from the last selects the first.
pub proof fn lemma_selection_wraps_exactly(len: int)
    requires
        0 < len <= usize::MAX,
    ensures
        moved_selection(Some(0usize), len, false) == Some((len - 1) as usize),
        moved_selection(Some((len - 1) as usize), len, true) == Some(0usize),
{
}

/// A channel that moves to the front leaves the others in their order, and
/// the selection points at the channel that it pointed at before.
pub proof fn lemma_bubble_follows_selection(channels: ChannelsView, idx: int)
    requires
        0 <= idx < channels.items.len() <= usize::MAX,
        channels.wf(),
    ensures
        bubbled(channels, idx).items == seq![channels.items[idx]] + channels.items.take(idx)
            + channels.items.skip(idx + 1),
        bubbled(channels, idx).wf(),
        channels.selected matches Some(s) ==> bubbled(channels, idx).selected matches Some(t)
            && bubbled(channels, idx).items[t as int] == channels.items[s as int],
        channels.selected is None ==> bubbled(channels, idx).selected is None,
{
    assert(rotated_to_front(channels.items, idx) =~= seq![channels.items[idx]]
        + channels.items.take(idx) + channels.items.skip(idx + 1));
}

/// Two messages sent one after the other to the selected channel at the
/// front leave every channel in its place and the selection at the front;
/// the channel at the front has the two messages at the end of its history
/// and nothing unread.
pub proof fn lemma_send_to_front_keeps_order(
    channels: ChannelsView,
    first: MessageView,
    second: MessageView,
)
    requires
        channels.items.len() > 0,
        channels.selected == Some(0usize),
    ensures
        ({
            let front = channels.items[0];
            let twice = sent(sent(channels, 0, first), 0, second);
            &&& twice.selected == Some(0usize)
            &&& twice.items == channels.items.update(
                0,
                ChannelView {
                    messages: ListView {
                        items: front.messages.items.push(first).push(second),
                        selected: front.messages.selected,
                    },
                    unread_messages: 0,
                    ..front
                },
            )
            &&& forall|i: int|
                0 <= i < channels.items.len() ==> (#[trigger] twice.items[i]).id
                    == channels.items[i].id
        }),
{
    let once = sent(channels, 0, first);
    let front = channels.items[0];
    let after_first = ChannelView {
        messages: ListView {
            items: front.messages.items.push(first),
            selected: front.messages.selected,
        },
        unread_messages: 0,
        ..front
    };
    assert(once.items =~= channels.items.update(0, after_first));
    let twice = sent(once, 0, second);
    let after_second = ChannelView {
        messages: ListView {
            items: front.messages.items.push(first).push(second),
            selected: front.messages.selected,
        },
        unread_messages: 0,
        ..front
    };
    assert(twice.items =~= channels.items.update(0, after_second));
}

/// The window follows the selection: where its top and the rows above the
/// selection add up to the selected index, they do so after a step down.
pub proof fn lemma_scrolled_down_follows_selection(
    position: ChannelPosition,
    selected: usize,
    len: int,
)
    requires
        selected < len <= usize::MAX,
        position.top + position.upside == selected,
        position.can_scroll_down(),
    ensures
        moved_selection(Some(selected), len, true) matches Some(s) && position.scrolled_down(
            Some(selected),
            len,
        ).top + position.scrolled_down(Some(selected), len).upside == s,
{
}

/// The window follows the selection: where its top and the rows above the
/// selection add up to the selected index, they do so after a step up,
/// unless the selection wraps in a list that is shorter than the rows below
/// it.
pub proof fn lemma_scrolled_up_follows_selection(
    position: ChannelPosition,
    selected: usize,
    len: int,
)
    requires
        selected < len <= usize::MAX,
        position.top + position.upside == selected,
        position.can_scroll_up(Some(selected)),
        selected == 0 ==> position.downside < len,
    ensures
        moved_selection(Some(selected), len, false) matches Some(s) && position.scrolled_up(
            Some(selected),
            len,
        ).top + position.scrolled_up(Some(selected), len).upside == s,
{
}

/// A step keeps the height of the window, the rows above and below the
/// selection together, where the window follows the selection; only a step
/// down from the last channel with rows left below the selection does not.
pub proof fn lemma_scrolling_keeps_height(position: ChannelPosition, selected: usize, len: int)
    requires
        selected < len <= usize::MAX,
        position.top + position.upside == selected,
    ensures
        position.can_scroll_up(Some(selected)) ==> position.scrolled_up(
            Some(selected),
            len,
        ).upside + position.scrolled_up(Some(selected), len).downside == position.upside
            + position.downside,
        position.can_scroll_down() && (selected + 1 < len || position.downside == 0)
            ==> position.scrolled_down(Some(selected), len).upside + position.scrolled_down(
            Some(selected),
            len,
        ).downside == position.upside + position.downside,
{
}

/// A profile name that was not asked for makes no difference to what a
/// content leaves behind.
pub proof fn lemma_profile_name_used_as_wanted(
    channels: ChannelsView,
    parcel: ParcelView,
    own: Uuid,
    own_name: Seq<char>,
    one: Option<Seq<char>>,
    other: Option<Seq<char>>,
)
    requires
        !profile_lookup_needed(channels.items, parcel),
    ensures
        after_parcel(channels, parcel, own, own_name, one) == after_parcel(
            channels,
            parcel,
            own,
            own_name,
            other,
        ),
{
}

/// What is kept of the channels stands for the same channels, in the same
/// order, with the same messages and unread counts; only the selection in
/// each channel's messages is gone.
pub proof fn lemma_snapshot_round_trip(items: Seq<ChannelView>)
    ensures
        restored_channels(saved_channels(items)).len() == items.len(),
        forall|i: int|
            0 <= i < items.len() ==> #[trigger] restored_channels(saved_channels(items))[i] == (
            ChannelView {
                messages: ListView { items: items[i].messages.items, selected: None },
                ..items[i]
            }),
{
}


/// A search by identity alone finds what a search by identity and kind
/// finds.
proof fn lemma_absent_for_any_kind(items: Seq<ChannelView>, id: Seq<char>, kind: Option<bool>)
    requires
        position(items, id, None) is None,
    ensures
        position(items, id, kind) is None,
{
    lemma_position_is(items, id, None);
    assert forall|j: int| 0 <= j < items.len() implies !matches_key(
        #[trigger] items[j],
        id,
        kind,
    ) by {
        assert(!matches_key(items[j], id, None));
    }
    lemma_position_absent(items, id, kind);
}

/// Lists with the same keys at the same places are both free of doubles,
/// or neither is.
proof fn lemma_same_keys_unique(a: Seq<ChannelView>, b: Seq<ChannelView>)
    requires
        same_keys(a, b),
        unique_channels(a),
    ensures
        unique_channels(b),
{
    assert forall|i: int, j: int| 0 <= i < j < b.len() implies !((#[trigger] b[i]).id == (
    #[trigger] b[j]).id && b[i].is_group == b[j].is_group) by {
        assert(a[i].id == b[i].id && a[j].id == b[j].id);
    }
}

/// A channel whose key no channel has leaves the list free of doubles.
proof fn lemma_unique_push(items: Seq<ChannelView>, channel: ChannelView)
    requires
        unique_channels(items),
        position(items, channel.id, Some(channel.is_group)) is None,
    ensures
        unique_channels(items.push(channel)),
{
    let longer = items.push(channel);
    lemma_position_is(items, channel.id, Some(channel.is_group));
    assert forall|i: int, j: int| 0 <= i < j < longer.len() implies !((#[trigger] longer[i]).id
        == (#[trigger] longer[j]).id && longer[i].is_group == longer[j].is_group) by {
        assert(longer[i] == items[i]);
        if j < items.len() {
            assert(longer[j] == items[j]);
        } else {
            assert(!matches_key(items[i], channel.id, Some(channel.is_group)));
        }
    }
}

/// A channel that moves to the front leaves the list free of doubles.
proof fn lemma_unique_rotated(items: Seq<ChannelView>, idx: int)
    requires
        unique_channels(items),
        0 <= idx < items.len(),
    ensures
        unique_channels(rotated_to_front(items, idx)),
{
    let turned = rotated_to_front(items, idx);
    assert forall|i: int, j: int| 0 <= i < j < turned.len() implies !((#[trigger] turned[i]).id
        == (#[trigger] turned[j]).id && turned[i].is_group == turned[j].is_group) by {
        let from_i = if i == 0 {
            idx
        } else if i <= idx {
            i - 1
        } else {
            i
        };
        let from_j = if j <= idx {
            j - 1
        } else {
            j
        };
        assert(turned[i] == items[from_i]);
        assert(turned[j] == items[from_j]);
        if from_i < from_j {
            assert(!(items[from_i].id == items[from_j].id && items[from_i].is_group
                == items[from_j].is_group));
        } else {
            assert(!(items[from_j].id == items[from_i].id && items[from_j].is_group
                == items[from_i].is_group));
        }
    }
}

/// A listing of channels leaves the channels that are there as they are,
/// each at its place.
pub proof fn lemma_merged_keeps_channels(items: Seq<ChannelView>, remote: Seq<ChannelView>)
    ensures
        merged(items, remote).len() >= items.len(),
        merged(items, remote).take(items.len() as int) == items,
    decreases remote.len(),
{
    if remote.len() == 0 {
        assert(items.take(items.len() as int) =~= items);
    } else if position(items, remote[0].id, None) is None {
        let longer = items.push(remote[0]);
        lemma_merged_keeps_channels(longer, remote.drop_first());
        let all = merged(longer, remote.drop_first());
        assert(all.take(items.len() as int) =~= all.take(longer.len() as int).take(
            items.len() as int,
        ));
        assert(longer.take(items.len() as int) =~= items);
    } else {
        lemma_merged_keeps_channels(items, remote.drop_first());
    }
}

/// A listing of channels leaves the list free of doubles.
pub proof fn lemma_unique_merged(items: Seq<ChannelView>, remote: Seq<ChannelView>)
    requires
        unique_channels(items),
    ensures
        unique_channels(merged(items, remote)),
    decreases remote.len(),
{
    if remote.len() > 0 {
        if position(items, remote[0].id, None) is None {
            lemma_absent_for_any_kind(items, remote[0].id, Some(remote[0].is_group));
            lemma_unique_push(items, remote[0]);
            lemma_unique_merged(items.push(remote[0]), remote.drop_first());
        } else {
            lemma_unique_merged(items, remote.drop_first());
        }
    }
}

/// A channel that is found or made for a key of its own kind leaves the
/// list free of doubles, and stands at the position that is returned.
proof fn lemma_unique_ensured(
    items: Seq<ChannelView>,
    id: Seq<char>,
    kind: Option<bool>,
    name: Seq<char>,
    is_group: bool,
)
    requires
        unique_channels(items),
        kind matches Some(k) ==> k == is_group,
    ensures
        unique_channels(ensured(items, id, kind, name, is_group)),
        0 <= ensured_index(items, id, kind) < ensured(items, id, kind, name, is_group).len(),
{
    lemma_position_is(items, id, kind);
    if position(items, id, kind) is None {
        if kind is None {
            lemma_absent_for_any_kind(items, id, Some(is_group));
        }
        lemma_unique_push(items, fresh_channel(id, name, is_group));
    }
}

/// A message that is stored in a channel leaves the list free of doubles.
pub proof fn lemma_unique_received(channels: ChannelsView, idx: int, message: MessageView)
    requires
        unique_channels(channels.items),
        0 <= idx < channels.items.len(),
    ensures
        unique_channels(received(channels, idx, message).items),
{
    let channel = channels.items[idx];
    let unread: usize = if channels.selected == Some(idx as usize) {
        0
    } else {
        (channel.unread_messages + 1) as usize
    };
    let stored = channels.items.update(idx, with_message(channel, message, unread));
    assert(same_keys(channels.items, stored));
    lemma_same_keys_unique(channels.items, stored);
    lemma_unique_rotated(stored, idx);
}

/// A message that the user sends leaves the list free of doubles.
pub proof fn lemma_unique_sent(channels: ChannelsView, idx: int, message: MessageView)
    requires
        unique_channels(channels.items),
        0 <= idx < channels.items.len(),
    ensures
        unique_channels(sent(channels, idx, message).items),
{
    let channel = channels.items[idx];
    let stored = ListView {
        items: channels.items.update(idx, with_message(channel, message, channel.unread_messages)),
        selected: channels.selected,
    };
    let cleared = cleared_unread(stored);
    assert(same_keys(channels.items, cleared.items));
    lemma_same_keys_unique(channels.items, cleared.items);
    lemma_unique_rotated(cleared.items, idx);
}

/// A sender that is resolved has a contact channel, and no key is found
/// afterwards that was not found before but the sender's.
proof fn lemma_with_sender_positions(
    items: Seq<ChannelView>,
    phone: Seq<char>,
    name: Option<Seq<char>>,
)
    ensures
        position(with_sender(items, phone, name), phone, Some(false)) is Some,
        forall|id: Seq<char>, kind: Option<bool>|
            position(with_sender(items, phone, name), id, kind) is None ==> position(
                items,
                id,
                kind,
            ) is None,
{
    let known = match name {
        Some(name) => backfilled(items, phone, name),
        None => items,
    };
    assert(same_keys(items, known));
    lemma_same_keys_position(items, known, phone, Some(false));
    let added = fresh_channel(phone, or_identity(name, phone), false);
    if position(items, phone, Some(false)) is None {
        lemma_push_position(known, added, phone, Some(false));
    }
    assert forall|id: Seq<char>, kind: Option<bool>|
        position(with_sender(items, phone, name), id, kind) is None implies position(
        items,
        id,
        kind,
    ) is None by {
        lemma_same_keys_position(items, known, id, kind);
        if position(items, phone, Some(false)) is None {
            lemma_push_position(known, added, id, kind);
        }
    }
}

/// A sender that is resolved leaves the list free of doubles.
proof fn lemma_unique_with_sender(
    items: Seq<ChannelView>,
    phone: Seq<char>,
    name: Option<Seq<char>>,
)
    requires
        unique_channels(items),
    ensures
        unique_channels(with_sender(items, phone, name)),
{
    let known = match name {
        Some(name) => backfilled(items, phone, name),
        None => items,
    };
    assert(same_keys(items, known));
    lemma_same_keys_unique(items, known);
    lemma_same_keys_position(items, known, phone, Some(false));
    if position(items, phone, Some(false)) is None {
        lemma_unique_push(known, fresh_channel(phone, or_identity(name, phone), false));
    }
}

/// A message that is delivered leaves the list free of doubles.
pub proof fn lemma_unique_after_message(
    channels: ChannelsView,
    delivery: Delivery,
    own_phone: Seq<char>,
    own_name: Seq<char>,
    names: NamesView,
)
    requires
        unique_channels(channels.items),
    ensures
        unique_channels(after_message(channels, delivery, own_phone, own_name, names).items),
{
    let known = sender_name(channels.items, delivery.source, own_phone, own_name, names.sender);
    let resolved = with_sender(channels.items, delivery.source, known);
    lemma_unique_with_sender(channels.items, delivery.source, known);
    lemma_unique_ensured(
        resolved,
        delivery.channel_id,
        Some(delivery.is_group),
        target_name(delivery, names),
        delivery.is_group,
    );
    lemma_unique_received(
        ListView {
            items: routed(channels.items, delivery, own_phone, own_name, names),
            selected: channels.selected,
        },
        routed_index(channels.items, delivery, own_phone, own_name, names),
        crate::model::stored_message(delivery, or_identity(known, delivery.source)),
    );
}

/// A content that is stored leaves the list free of doubles.
pub proof fn lemma_unique_after_parcel(
    channels: ChannelsView,
    parcel: ParcelView,
    own: Uuid,
    own_name: Seq<char>,
    profile_name: Option<Seq<char>>,
)
    requires
        unique_channels(channels.items),
    ensures
        unique_channels(after_parcel(channels, parcel, own, own_name, profile_name).items),
{
    match parcel {
        ParcelView::Note { text, timestamp } => {
            let id = crate::ident::uuid_text(own.0);
            lemma_unique_ensured(channels.items, id, None, own_name, false);
            lemma_unique_received(
                ListView {
                    items: ensured(channels.items, id, None, own_name, false),
                    selected: channels.selected,
                },
                ensured_index(channels.items, id, None),
                MessageView {
                    from_id: own,
                    from: own_name,
                    message: Some(text),
                    attachments: Seq::empty(),
                    arrived_at: timestamp,
                },
            );
        },
        ParcelView::Direct { uuid, phone_number, text, timestamp, profile_key } => {
            let id = crate::ident::uuid_text(uuid.0);
            let name = crate::model::contact_name(profile_key.len(), profile_name, phone_number);
            lemma_unique_ensured(channels.items, id, None, name, false);
            let items = ensured(channels.items, id, None, name, false);
            let idx = ensured_index(channels.items, id, None);
            lemma_unique_received(
                ListView { items, selected: channels.selected },
                idx,
                MessageView {
                    from_id: uuid,
                    from: items[idx].name,
                    message: Some(text),
                    attachments: Seq::empty(),
                    arrived_at: timestamp,
                },
            );
        },
        ParcelView::Ignored => {},
    }
}

/// Display names that were not asked for make no difference to what a
/// message leaves behind.
pub proof fn lemma_names_used_as_wanted(
    channels: ChannelsView,
    delivery: Delivery,
    own_phone: Seq<char>,
    own_name: Seq<char>,
    one: NamesView,
    other: NamesView,
)
    requires
        sender_lookup_needed(channels.items, delivery.source, own_phone) ==> one.sender
            == other.sender,
        group_lookup_needed(channels.items, delivery) ==> one.group == other.group,
        counterpart_lookup_needed(channels.items, delivery) ==> one.counterpart
            == other.counterpart,
    ensures
        after_message(channels, delivery, own_phone, own_name, one) == after_message(
            channels,
            delivery,
            own_phone,
            own_name,
            other,
        ),
        routed(channels.items, delivery, own_phone, own_name, one) == routed(
            channels.items,
            delivery,
            own_phone,
            own_name,
            other,
        ),
        sender_name(channels.items, delivery.source, own_phone, own_name, one.sender)
            == sender_name(channels.items, delivery.source, own_phone, own_name, other.sender),
{
    let known = sender_name(channels.items, delivery.source, own_phone, own_name, one.sender);
    let resolved = with_sender(channels.items, delivery.source, known);
    lemma_with_sender_positions(channels.items, delivery.source, known);
    if position(resolved, delivery.channel_id, Some(delivery.is_group)) is None {
        assert(position(channels.items, delivery.channel_id, Some(delivery.is_group)) is None);
        if !delivery.is_group {
            assert(delivery.channel_id != delivery.source);
        }
        assert(target_name(delivery, one) == target_name(delivery, other));
    }
}

} // verus!
