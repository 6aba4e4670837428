//! The order of display names, and channel lists sorted by it.

use crate::model::ChannelView;
use vstd::multiset::Multiset;
use vstd::prelude::*;
use vstd::seq_lib::to_multiset_insert;
use vstd::utf8::encode_utf8;

verus! {

/// The lexicographic order of byte strings: `a` is a prefix of `b`, or has
/// the smaller byte where they first differ.
pub open spec fn bytes_le(a: Seq<u8>, b: Seq<u8>) -> bool
    decreases a.len(),
{
    if a.len() == 0 {
        true
    } else if b.len() == 0 {
        false
    } else if a[0] != b[0] {
        a[0] < b[0]
    } else {
        bytes_le(a.drop_first(), b.drop_first())
    }
}

/// The order of names: that of their UTF-8 bytes, which is that of their
/// code points.
pub open spec fn name_le(a: Seq<char>, b: Seq<char>) -> bool {
    bytes_le(encode_utf8(a), encode_utf8(b))
}

/// Of two byte strings one is no greater than the other.
pub proof fn lemma_bytes_le_total(a: Seq<u8>, b: Seq<u8>)
    ensures
        bytes_le(a, b) || bytes_le(b, a),
    decreases a.len(),
{
    if a.len() > 0 && b.len() > 0 && a[0] == b[0] {
        lemma_bytes_le_total(a.drop_first(), b.drop_first());
    }
}

/// Whether `a` comes no later than `b` in the order of names.
pub fn string_le(a: &String, b: &String) -> (le: bool)
    ensures
        le == name_le(a@, b@),
{
    let left = a.as_str().as_bytes();
    let right = b.as_str().as_bytes();
    let mut i: usize = 0;
    assert(left@.skip(0) =~= left@);
    assert(right@.skip(0) =~= right@);
    loop
        invariant
            left@ == encode_utf8(a@),
            right@ == encode_utf8(b@),
            i <= left@.len(),
            i <= right@.len(),
            bytes_le(left@, right@) == bytes_le(left@.skip(i as int), right@.skip(i as int)),
        decreases left@.len() - i,
    {
        if i >= left.len() {
            return true;
        }
        if i >= right.len() {
            return false;
        }
        if left[i] != right[i] {
            return left[i] < right[i];
        }
        assert(left@.skip(i as int).drop_first() =~= left@.skip(i + 1));
        assert(right@.skip(i as int).drop_first() =~= right@.skip(i + 1));
        i = i + 1;
    }
}

/// Where a channel called `name` goes into a list: behind the last channel
/// whose name comes no later.
pub open spec fn insertion_point(items: Seq<ChannelView>, name: Seq<char>) -> int
    decreases items.len(),
{
    if items.len() == 0 {
        0
    } else if name_le(items.last().name, name) {
        items.len() as int
    } else {
        insertion_point(items.drop_last(), name)
    }
}

/// A list with one more channel, at its [`insertion_point`].
pub open spec fn inserted(items: Seq<ChannelView>, channel: ChannelView) -> Seq<ChannelView> {
    items.insert(insertion_point(items, channel.name), channel)
}

/// The list `sorted` after the channels of `rest` went into it one by one.
pub open spec fn sorted_into(sorted: Seq<ChannelView>, rest: Seq<ChannelView>) -> Seq<
    ChannelView,
>
    decreases rest.len(),
{
    if rest.len() == 0 {
        sorted
    } else {
        sorted_into(inserted(sorted, rest[0]), rest.drop_first())
    }
}

/// The channels in the order of their names; channels of the same name
/// keep their order.
pub open spec fn sorted_by_name(items: Seq<ChannelView>) -> Seq<ChannelView> {
    sorted_into(Seq::empty(), items)
}

/// Each channel's name comes no later than the next one's.
pub open spec fn ordered_by_name(items: Seq<ChannelView>) -> bool {
    forall|i: int|
        0 <= i < items.len() - 1 ==> name_le((#[trigger] items[i]).name, items[i + 1].name)
}

/// What the insertion point is: the channel before it has a name that comes
/// no later, the channels from it on have names that come later.
pub proof fn lemma_insertion_point(items: Seq<ChannelView>, name: Seq<char>)
    ensures
        0 <= insertion_point(items, name) <= items.len(),
        insertion_point(items, name) > 0 ==> name_le(
            items[insertion_point(items, name) - 1].name,
            name,
        ),
        forall|j: int|
            insertion_point(items, name) <= j < items.len() ==> !name_le(
                (#[trigger] items[j]).name,
                name,
            ),
    decreases items.len(),
{
    if items.len() > 0 && !name_le(items.last().name, name) {
        lemma_insertion_point(items.drop_last(), name);
        let p = insertion_point(items, name);
        assert forall|j: int| p <= j < items.len() implies !name_le(
            (#[trigger] items[j]).name,
            name,
        ) by {
            if j < items.len() - 1 {
                assert(items.drop_last()[j] == items[j]);
            }
        }
    }
}

/// A channel that goes into an ordered list leaves it ordered, with the
/// same channels and the new one.
pub proof fn lemma_inserted(items: Seq<ChannelView>, channel: ChannelView)
    ensures
        ordered_by_name(items) ==> ordered_by_name(inserted(items, channel)),
        inserted(items, channel).to_multiset() == items.to_multiset().insert(channel),
        inserted(items, channel).len() == items.len() + 1,
{
    let p = insertion_point(items, channel.name);
    lemma_insertion_point(items, channel.name);
    to_multiset_insert(items, p, channel);
    let after = inserted(items, channel);
    if ordered_by_name(items) {
        assert forall|i: int| 0 <= i < after.len() - 1 implies name_le(
            (#[trigger] after[i]).name,
            after[i + 1].name,
        ) by {
            if i + 1 < p {
                assert(name_le(items[i].name, items[i + 1].name));
            } else if i + 1 == p {
            } else if i == p {
                assert(!name_le(items[p].name, channel.name));
                lemma_bytes_le_total(encode_utf8(items[p].name), encode_utf8(channel.name));
            } else {
                assert(name_le(items[i - 1].name, items[i].name));
            }
        }
    }
}

/// Channels that go into an ordered list one by one leave it ordered, with
/// the same channels and the new ones.
pub proof fn lemma_sorted_into(sorted: Seq<ChannelView>, rest: Seq<ChannelView>)
    ensures
        ordered_by_name(sorted) ==> ordered_by_name(sorted_into(sorted, rest)),
        sorted_into(sorted, rest).to_multiset() == sorted.to_multiset().add(rest.to_multiset()),
        sorted_into(sorted, rest).len() == sorted.len() + rest.len(),
    decreases rest.len(),
{
    broadcast use vstd::multiset::group_multiset_axioms;

    if rest.len() == 0 {
        assert(rest.to_multiset() =~= Multiset::<ChannelView>::empty()) by {
            rest.to_multiset_ensures();
        }
        assert(sorted.to_multiset().add(rest.to_multiset()) =~= sorted.to_multiset());
    } else {
        lemma_inserted(sorted, rest[0]);
        lemma_sorted_into(inserted(sorted, rest[0]), rest.drop_first());
        assert(rest =~= seq![rest[0]] + rest.drop_first());
        vstd::seq_lib::lemma_multiset_commutative(seq![rest[0]], rest.drop_first());
        assert(seq![rest[0]].to_multiset() =~= Multiset::<ChannelView>::empty().insert(rest[0])) by {
            vstd::seq_lib::to_multiset_build(Seq::<ChannelView>::empty(), rest[0]);
            assert(Seq::<ChannelView>::empty().push(rest[0]) =~= seq![rest[0]]);
            Seq::<ChannelView>::empty().to_multiset_ensures();
        }
        assert(sorted_into(sorted, rest).to_multiset() =~= sorted.to_multiset().add(
            rest.to_multiset(),
        ));
    }
}

/// Sorting by name orders the channels and keeps each of them, as often as
/// it occurs.
pub proof fn lemma_sorted_by_name(items: Seq<ChannelView>)
    ensures
        ordered_by_name(sorted_by_name(items)),
        sorted_by_name(items).to_multiset() == items.to_multiset(),
        sorted_by_name(items).len() == items.len(),
{
    broadcast use vstd::multiset::group_multiset_axioms;

    lemma_sorted_into(Seq::empty(), items);
    Seq::<ChannelView>::empty().to_multiset_ensures();
    assert(Seq::<ChannelView>::empty().to_multiset().add(items.to_multiset())
        =~= items.to_multiset());
}

} // verus!
