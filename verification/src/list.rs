//! An ordered sequence of items with at most one selected position.

use vstd::prelude::*;

verus! {

/// The selection of a list: the index of the selected item, if any.
#[derive(Debug, Clone, Copy, PartialEq, Eq, Structural)]
pub struct ListState {
    pub selected: Option<usize>,
}

impl ListState {
    /// No item selected.
    pub fn new() -> (state: ListState)
        ensures
            state.selected is None,
    {
        ListState { selected: None }
    }

    /// The selected index.
    pub fn selected(&self) -> (index: Option<usize>)
        ensures
            index == self.selected,
    {
        self.selected
    }

    /// Replaces the selection.
    pub fn select(&mut self, index: Option<usize>)
        ensures
            final(self).selected == index,
    {
        self.selected = index;
    }
}

/// The mathematical model of a list: its items and the selected index.
pub struct ListView<V> {
    pub items: Seq<V>,
    pub selected: Option<usize>,
}

impl<V> ListView<V> {
    /// The selection, if there is one, points at an item.
    pub open spec fn wf(self) -> bool {
        self.selected matches Some(i) ==> i < self.items.len()
    }
}

/// The index selected after a step forward in a list of `len > 0` items:
/// one further, and the first item after the last or when nothing was selected.
pub open spec fn next_index(selected: Option<usize>, len: int) -> int {
    match selected {
        Some(i) => if i + 1 < len { i + 1 } else { 0 },
        None => 0,
    }
}

/// The index selected after a step backward in a list of `len > 0` items:
/// one before, the last item before the first, and the first item when
/// nothing was selected.
pub open spec fn previous_index(selected: Option<usize>, len: int) -> int {
    match selected {
        Some(i) => if i == 0 { len - 1 } else { i - 1 },
        None => 0,
    }
}

/// A sequence of items together with a selection.
#[derive(Debug, Clone, PartialEq, Eq)]
pub struct StatefulList<T> {
    pub state: ListState,
    pub items: Vec<T>,
}

impl<T: DeepView> DeepView for StatefulList<T> {
    type V = ListView<T::V>;

    open spec fn deep_view(&self) -> ListView<T::V> {
        ListView { items: self.items.deep_view(), selected: self.state.selected }
    }
}

impl<T> StatefulList<T> {
    /// The selection, if there is one, points at an item.
    pub open spec fn wf(&self) -> bool {
        self.state.selected matches Some(i) ==> i < self.items@.len()
    }

    /// A list of the given items with nothing selected.
    pub fn with_items(items: Vec<T>) -> (list: StatefulList<T>)
        ensures
            list.items == items,
            list.state.selected is None,
            list.wf(),
    {
        StatefulList { state: ListState::new(), items }
    }

    /// Selects the following item, and the first one after the last.
    /// An empty list is left as it is.
    pub fn next(&mut self)
        ensures
            final(self).items == old(self).items,
            old(self).items@.len() == 0 ==> final(self).state == old(self).state,
            old(self).items@.len() > 0 ==> final(self).state.selected == Some(
                next_index(old(self).state.selected, old(self).items@.len() as int) as usize,
            ),
            old(self).items@.len() > 0 ==> final(self).wf(),
    {
        let len = self.items.len();
        if len == 0 {
            return ;
        }
        let index: usize = match self.state.selected() {
            Some(i) => if i < len - 1 {
                i + 1
            } else {
                0
            },
            None => 0,
        };
        self.state.select(Some(index));
    }

    /// Selects the preceding item, and the last one before the first.
    /// An empty list is left as it is.
    pub fn previous(&mut self)
        ensures
            final(self).items == old(self).items,
            old(self).items@.len() == 0 ==> final(self).state == old(self).state,
            old(self).items@.len() > 0 ==> final(self).state.selected == Some(
                previous_index(old(self).state.selected, old(self).items@.len() as int) as usize,
            ),
            old(self).items@.len() > 0 && old(self).wf() ==> final(self).wf(),
    {
        let len = self.items.len();
        if len == 0 {
            return ;
        }
        let index: usize = match self.state.selected() {
            Some(i) => if i == 0 {
                len - 1
            } else {
                i - 1
            },
            None => 0,
        };
        self.state.select(Some(index));
    }

    /// Selects the item at `index`; an index past the end changes nothing.
    pub fn select(&mut self, index: usize)
        ensures
            final(self).items == old(self).items,
            index < old(self).items@.len() ==> final(self).state.selected == Some(index),
            index >= old(self).items@.len() ==> final(self).state == old(self).state,
            old(self).wf() ==> final(self).wf(),
    {
        if index < self.items.len() {
            self.state.select(Some(index));
        }
    }

    /// Appends an item. The selection keeps its index.
    pub fn push_back(&mut self, item: T)
        ensures
            final(self).items@ == old(self).items@.push(item),
            final(self).state == old(self).state,
            old(self).wf() ==> final(self).wf(),
    {
        self.items.push(item);
    }

    /// Puts an item before all others. The selection keeps its index, so it
    /// points at the item that stood before the one selected until now.
    pub fn insert_front(&mut self, item: T)
        ensures
            final(self).items@ == old(self).items@.insert(0, item),
            final(self).state == old(self).state,
            old(self).wf() ==> final(self).wf(),
    {
        self.items.insert(0, item);
    }

    /// Exchanges the items at `i` and `j`. The selection keeps its index.
    pub fn swap(&mut self, i: usize, j: usize)
        requires
            i < old(self).items@.len(),
            j < old(self).items@.len(),
        ensures
            final(self).items@ == old(self).items@.update(i as int, old(self).items@[j as int]).update(
                j as int,
                old(self).items@[i as int],
            ),
            final(self).state == old(self).state,
            old(self).wf() ==> final(self).wf(),
    {
        if i == j {
            assert(self.items@ =~= old(self).items@.update(i as int, old(self).items@[j as int]).update(
                j as int,
                old(self).items@[i as int],
            ));
            return ;
        }
        let (low, high) = if i < j {
            (i, j)
        } else {
            (j, i)
        };
        let upper = self.items.remove(high);
        let lower = self.items.remove(low);
        self.items.insert(low, upper);
        self.items.insert(high, lower);
        assert(self.items@ =~= old(self).items@.update(i as int, old(self).items@[j as int]).update(
            j as int,
            old(self).items@[i as int],
        ));
    }
}

/// Steps forward and backward keep the selection inside a list that is not
/// empty, and they wrap exactly: backward from the first item selects the
/// last, forward from the last selects the first.
pub proof fn lemma_selection_wraps(selected: Option<usize>, len: int)
    requires
        len > 0,
        selected matches Some(i) ==> i < len,
    ensures
        0 <= next_index(selected, len) < len,
        0 <= previous_index(selected, len) < len,
        selected == Some(0usize) ==> previous_index(selected, len) == len - 1,
        selected matches Some(i) ==> (i == len - 1 ==> next_index(selected, len) == 0),
        selected matches Some(i) ==> (i + 1 < len ==> next_index(selected, len) == i + 1),
        selected matches Some(i) ==> (i > 0 ==> previous_index(selected, len) == i - 1),
{
}

} // verus!
