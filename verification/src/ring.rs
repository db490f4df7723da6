//! An ordered list with a single focus cursor.

use vstd::prelude::*;

verus! {

/// Where [`Ring::focus`] puts the cursor of a list of `len` elements when asked for `idx`:
/// at `idx` if that names an element, else at the last element, and at 0 on an empty list.
pub open spec fn clamp_index(idx: int, len: int) -> int {
    if idx < len {
        idx
    } else if len > 0 {
        len - 1
    } else {
        0
    }
}

/// An ordered list of `T` and the index of the element that has focus.
///
/// The cursor is *present* when it names an element. On an empty list it is absent.
/// [`Ring::remove`] leaves the stored index alone, so a caller that shrinks the list
/// re-focuses afterwards; until then a cursor past the end simply counts as absent.
#[derive(Debug, Clone, PartialEq, Eq)]
pub struct Ring<T> {
    pub elements: Vec<T>,
    pub focused: usize,
}

impl<T> Ring<T> {
    /// The cursor as the list's users see it: the focused index, if it names an element.
    pub open spec fn cursor(&self) -> Option<int> {
        if self.focused < self.elements@.len() {
            Some(self.focused as int)
        } else {
            None
        }
    }

    /// The cursor is at rest: it names an element, or the list is empty and it sits at 0.
    pub open spec fn wf(&self) -> bool {
        self.focused < self.elements@.len() || (self.elements@.len() == 0 && self.focused == 0)
    }

    pub fn new() -> (ring: Ring<T>)
        ensures
            ring.elements@ == Seq::<T>::empty(),
            ring.focused == 0,
            ring.wf(),
    {
        Ring { elements: Vec::new(), focused: 0 }
    }

    pub fn len(&self) -> (len: usize)
        ensures
            len == self.elements@.len(),
    {
        self.elements.len()
    }

    pub fn is_empty(&self) -> (empty: bool)
        ensures
            empty == (self.elements@.len() == 0),
    {
        self.elements.len() == 0
    }

    /// Appends `item` at the tail. The cursor does not move.
    pub fn push_back(&mut self, item: T)
        ensures
            final(self).elements@ == old(self).elements@.push(item),
            final(self).focused == old(self).focused,
    {
        self.elements.push(item);
    }

    /// Removes and returns the element at `idx`, or returns `None` and changes nothing
    /// when `idx` names no element. The stored cursor is not adjusted.
    pub fn remove(&mut self, idx: usize) -> (removed: Option<T>)
        ensures
            final(self).focused == old(self).focused,
            idx < old(self).elements@.len() ==> removed == Some(old(self).elements@[idx as int])
                && final(self).elements@ == old(self).elements@.remove(idx as int),
            idx >= old(self).elements@.len() ==> removed is None && final(self).elements@ == old(
                self,
            ).elements@,
    {
        if idx < self.elements.len() {
            Some(self.elements.remove(idx))
        } else {
            None
        }
    }

    /// Moves the cursor to `idx`. An index past the end is clamped to the last element;
    /// on an empty list the cursor rests at 0 and stays absent.
    pub fn focus(&mut self, idx: usize)
        ensures
            final(self).elements@ == old(self).elements@,
            final(self).focused == clamp_index(idx as int, old(self).elements@.len() as int),
            final(self).wf(),
    {
        let len = self.elements.len();
        if idx < len {
            self.focused = idx;
        } else if len > 0 {
            self.focused = len - 1;
        } else {
            self.focused = 0;
        }
    }

    /// The focused element, or `None` when the cursor is absent.
    pub fn focused(&self) -> (item: Option<&T>)
        ensures
            match self.cursor() {
                Some(i) => item == Some(&self.elements@[i]),
                None => item is None,
            },
    {
        if self.focused < self.elements.len() {
            Some(&self.elements[self.focused])
        } else {
            None
        }
    }

    /// The focused index, or `None` when the cursor is absent.
    pub fn focused_idx(&self) -> (idx: Option<usize>)
        ensures
            match self.cursor() {
                Some(i) => idx == Some(i as usize),
                None => idx is None,
            },
    {
        if self.focused < self.elements.len() {
            Some(self.focused)
        } else {
            None
        }
    }

    /// The element at `idx`, or `None` when `idx` names no element.
    pub fn get(&self, idx: usize) -> (item: Option<&T>)
        ensures
            idx < self.elements@.len() ==> item == Some(&self.elements@[idx as int]),
            idx >= self.elements@.len() ==> item is None,
    {
        if idx < self.elements.len() {
            Some(&self.elements[idx])
        } else {
            None
        }
    }

    /// The elements front to back.
    pub fn iter(&self) -> (items: Vec<&T>)
        ensures
            items@.len() == self.elements@.len(),
            forall|i: int| 0 <= i < items@.len() ==> *(#[trigger] items@[i]) == self.elements@[i],
    {
        let mut items: Vec<&T> = Vec::new();
        let mut idx: usize = 0;
        while idx < self.elements.len()
            invariant
                idx <= self.elements@.len(),
                items@.len() == idx,
                forall|i: int| 0 <= i < idx ==> *(#[trigger] items@[i]) == self.elements@[i],
            decreases self.elements@.len() - idx,
        {
            items.push(&self.elements[idx]);
            idx += 1;
        }
        items
    }

    /// The elements back to front.
    pub fn iter_rev(&self) -> (items: Vec<&T>)
        ensures
            items@.len() == self.elements@.len(),
            forall|i: int|
                0 <= i < items@.len() ==> *(#[trigger] items@[i]) == self.elements@[
                    self.elements@.len() - 1 - i],
    {
        let mut items: Vec<&T> = Vec::new();
        let len = self.elements.len();
        let mut idx: usize = len;
        while idx > 0
            invariant
                idx <= len,
                len == self.elements@.len(),
                items@.len() == len - idx,
                forall|i: int|
                    0 <= i < len - idx ==> *(#[trigger] items@[i]) == self.elements@[len - 1 - i],
            decreases idx,
        {
            idx -= 1;
            items.push(&self.elements[idx]);
        }
        items
    }
}

} // verus!
