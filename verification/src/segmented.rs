//! An append-only FIFO collection that hands its items back, in arrival
//! order, as one vector.

use vstd::prelude::*;
use std::collections::VecDeque;

verus! {

/// Items collected one at a time and extracted all at once.
pub struct SegmentedBuffer<T> {
    data: VecDeque<T>,
    chunk_size: usize,
}

impl<T> View for SegmentedBuffer<T> {
    type V = Seq<T>;

    /// The items pushed so far, oldest first.
    closed spec fn view(&self) -> Seq<T> {
        self.data@
    }
}

impl<T> SegmentedBuffer<T> {
    /// The chunk size the buffer was created with.
    pub closed spec fn spec_chunk_size(&self) -> usize {
        self.chunk_size
    }

    /// Creates an empty buffer.
    pub fn new(chunk_size: usize) -> (s: Self)
        ensures
            s@ == Seq::<T>::empty(),
            s.spec_chunk_size() == chunk_size,
    {
        Self { data: VecDeque::new(), chunk_size }
    }

    /// Appends an item after all earlier ones.
    pub fn push(&mut self, item: T)
        ensures
            final(self)@ == old(self)@.push(item),
            final(self).spec_chunk_size() == old(self).spec_chunk_size(),
    {
        self.data.push_back(item);
    }

    /// Consumes the buffer and returns its items in the order they were pushed.
    pub fn extract_all(self) -> (items: Vec<T>)
        ensures
            items@ == self@,
    {
        let ghost all = self.data@;
        let mut data = self.data;
        let mut items: Vec<T> = Vec::new();
        while data.len() > 0
            invariant
                items@ + data@ == all,
            decreases data@.len(),
        {
            let ghost before = data@;
            match data.pop_front() {
                Some(x) => {
                    items.push(x);
                    assert(items@ + data@ =~= all) by {
                        assert(before =~= seq![x] + data@);
                    }
                },
                None => {},
            }
        }
        assert(items@ =~= all);
        items
    }
}

} // verus!
