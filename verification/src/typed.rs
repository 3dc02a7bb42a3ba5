//! A communicator handle tied to one element type, and the check run when
//! it is created that every rank asked for the same element type.

use vstd::prelude::*;
use std::marker::PhantomData;

use crate::rows::{flatten_rows, flatten_rows_vec};

verus! {

/// The identity of an element type, as two 64-bit words.
#[derive(Debug, Clone, Copy, PartialEq, Eq, Structural)]
pub struct MyTypeId(pub u64, pub u64);

impl Default for MyTypeId {
    fn default() -> (k: Self)
        ensures
            k == MyTypeId(0, 0),
    {
        MyTypeId(0, 0)
    }
}

/// What rank `rank` contributes to the broadcast from rank 0: the root its
/// own type, every other rank the default key (overwritten by the broadcast).
pub open spec fn spec_broadcast_seed(rank: i32, local: MyTypeId) -> MyTypeId {
    if rank == 0 {
        local
    } else {
        MyTypeId(0, 0)
    }
}

/// Returns what rank `rank` contributes to the broadcast of the root's type.
pub fn broadcast_seed(rank: i32, local: MyTypeId) -> (k: MyTypeId)
    ensures
        k == spec_broadcast_seed(rank, local),
{
    if rank == 0 {
        local
    } else {
        MyTypeId::default()
    }
}

/// Whether this rank's type is the one the root broadcast.
pub fn matches_root(local: MyTypeId, root: MyTypeId) -> (same: bool)
    ensures
        same == (local == root),
{
    local.0 == root.0 && local.1 == root.1
}

/// The outcome of the type check once every rank's comparison is combined
/// by a logical and.
#[derive(Debug, Clone, Copy, PartialEq, Eq, Structural)]
pub enum TypeCheck {
    /// Some rank uses another type: creating the communicator fails.
    Mismatch,
    /// All ranks agree; this rank is the root and reports the success.
    AcceptedAndReport,
    /// All ranks agree.
    Accepted,
}

/// Decides the outcome of the type check on rank `rank`.
pub fn type_check_outcome(rank: i32, all_agree: bool) -> (c: TypeCheck)
    ensures
        !all_agree ==> c == TypeCheck::Mismatch,
        all_agree && rank == 0 ==> c == TypeCheck::AcceptedAndReport,
        all_agree && rank != 0 ==> c == TypeCheck::Accepted,
{
    if !all_agree {
        TypeCheck::Mismatch
    } else if rank == 0 {
        TypeCheck::AcceptedAndReport
    } else {
        TypeCheck::Accepted
    }
}

/// The flag each rank contributes to the final logical and, given the types
/// of all ranks in rank order (rank 0 is the root).
pub open spec fn agreement_flags(types: Seq<MyTypeId>) -> Seq<bool> {
    Seq::new(types.len(), |r: int| types[r] == types[0])
}

/// The logical and of all flags.
pub open spec fn all_true(flags: Seq<bool>) -> bool {
    forall|r: int| 0 <= r < flags.len() ==> #[trigger] flags[r]
}

/// The type check accepts exactly when every rank uses the same type: the
/// logical and of every rank's comparison with the broadcast root type is
/// true if and only if all types are equal.
pub proof fn lemma_check_accepts_iff_all_equal(types: Seq<MyTypeId>)
    requires
        types.len() > 0,
    ensures
        spec_broadcast_seed(0, types[0]) == types[0],
        all_true(agreement_flags(types)) <==> (forall|r: int, s: int|
            0 <= r < types.len() && 0 <= s < types.len() ==> #[trigger] types[r] == #[trigger] types[s]),
{
    if all_true(agreement_flags(types)) {
        assert forall|r: int, s: int|
            0 <= r < types.len() && 0 <= s < types.len() implies #[trigger] types[r] == #[trigger] types[s] by {
            assert(agreement_flags(types)[r]);
            assert(agreement_flags(types)[s]);
        }
    }
    if forall|r: int, s: int|
        0 <= r < types.len() && 0 <= s < types.len() ==> #[trigger] types[r] == #[trigger] types[s] {
        assert forall|r: int| 0 <= r < agreement_flags(types).len() implies #[trigger] agreement_flags(types)[r] by {
            assert(types[r] == types[0]);
        }
    }
}

/// The peer and tag of a point-to-point transfer.
#[derive(Debug, Clone, Copy, PartialEq, Eq, Structural)]
pub struct Route {
    pub peer: i32,
    pub tag: i32,
}

/// A communicator over which only buffers of element type `T` are sent and
/// received. It holds this rank's number and the number of ranks.
pub struct TypedCommunicator<T> {
    rank: i32,
    size: i32,
    phantom: PhantomData<T>,
}

impl<T> TypedCommunicator<T> {
    pub closed spec fn spec_rank(&self) -> i32 {
        self.rank
    }

    pub closed spec fn spec_size(&self) -> i32 {
        self.size
    }

    /// Creates the typed communicator of rank `rank` among `size` ranks,
    /// once the type check has found that all ranks agree.
    pub fn new(rank: i32, size: i32, all_agree: bool) -> (c: Self)
        requires
            all_agree,
            0 <= rank < size,
        ensures
            c.spec_rank() == rank,
            c.spec_size() == size,
    {
        TypedCommunicator { rank, size, phantom: PhantomData }
    }

    /// This rank's number.
    pub fn rank(&self) -> (r: i32)
        ensures
            r == self.spec_rank(),
    {
        self.rank
    }

    /// The number of ranks.
    pub fn size(&self) -> (s: i32)
        ensures
            s == self.spec_size(),
    {
        self.size
    }

    /// Prepares a send of `data` to `destination` with `tag`; only data of
    /// the communicator's element type is accepted, and `destination` must
    /// be a rank of the communicator.
    pub fn send<'b>(&self, data: &'b [T], destination: i32, tag: i32) -> (m: (Route, &'b [T]))
        requires
            0 <= destination < self.spec_size(),
        ensures
            m.0 == (Route { peer: destination, tag }),
            m.1@ == data@,
    {
        (Route { peer: destination, tag }, data)
    }

    /// Prepares a receive into `buffer` from `source` with `tag`; only a
    /// buffer of the communicator's element type is accepted, and `source`
    /// must be a rank of the communicator. The buffer is handed back for the
    /// transfer to fill.
    pub fn receive<'b>(&self, buffer: &'b mut [T], source: i32, tag: i32) -> (slot: (Route, &'b mut [T]))
        requires
            0 <= source < self.spec_size(),
        ensures
            slot.0 == (Route { peer: source, tag }),
            slot.1@ == old(buffer)@,
            final(buffer)@ == final(slot.1)@,
    {
        (Route { peer: source, tag }, buffer)
    }

    /// Prepares a send of the single value `value`: a message of one element.
    pub fn send_value(&self, value: &T, destination: i32, tag: i32) -> (m: (Route, Vec<T>))
        where
            T: Copy,
        requires
            0 <= destination < self.spec_size(),
        ensures
            m.0 == (Route { peer: destination, tag }),
            m.1@ == seq![*value],
    {
        let mut elements: Vec<T> = Vec::new();
        elements.push(*value);
        (Route { peer: destination, tag }, elements)
    }

    /// Prepares a send of a buffer of rows: a message of its elements, row
    /// after row.
    pub fn send_rows<const N: usize>(&self, data: &[[T; N]], destination: i32, tag: i32) -> (m: (Route, Vec<T>))
        where
            T: Copy,
        requires
            0 <= destination < self.spec_size(),
        ensures
            m.0 == (Route { peer: destination, tag }),
            m.1@ == flatten_rows(data@),
    {
        (Route { peer: destination, tag }, flatten_rows_vec(data))
    }

    /// Prepares a receive into the single value `value`, which is handed
    /// back for the transfer to fill.
    pub fn receive_value<'b>(&self, value: &'b mut T, source: i32, tag: i32) -> (slot: (Route, &'b mut T))
        requires
            0 <= source < self.spec_size(),
        ensures
            slot.0 == (Route { peer: source, tag }),
            *slot.1 == *old(value),
            *final(value) == *final(slot.1),
    {
        (Route { peer: source, tag }, value)
    }

    /// Prepares a receive into a buffer of rows: the route, and a staging
    /// buffer of its elements, row after row, for the transfer to fill;
    /// `rows::fill_rows` then writes what arrived back into the rows.
    pub fn receive_rows<const N: usize>(&self, buffer: &[[T; N]], source: i32, tag: i32) -> (slot: (Route, Vec<T>))
        where
            T: Copy,
        requires
            0 <= source < self.spec_size(),
        ensures
            slot.0 == (Route { peer: source, tag }),
            slot.1@ == flatten_rows(buffer@),
    {
        (Route { peer: source, tag }, flatten_rows_vec(buffer))
    }
}

} // verus!
