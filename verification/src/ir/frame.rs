//! The stack slots of a function as a mathematical value, and the laws that they obey.

use crate::ir::entities::StackSlot;
use crate::ir::stackslot::{StackOffset, StackSize, StackSlotData, StackSlotKind};
use vstd::prelude::*;

verus! {

/// Whether an outgoing argument comes before another one: by offset, then by size.
pub open spec fn precedes(
    offset: StackOffset,
    size: StackSize,
    other_offset: StackOffset,
    other_size: StackSize,
) -> bool {
    offset < other_offset || offset == other_offset && size < other_size
}

/// What a stack slot manager holds.
#[verifier::ext_equal]
pub struct StackFrame {
    /// All allocated stack slots, by number.
    pub slots: Seq<StackSlotData>,
    /// The outgoing stack slots that were made on request.
    pub outgoing: Seq<StackSlot>,
    /// The total size of the stack frame, if it has been computed.
    pub frame_size: Option<StackSize>,
}

/// One change of a frame.
pub enum FrameChange {
    /// A new stack slot, which is not an outgoing one made on request.
    Push(StackSlotData),
    /// A request for the outgoing slot with an offset and a size.
    Request(StackOffset, StackSize),
    /// A new offset of a stack slot.
    SetOffset(StackSlot, StackOffset),
    /// A new total size.
    SetFrameSize(Option<StackSize>),
}

impl StackFrame {
    /// The frame without any stack slot.
    pub open spec fn empty() -> StackFrame {
        StackFrame { slots: Seq::empty(), outgoing: Seq::empty(), frame_size: None }
    }

    /// Whether `ss` refers to a stack slot of this frame.
    pub open spec fn is_valid(self, ss: StackSlot) -> bool {
        ss.0 < self.slots.len()
    }

    /// The contents of a stack slot.
    pub open spec fn slot(self, ss: StackSlot) -> StackSlotData {
        self.slots[ss.0 as int]
    }

    /// Whether another stack slot can be numbered.
    pub open spec fn has_room(self) -> bool {
        self.slots.len() < u32::MAX
    }

    /// What holds of every frame: the stack slots can be numbered, and `outgoing` lists distinct
    /// slots for outgoing arguments.
    pub open spec fn well_formed(self) -> bool {
        &&& self.slots.len() <= u32::MAX
        &&& forall|i: int|
            0 <= i < self.outgoing.len() ==> self.is_valid(#[trigger] self.outgoing[i])
                && self.slot(self.outgoing[i]).kind == StackSlotKind::OutgoingArg
        &&& self.outgoing.no_duplicates()
    }

    /// Whether the outgoing stack slots are in strictly ascending order of offset and size.
    pub open spec fn is_ordered(self) -> bool {
        forall|i: int, j: int|
            0 <= i < j < self.outgoing.len() ==> {
                let a = self.slot(#[trigger] self.outgoing[i]);
                let b = self.slot(#[trigger] self.outgoing[j]);
                precedes(a.offset, a.size, b.offset, b.size)
            }
    }

    /// The reference that the next new stack slot gets.
    pub open spec fn next_key(self) -> StackSlot {
        StackSlot(self.slots.len() as u32)
    }

    /// The frame with one more stack slot.
    pub open spec fn pushed(self, data: StackSlotData) -> StackFrame {
        StackFrame { slots: self.slots.push(data), ..self }
    }

    /// The frame with the offset of one stack slot changed.
    pub open spec fn with_offset(self, ss: StackSlot, offset: StackOffset) -> StackFrame {
        StackFrame {
            slots: self.slots.update(ss.0 as int, StackSlotData { offset, ..self.slot(ss) }),
            ..self
        }
    }

    /// Whether `index` is the place of an outgoing slot with this offset and size.
    pub open spec fn is_outgoing_at(
        self,
        offset: StackOffset,
        size: StackSize,
        index: int,
    ) -> bool {
        &&& 0 <= index < self.outgoing.len()
        &&& self.slot(self.outgoing[index]).offset == offset
        &&& self.slot(self.outgoing[index]).size == size
    }

    /// Whether there is an outgoing slot with this offset and size.
    pub open spec fn has_outgoing(self, offset: StackOffset, size: StackSize) -> bool {
        exists|index: int| self.is_outgoing_at(offset, size, index)
    }

    /// Whether every outgoing slot before `index` precedes this offset and size, and none of those
    /// from `index` on does or is equal.
    pub open spec fn is_insertion_point(
        self,
        offset: StackOffset,
        size: StackSize,
        index: int,
    ) -> bool {
        &&& 0 <= index <= self.outgoing.len()
        &&& forall|i: int|
            0 <= i < index ==> {
                let a = self.slot(#[trigger] self.outgoing[i]);
                precedes(a.offset, a.size, offset, size)
            }
        &&& forall|i: int|
            index <= i < self.outgoing.len() ==> {
                let a = self.slot(#[trigger] self.outgoing[i]);
                precedes(offset, size, a.offset, a.size)
            }
    }

    /// The contents of a new outgoing slot.
    pub open spec fn outgoing_data(offset: StackOffset, size: StackSize) -> StackSlotData {
        StackSlotData { kind: StackSlotKind::OutgoingArg, size, offset }
    }

    /// The frame with a new outgoing slot, listed at `index`.
    pub open spec fn with_outgoing_at(
        self,
        offset: StackOffset,
        size: StackSize,
        index: int,
    ) -> StackFrame {
        StackFrame {
            slots: self.slots.push(StackFrame::outgoing_data(offset, size)),
            outgoing: self.outgoing.insert(index, self.next_key()),
            ..self
        }
    }

    /// The outgoing slot with this offset and size, in a frame that has one.
    pub open spec fn outgoing_slot(self, offset: StackOffset, size: StackSize) -> StackSlot {
        self.outgoing[choose|index: int| self.is_outgoing_at(offset, size, index)]
    }

    /// The frame after a request for the outgoing slot with this offset and size: the same frame
    /// if it has one, otherwise the frame with a new one in its place in the order.
    pub open spec fn after_request(self, offset: StackOffset, size: StackSize) -> StackFrame {
        if self.has_outgoing(offset, size) {
            self
        } else {
            self.with_outgoing_at(
                offset,
                size,
                choose|index: int| self.is_insertion_point(offset, size, index),
            )
        }
    }

    /// The slot that a request for this offset and size is answered with.
    pub open spec fn requested(self, offset: StackOffset, size: StackSize) -> StackSlot {
        if self.has_outgoing(offset, size) {
            self.outgoing_slot(offset, size)
        } else {
            self.next_key()
        }
    }

    /// In an ordered frame at most one outgoing slot has a given offset and size.
    pub proof fn lemma_outgoing_unique(
        self,
        offset: StackOffset,
        size: StackSize,
        i: int,
        j: int,
    )
        requires
            self.is_ordered(),
            self.is_outgoing_at(offset, size, i),
            self.is_outgoing_at(offset, size, j),
        ensures
            i == j,
    {
    }

    /// At most one place keeps the order when a slot with a given offset and size is listed there.
    pub proof fn lemma_insertion_point_unique(
        self,
        offset: StackOffset,
        size: StackSize,
        i: int,
        j: int,
    )
        requires
            self.is_insertion_point(offset, size, i),
            self.is_insertion_point(offset, size, j),
        ensures
            i == j,
            !self.has_outgoing(offset, size),
    {
        if i < j {
            let a = self.slot(self.outgoing[i]);
        }
        if j < i {
            let a = self.slot(self.outgoing[j]);
        }
    }

    /// An ordered frame without an outgoing slot of a given offset and size has a place for one.
    proof fn lemma_insertion_point_exists(self, offset: StackOffset, size: StackSize)
        requires
            self.is_ordered(),
            !self.has_outgoing(offset, size),
        ensures
            exists|index: int| self.is_insertion_point(offset, size, index),
    {
        self.lemma_insertion_point_from(offset, size, 0);
    }

    proof fn lemma_insertion_point_from(self, offset: StackOffset, size: StackSize, from: int)
        requires
            self.is_ordered(),
            !self.has_outgoing(offset, size),
            0 <= from <= self.outgoing.len(),
            forall|i: int|
                0 <= i < from ==> {
                    let a = self.slot(#[trigger] self.outgoing[i]);
                    precedes(a.offset, a.size, offset, size)
                },
        ensures
            exists|index: int| self.is_insertion_point(offset, size, index),
        decreases self.outgoing.len() - from,
    {
        if from == self.outgoing.len() {
            assert(self.is_insertion_point(offset, size, from));
        } else {
            let a = self.slot(self.outgoing[from]);
            assert(!self.is_outgoing_at(offset, size, from));
            if precedes(a.offset, a.size, offset, size) {
                self.lemma_insertion_point_from(offset, size, from + 1);
            } else {
                assert(self.is_insertion_point(offset, size, from));
            }
        }
    }

    /// A new outgoing slot keeps the frame well formed, and ordered if it is listed in its place.
    pub proof fn lemma_with_outgoing_at(
        self,
        offset: StackOffset,
        size: StackSize,
        index: int,
    )
        requires
            self.well_formed(),
            self.has_room(),
            0 <= index <= self.outgoing.len(),
        ensures
            self.with_outgoing_at(offset, size, index).well_formed(),
            self.is_ordered() && self.is_insertion_point(offset, size, index)
                ==> self.with_outgoing_at(offset, size, index).is_ordered(),
            self.with_outgoing_at(offset, size, index).is_outgoing_at(offset, size, index),
    {
        let next = self.with_outgoing_at(offset, size, index);
        assert forall|i: int| 0 <= i < next.outgoing.len() implies {
            &&& i < index ==> #[trigger] next.outgoing[i] == self.outgoing[i]
            &&& i == index ==> next.outgoing[i] == self.next_key()
            &&& i > index ==> next.outgoing[i] == self.outgoing[i - 1]
        } by {}
        assert forall|ss: StackSlot| self.is_valid(ss) implies #[trigger] next.slot(ss)
            == self.slot(ss) by {}
        assert(next.slot(self.next_key()) == StackFrame::outgoing_data(offset, size));
        assert forall|i: int| 0 <= i < next.outgoing.len() implies next.is_valid(
            #[trigger] next.outgoing[i],
        ) && next.slot(next.outgoing[i]).kind == StackSlotKind::OutgoingArg by {
            if i < index {
                assert(self.is_valid(self.outgoing[i]));
            } else if i > index {
                assert(self.is_valid(self.outgoing[i - 1]));
            }
        }
        assert forall|i: int, j: int|
            0 <= i < next.outgoing.len() && 0 <= j < next.outgoing.len() && i
                != j implies next.outgoing[i] != next.outgoing[j] by {
            let oi = if i < index { i } else { i - 1 };
            let oj = if j < index { j } else { j - 1 };
            if i != index {
                assert(self.is_valid(self.outgoing[oi]));
            }
            if j != index {
                assert(self.is_valid(self.outgoing[oj]));
            }
        }
        if self.is_ordered() && self.is_insertion_point(offset, size, index) {
            assert forall|i: int, j: int| 0 <= i < j < next.outgoing.len() implies {
                let a = next.slot(#[trigger] next.outgoing[i]);
                let b = next.slot(#[trigger] next.outgoing[j]);
                precedes(a.offset, a.size, b.offset, b.size)
            } by {
                let oi = if i < index { i } else { i - 1 };
                let oj = if j < index { j } else { j - 1 };
                if i != index {
                    assert(self.is_valid(self.outgoing[oi]));
                }
                if j != index {
                    assert(self.is_valid(self.outgoing[oj]));
                }
            }
        }
    }

    /// A request for an outgoing slot is answered with a slot of that kind, offset and size, and
    /// keeps the frame well formed and ordered.
    pub proof fn law_request_is_met(self, offset: StackOffset, size: StackSize)
        requires
            self.well_formed(),
            self.is_ordered(),
            self.has_room() || self.has_outgoing(offset, size),
        ensures
            self.after_request(offset, size).well_formed(),
            self.after_request(offset, size).is_ordered(),
            self.after_request(offset, size).has_outgoing(offset, size),
            self.after_request(offset, size).is_valid(self.requested(offset, size)),
            self.after_request(offset, size).slot(self.requested(offset, size))
                == StackFrame::outgoing_data(offset, size),
    {
        if self.has_outgoing(offset, size) {
            let index = choose|index: int| self.is_outgoing_at(offset, size, index);
            assert(self.is_valid(self.outgoing[index]));
        } else {
            self.lemma_insertion_point_exists(offset, size);
            let index = choose|index: int| self.is_insertion_point(offset, size, index);
            self.lemma_with_outgoing_at(offset, size, index);
        }
    }

    /// A second request for the same offset and size is answered with the same slot and changes
    /// nothing.
    pub proof fn law_request_is_reused(self, offset: StackOffset, size: StackSize)
        requires
            self.well_formed(),
            self.is_ordered(),
            self.has_room() || self.has_outgoing(offset, size),
        ensures
            ({
                let next = self.after_request(offset, size);
                &&& next.after_request(offset, size) == next
                &&& next.requested(offset, size) == self.requested(offset, size)
            }),
    {
        self.law_request_is_met(offset, size);
        let next = self.after_request(offset, size);
        if !self.has_outgoing(offset, size) {
            self.lemma_insertion_point_exists(offset, size);
            let index = choose|index: int| self.is_insertion_point(offset, size, index);
            self.lemma_with_outgoing_at(offset, size, index);
            let found = choose|index: int| next.is_outgoing_at(offset, size, index);
            next.lemma_outgoing_unique(offset, size, index, found);
        }
    }

    /// Requests for different offsets or sizes are answered with different slots, and the later
    /// one leaves the answer to the earlier one as it was.
    pub proof fn law_requests_are_independent(
        self,
        offset: StackOffset,
        size: StackSize,
        other_offset: StackOffset,
        other_size: StackSize,
    )
        requires
            self.well_formed(),
            self.is_ordered(),
            self.has_room() || self.has_outgoing(offset, size),
            self.after_request(offset, size).has_room() || self.after_request(
                offset,
                size,
            ).has_outgoing(other_offset, other_size),
            offset != other_offset || size != other_size,
        ensures
            ({
                let next = self.after_request(offset, size);
                let last = next.after_request(other_offset, other_size);
                &&& next.requested(other_offset, other_size) != self.requested(offset, size)
                &&& last.has_outgoing(offset, size)
                &&& last.requested(offset, size) == self.requested(offset, size)
            }),
    {
        self.law_request_is_met(offset, size);
        self.law_request_is_reused(offset, size);
        let next = self.after_request(offset, size);
        next.law_request_is_met(other_offset, other_size);
        let last = next.after_request(other_offset, other_size);
        let index = choose|index: int| next.is_outgoing_at(offset, size, index);
        assert(next.is_valid(next.outgoing[index]));
        if !next.has_outgoing(other_offset, other_size) {
            next.lemma_insertion_point_exists(other_offset, other_size);
            let at = choose|at: int| next.is_insertion_point(other_offset, other_size, at);
            let moved = if index < at { index } else { index + 1 };
            assert(last.outgoing[moved] == next.outgoing[index]);
            assert(last.is_outgoing_at(offset, size, moved));
            let found = choose|index: int| last.is_outgoing_at(offset, size, index);
            last.lemma_outgoing_unique(offset, size, moved, found);
        }
    }

    /// A request leaves every slot that was there, and the frame size, as they were.
    pub proof fn law_request_keeps_slots(self, offset: StackOffset, size: StackSize, ss: StackSlot)
        requires
            self.is_valid(ss),
        ensures
            self.after_request(offset, size).is_valid(ss),
            self.after_request(offset, size).slot(ss) == self.slot(ss),
            self.after_request(offset, size).frame_size == self.frame_size,
    {
    }

    /// A new slot keeps the frame well formed, leaves the order of the outgoing slots and every
    /// slot that was there as they were, and is found under the reference that was next, which was
    /// not valid before.
    pub proof fn law_push_is_found(self, data: StackSlotData)
        requires
            self.well_formed(),
            self.has_room(),
        ensures
            self.pushed(data).well_formed(),
            self.is_ordered() ==> self.pushed(data).is_ordered(),
            !self.is_valid(self.next_key()),
            self.pushed(data).is_valid(self.next_key()),
            self.pushed(data).slot(self.next_key()) == data,
            forall|ss: StackSlot| #[trigger]
                self.is_valid(ss) ==> self.pushed(data).is_valid(ss) && self.pushed(data).slot(ss)
                    == self.slot(ss),
    {
        let next = self.pushed(data);
        assert forall|i: int| 0 <= i < self.outgoing.len() implies next.slot(
            #[trigger] self.outgoing[i],
        ) == self.slot(self.outgoing[i]) by {
            assert(self.is_valid(self.outgoing[i]));
        }
    }

    /// Changing an offset keeps the frame well formed and touches nothing else; unless the slot is
    /// a requested outgoing one, the order of those stays too.
    pub proof fn law_offset_is_local(self, ss: StackSlot, offset: StackOffset)
        requires
            self.well_formed(),
            self.is_valid(ss),
        ensures
            self.with_offset(ss, offset).well_formed(),
            self.is_ordered() && !self.outgoing.contains(ss) ==> self.with_offset(
                ss,
                offset,
            ).is_ordered(),
            forall|other: StackSlot| #[trigger]
                self.is_valid(other) && other != ss ==> self.with_offset(ss, offset).slot(other)
                    == self.slot(other),
    {
        let next = self.with_offset(ss, offset);
        assert forall|i: int| 0 <= i < self.outgoing.len() implies {
            &&& next.is_valid(#[trigger] self.outgoing[i])
            &&& next.slot(self.outgoing[i]).kind == StackSlotKind::OutgoingArg
            &&& !self.outgoing.contains(ss) ==> next.slot(self.outgoing[i]) == self.slot(
                self.outgoing[i],
            )
        } by {
            assert(self.is_valid(self.outgoing[i]));
        }
    }

    /// A new slot leaves the answer to every request for an outgoing slot that there is as it was,
    /// and makes no other outgoing slot.
    pub proof fn law_push_keeps_requests(
        self,
        data: StackSlotData,
        offset: StackOffset,
        size: StackSize,
    )
        requires
            self.well_formed(),
            self.is_ordered(),
            self.has_room(),
        ensures
            self.pushed(data).has_outgoing(offset, size) == self.has_outgoing(offset, size),
            self.has_outgoing(offset, size) ==> self.pushed(data).requested(offset, size)
                == self.requested(offset, size),
    {
        self.law_push_is_found(data);
        self.lemma_same_outgoing(self.pushed(data), offset, size);
    }

    /// A new offset of a slot that is not a requested outgoing one leaves the answer to every
    /// request for an outgoing slot that there is as it was, and makes no other outgoing slot.
    pub proof fn law_offset_keeps_requests(
        self,
        ss: StackSlot,
        new_offset: StackOffset,
        offset: StackOffset,
        size: StackSize,
    )
        requires
            self.well_formed(),
            self.is_ordered(),
            self.is_valid(ss),
            !self.outgoing.contains(ss),
        ensures
            ({
                let next = self.with_offset(ss, new_offset);
                &&& next.has_outgoing(offset, size) == self.has_outgoing(offset, size)
                &&& self.has_outgoing(offset, size) ==> next.requested(offset, size)
                    == self.requested(offset, size)
            }),
    {
        self.law_offset_is_local(ss, new_offset);
        self.lemma_same_outgoing(self.with_offset(ss, new_offset), offset, size);
    }

    /// Frames with the same outgoing slots answer requests for those in the same way.
    proof fn lemma_same_outgoing(self, next: StackFrame, offset: StackOffset, size: StackSize)
        requires
            self.well_formed(),
            self.is_ordered(),
            next.outgoing == self.outgoing,
            forall|i: int|
                0 <= i < self.outgoing.len() ==> next.slot(#[trigger] self.outgoing[i])
                    == self.slot(self.outgoing[i]),
        ensures
            next.is_ordered(),
            next.has_outgoing(offset, size) == self.has_outgoing(offset, size),
            self.has_outgoing(offset, size) ==> next.requested(offset, size) == self.requested(
                offset,
                size,
            ),
    {
        if self.has_outgoing(offset, size) {
            let index = choose|index: int| self.is_outgoing_at(offset, size, index);
            assert(next.is_outgoing_at(offset, size, index));
            let found = choose|index: int| next.is_outgoing_at(offset, size, index);
            next.lemma_outgoing_unique(offset, size, index, found);
        }
        if next.has_outgoing(offset, size) {
            let index = choose|index: int| next.is_outgoing_at(offset, size, index);
            assert(self.is_outgoing_at(offset, size, index));
        }
    }

    /// Whether a change can be made, and is not one of the offset of a requested outgoing slot.
    pub open spec fn allows(self, change: FrameChange) -> bool {
        match change {
            FrameChange::Push(_) => self.has_room(),
            FrameChange::Request(offset, size) => self.has_room() || self.has_outgoing(
                offset,
                size,
            ),
            FrameChange::SetOffset(ss, _) => self.is_valid(ss) && !self.outgoing.contains(ss),
            FrameChange::SetFrameSize(_) => true,
        }
    }

    /// The frame after a change.
    pub open spec fn changed(self, change: FrameChange) -> StackFrame {
        match change {
            FrameChange::Push(data) => self.pushed(data),
            FrameChange::Request(offset, size) => self.after_request(offset, size),
            FrameChange::SetOffset(ss, offset) => self.with_offset(ss, offset),
            FrameChange::SetFrameSize(frame_size) => StackFrame { frame_size, ..self },
        }
    }

    /// Whether each of several changes can be made after those before it.
    pub open spec fn allows_all(self, changes: Seq<FrameChange>) -> bool
        decreases changes.len(),
    {
        changes.len() == 0 || {
            &&& self.allows_all(changes.drop_last())
            &&& self.changed_by(changes.drop_last()).allows(changes.last())
        }
    }

    /// The frame after several changes.
    pub open spec fn changed_by(self, changes: Seq<FrameChange>) -> StackFrame
        decreases changes.len(),
    {
        if changes.len() == 0 {
            self
        } else {
            self.changed_by(changes.drop_last()).changed(changes.last())
        }
    }

    /// Setting the total size keeps the frame well formed and the order of the outgoing slots, and
    /// touches no slot.
    pub proof fn law_frame_size_is_local(self, frame_size: Option<StackSize>)
        requires
            self.well_formed(),
        ensures
            ({
                let next = self.changed(FrameChange::SetFrameSize(frame_size));
                &&& next.well_formed()
                &&& self.is_ordered() ==> next.is_ordered()
                &&& next.frame_size == frame_size
                &&& next.slots == self.slots
                &&& next.outgoing == self.outgoing
            }),
    {
        let next = self.changed(FrameChange::SetFrameSize(frame_size));
        assert forall|i: int| 0 <= i < next.outgoing.len() implies next.is_valid(
            #[trigger] next.outgoing[i],
        ) && next.slot(next.outgoing[i]).kind == StackSlotKind::OutgoingArg by {
            assert(self.is_valid(self.outgoing[i]));
        }
    }

    /// The total size stays what it was set to, whatever slots are made, requested or moved
    /// afterwards.
    pub proof fn law_frame_size_stays(self, changes: Seq<FrameChange>)
        requires
            self.allows_all(changes),
            forall|i: int|
                0 <= i < changes.len() ==> !(#[trigger] changes[i] is SetFrameSize),
        ensures
            self.changed_by(changes).frame_size == self.frame_size,
        decreases changes.len(),
    {
        if changes.len() > 0 {
            let fewer = changes.drop_last();
            assert forall|i: int| 0 <= i < fewer.len() implies !(#[trigger] fewer[i]
                is SetFrameSize) by {
                assert(fewer[i] == changes[i]);
            }
            self.law_frame_size_stays(fewer);
            assert(!(changes[changes.len() - 1] is SetFrameSize));
        }
    }

    /// One change keeps the frame well formed and ordered, and the answer to a request for an
    /// outgoing slot that there is.
    proof fn lemma_change_keeps_request(
        self,
        change: FrameChange,
        offset: StackOffset,
        size: StackSize,
    )
        requires
            self.well_formed(),
            self.is_ordered(),
            self.allows(change),
        ensures
            self.changed(change).well_formed(),
            self.changed(change).is_ordered(),
            self.has_outgoing(offset, size) ==> {
                &&& self.changed(change).has_outgoing(offset, size)
                &&& self.changed(change).requested(offset, size) == self.requested(offset, size)
            },
    {
        match change {
            FrameChange::Push(data) => {
                self.law_push_is_found(data);
                self.law_push_keeps_requests(data, offset, size);
            },
            FrameChange::Request(other_offset, other_size) => {
                self.law_request_is_met(other_offset, other_size);
                if self.has_outgoing(offset, size) {
                    if offset == other_offset && size == other_size {
                        self.law_request_is_reused(offset, size);
                    } else {
                        self.law_requests_are_independent(offset, size, other_offset, other_size);
                    }
                }
            },
            FrameChange::SetOffset(ss, new_offset) => {
                self.law_offset_is_local(ss, new_offset);
                self.law_offset_keeps_requests(ss, new_offset, offset, size);
            },
            FrameChange::SetFrameSize(frame_size) => {
                self.law_frame_size_is_local(frame_size);
                self.lemma_same_outgoing(self.changed(change), offset, size);
            },
        }
    }

    /// An outgoing slot that was made once answers the same request for good: whatever is made,
    /// requested, moved or set in between, the answer is the same slot and changes nothing.
    ///
    /// This leaves out that the frame is cleared, or the offset of a requested outgoing slot
    /// changed.
    pub proof fn law_answers_last(
        self,
        changes: Seq<FrameChange>,
        offset: StackOffset,
        size: StackSize,
    )
        requires
            self.well_formed(),
            self.is_ordered(),
            self.allows_all(changes),
        ensures
            self.changed_by(changes).well_formed(),
            self.changed_by(changes).is_ordered(),
            self.has_outgoing(offset, size) ==> {
                let last = self.changed_by(changes);
                &&& last.has_outgoing(offset, size)
                &&& last.requested(offset, size) == self.requested(offset, size)
                &&& last.after_request(offset, size) == last
            },
        decreases changes.len(),
    {
        if changes.len() > 0 {
            self.law_answers_last(changes.drop_last(), offset, size);
            self.changed_by(changes.drop_last()).lemma_change_keeps_request(
                changes.last(),
                offset,
                size,
            );
        }
    }

    /// Two requests are answered with the same slot exactly if their offsets and sizes are equal,
    /// whatever is made, requested, moved or set before the first and between the two.
    pub proof fn law_answers_identify(
        before: Seq<FrameChange>,
        offset: StackOffset,
        size: StackSize,
        between: Seq<FrameChange>,
        other_offset: StackOffset,
        other_size: StackSize,
    )
        requires
            StackFrame::empty().allows_all(before),
            ({
                let first = StackFrame::empty().changed_by(before);
                let next = first.after_request(offset, size);
                let second = next.changed_by(between);
                &&& first.allows(FrameChange::Request(offset, size))
                &&& next.allows_all(between)
                &&& second.allows(FrameChange::Request(other_offset, other_size))
            }),
        ensures
            ({
                let first = StackFrame::empty().changed_by(before);
                let second = first.after_request(offset, size).changed_by(between);
                first.requested(offset, size) == second.requested(other_offset, other_size) <==> {
                    offset == other_offset && size == other_size
                }
            }),
    {
        StackFrame::empty().law_answers_last(before, offset, size);
        let first = StackFrame::empty().changed_by(before);
        first.law_request_is_met(offset, size);
        first.law_request_is_reused(offset, size);
        let next = first.after_request(offset, size);
        next.law_answers_last(between, offset, size);
        let second = next.changed_by(between);
        if offset != other_offset || size != other_size {
            if second.has_outgoing(other_offset, other_size) {
                let i = choose|i: int| second.is_outgoing_at(offset, size, i);
                let j = choose|j: int| second.is_outgoing_at(other_offset, other_size, j);
                assert(i != j);
            } else {
                let i = choose|i: int| second.is_outgoing_at(offset, size, i);
                assert(second.is_valid(second.outgoing[i]));
            }
        }
    }

    /// Slots that are made one after the other are different, also where they hold the same: an
    /// incoming argument, unlike an outgoing one, gets a new slot each time.
    pub proof fn law_pushes_are_distinct(self, data: StackSlotData, other: StackSlotData)
        requires
            self.well_formed(),
            self.has_room(),
            self.pushed(data).has_room(),
        ensures
            ({
                let last = self.pushed(data).pushed(other);
                let first = self.next_key();
                let second = self.pushed(data).next_key();
                &&& first != second
                &&& last.is_valid(first) && last.is_valid(second)
                &&& last.slot(first) == data
                &&& last.slot(second) == other
            }),
    {
    }

    /// The slots are numbered from zero on: a reference is valid if its number is that of a slot,
    /// refers to the slot with its number, and the next one is that of the slot after the last.
    pub proof fn law_slots_are_numbered(self, ss: StackSlot)
        ensures
            self.is_valid(ss) <==> ss.0 < self.slots.len(),
            self.slot(ss) == self.slots[ss.0 as int],
            self.has_room() <==> self.slots.len() < u32::MAX,
            self.has_room() ==> self.next_key().0 == self.slots.len(),
    {
    }

    /// The frame without any stack slot holds nothing, and its size is not known.
    pub proof fn law_empty_frame()
        ensures
            StackFrame::empty().slots.len() == 0,
            StackFrame::empty().outgoing.len() == 0,
            StackFrame::empty().frame_size is None,
    {
    }

    /// A new slot comes after all the others, with the contents that were given, and nothing else
    /// in the frame changes.
    pub proof fn law_push_comes_last(self, data: StackSlotData)
        ensures
            self.pushed(data).slots.len() == self.slots.len() + 1,
            self.pushed(data).slots.last() == data,
            self.pushed(data).slots.drop_last() == self.slots,
            self.pushed(data).outgoing == self.outgoing,
            self.pushed(data).frame_size == self.frame_size,
    {
        assert(self.pushed(data).slots.drop_last() =~= self.slots);
    }

    /// The slot whose offset is set has that offset, and its kind and size as before; nothing else
    /// in the frame changes.
    pub proof fn law_offset_is_set(self, ss: StackSlot, offset: StackOffset)
        requires
            ss.0 < self.slots.len(),
        ensures
            ({
                let next = self.with_offset(ss, offset);
                &&& next.slots.len() == self.slots.len()
                &&& next.slots[ss.0 as int].offset == offset
                &&& next.slots[ss.0 as int].kind == self.slots[ss.0 as int].kind
                &&& next.slots[ss.0 as int].size == self.slots[ss.0 as int].size
                &&& next.slot(ss) == next.slots[ss.0 as int]
                &&& forall|i: int|
                    0 <= i < self.slots.len() && i != ss.0 ==> #[trigger] next.slots[i]
                        == self.slots[i]
                &&& next.outgoing == self.outgoing
                &&& next.frame_size == self.frame_size
            }),
    {
    }

    /// What a later offset of a slot says is all that counts, and the offset that a slot has can be
    /// set without any effect.
    pub proof fn law_last_offset_counts(
        self,
        ss: StackSlot,
        offset: StackOffset,
        other: StackOffset,
    )
        requires
            self.is_valid(ss),
        ensures
            self.with_offset(ss, other).with_offset(ss, offset) == self.with_offset(ss, offset),
            self.with_offset(ss, self.slot(ss).offset) == self,
    {
        assert(self.with_offset(ss, other).with_offset(ss, offset) =~= self.with_offset(
            ss,
            offset,
        ));
        assert(self.with_offset(ss, self.slot(ss).offset) =~= self);
    }

    /// A frame is well formed exactly if its slots can be numbered and the outgoing ones are listed
    /// once each.
    pub proof fn law_well_formed_frame(self)
        ensures
            self.well_formed() <==> {
                &&& self.slots.len() <= u32::MAX
                &&& forall|i: int|
                    0 <= i < self.outgoing.len() ==> (#[trigger] self.outgoing[i]).0
                        < self.slots.len() && self.slots[self.outgoing[i].0 as int].kind
                        == StackSlotKind::OutgoingArg
                &&& forall|i: int, j: int|
                    0 <= i < j < self.outgoing.len() ==> #[trigger] self.outgoing[i]
                        != #[trigger] self.outgoing[j]
            },
    {
        if forall|i: int, j: int|
            0 <= i < j < self.outgoing.len() ==> #[trigger] self.outgoing[i]
                != #[trigger] self.outgoing[j] {
            assert(self.outgoing.no_duplicates());
        }
        if self.well_formed() {
            assert forall|i: int| 0 <= i < self.outgoing.len() implies (
            #[trigger] self.outgoing[i]).0 < self.slots.len() by {
                assert(self.is_valid(self.outgoing[i]));
            }
        }
    }

    /// A frame is ordered exactly if of two outgoing slots the one that is listed first has the
    /// smaller offset or, at the same offset, the smaller size.
    pub proof fn law_ordered_frame(self)
        ensures
            self.is_ordered() <==> forall|i: int, j: int|
                0 <= i < j < self.outgoing.len() ==> {
                    let a = self.slots[(#[trigger] self.outgoing[i]).0 as int];
                    let b = self.slots[(#[trigger] self.outgoing[j]).0 as int];
                    a.offset < b.offset || a.offset == b.offset && a.size < b.size
                },
    {
        if self.is_ordered() {
            assert forall|i: int, j: int| 0 <= i < j < self.outgoing.len() implies {
                let a = self.slots[(#[trigger] self.outgoing[i]).0 as int];
                let b = self.slots[(#[trigger] self.outgoing[j]).0 as int];
                a.offset < b.offset || a.offset == b.offset && a.size < b.size
            } by {
                let a = self.slot(self.outgoing[i]);
                let b = self.slot(self.outgoing[j]);
                assert(precedes(a.offset, a.size, b.offset, b.size));
            }
        }
    }

    /// There is an outgoing slot for an offset and a size exactly if one with that offset and that
    /// size is listed.
    pub proof fn law_outgoing_is_listed(self, offset: StackOffset, size: StackSize)
        ensures
            self.has_outgoing(offset, size) <==> exists|i: int|
                0 <= i < self.outgoing.len() && self.slots[(#[trigger] self.outgoing[i]).0
                    as int].offset == offset && self.slots[self.outgoing[i].0 as int].size == size,
            forall|i: int| #[trigger]
                self.is_outgoing_at(offset, size, i) <==> {
                    &&& 0 <= i < self.outgoing.len()
                    &&& self.slots[self.outgoing[i].0 as int].offset == offset
                    &&& self.slots[self.outgoing[i].0 as int].size == size
                },
    {
        if self.has_outgoing(offset, size) {
            let i = choose|i: int| self.is_outgoing_at(offset, size, i);
            assert(self.slots[self.outgoing[i].0 as int].offset == offset);
        }
        if exists|i: int|
            0 <= i < self.outgoing.len() && self.slots[(#[trigger] self.outgoing[i]).0
                as int].offset == offset && self.slots[self.outgoing[i].0 as int].size == size {
            let i = choose|i: int|
                0 <= i < self.outgoing.len() && self.slots[(#[trigger] self.outgoing[i]).0
                    as int].offset == offset && self.slots[self.outgoing[i].0 as int].size == size;
            assert(self.is_outgoing_at(offset, size, i));
        }
    }

    /// A new outgoing slot comes after all the others, is an outgoing one with the offset and the
    /// size that were asked for, and is listed where it was told to be; the others are listed as
    /// before.
    pub proof fn law_new_outgoing_is_listed(
        self,
        offset: StackOffset,
        size: StackSize,
        index: int,
    )
        requires
            self.has_room(),
            0 <= index <= self.outgoing.len(),
        ensures
            ({
                let next = self.with_outgoing_at(offset, size, index);
                &&& next.slots.len() == self.slots.len() + 1
                &&& next.slots.drop_last() == self.slots
                &&& next.slots.last().kind == StackSlotKind::OutgoingArg
                &&& next.slots.last().offset == offset
                &&& next.slots.last().size == size
                &&& next.outgoing.len() == self.outgoing.len() + 1
                &&& next.outgoing[index].0 == self.slots.len()
                &&& next.outgoing.take(index) == self.outgoing.take(index)
                &&& next.outgoing.skip(index + 1) == self.outgoing.skip(index)
                &&& next.frame_size == self.frame_size
            }),
    {
        let next = self.with_outgoing_at(offset, size, index);
        assert(next.slots.drop_last() =~= self.slots);
        assert(next.outgoing.take(index) =~= self.outgoing.take(index));
        assert(next.outgoing.skip(index + 1) =~= self.outgoing.skip(index));
    }

    /// A request is answered with the outgoing slot that has the offset and the size, if one is
    /// listed, and changes nothing. Otherwise it is answered with a new one, after all the others,
    /// which is then listed among those that were.
    pub proof fn law_request_is_answered(self, offset: StackOffset, size: StackSize)
        requires
            self.well_formed(),
            self.is_ordered(),
            self.slots.len() < u32::MAX || self.has_outgoing(offset, size),
        ensures
            ({
                let next = self.after_request(offset, size);
                let ss = self.requested(offset, size);
                let listed = exists|i: int|
                    0 <= i < self.outgoing.len() && self.slots[(#[trigger] self.outgoing[i]).0
                        as int].offset == offset && self.slots[self.outgoing[i].0 as int].size
                        == size;
                &&& ss.0 < next.slots.len()
                &&& next.slots[ss.0 as int].kind == StackSlotKind::OutgoingArg
                &&& next.slots[ss.0 as int].offset == offset
                &&& next.slots[ss.0 as int].size == size
                &&& next.outgoing.contains(ss)
                &&& next.frame_size == self.frame_size
                &&& next.is_ordered()
                &&& listed ==> next == self
                &&& !listed ==> {
                    &&& ss.0 == self.slots.len()
                    &&& next.slots.len() == self.slots.len() + 1
                    &&& next.slots.drop_last() == self.slots
                    &&& next.outgoing.len() == self.outgoing.len() + 1
                    &&& forall|i: int|
                        0 <= i < self.outgoing.len() ==> next.outgoing.contains(
                            #[trigger] self.outgoing[i],
                        )
                }
            }),
    {
        self.law_request_is_met(offset, size);
        self.law_outgoing_is_listed(offset, size);
        let next = self.after_request(offset, size);
        let ss = self.requested(offset, size);
        if self.has_outgoing(offset, size) {
            let i = choose|i: int| self.is_outgoing_at(offset, size, i);
            assert(self.outgoing[i] == ss);
        } else {
            self.lemma_insertion_point_exists(offset, size);
            let index = choose|index: int| self.is_insertion_point(offset, size, index);
            self.law_new_outgoing_is_listed(offset, size, index);
            assert(next.outgoing[index] == ss);
            assert forall|i: int| 0 <= i < self.outgoing.len() implies next.outgoing.contains(
                #[trigger] self.outgoing[i],
            ) by {
                let moved = if i < index { i } else { i + 1 };
                assert(next.outgoing[moved] == self.outgoing[i]);
            }
        }
    }
}

} // verus!
