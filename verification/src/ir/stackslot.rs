//! Stack slots.
//!
//! The `StackSlotData` struct keeps track of a single stack slot in a function.

use crate::ir::entities::StackSlot;
use crate::ir::frame::{precedes, FrameChange, StackFrame};
use crate::ir::types::Type;
use crate::text::{
    decimal, law_decimal_denotes, law_decimal_is_distinct, law_signed_decimal_is_distinct,
    push_decimal, push_signed_decimal, signed_decimal,
};
use std::ops::Index;
use std::str::FromStr;
use vstd::arithmetic::div_mod::lemma_small_mod;
use vstd::arithmetic::power::pow;
use vstd::arithmetic::power2::*;
use vstd::bits::lemma_u32_low_bits_mask_is_mod;
use vstd::prelude::*;
use vstd::string::*;

verus! {

/// The size of an object on the stack, or the size of a stack frame.
///
/// This is not `usize`, which depends on the host platform: sizes here are those of the target
/// platform.
pub type StackSize = u32;

/// A stack offset.
///
/// The location of a stack offset relative to a stack pointer or frame pointer.
pub type StackOffset = i32;

/// The kind of a stack slot.
#[derive(Clone, Copy, Debug, PartialEq, Eq, Structural)]
pub enum StackSlotKind {
    /// A spill slot. This is a stack slot created by the register allocator.
    SpillSlot,
    /// A local variable. This is a chunk of local stack memory for use by the `stack_load` and
    /// `stack_store` instructions.
    Local,
    /// An incoming function argument.
    ///
    /// If the current function has more arguments than fits in registers, the remaining arguments
    /// are passed on the stack by the caller. These incoming arguments are represented as SSA
    /// values assigned to incoming stack slots.
    IncomingArg,
    /// An outgoing function argument.
    ///
    /// When preparing to call a function whose arguments don't fit in registers, outgoing argument
    /// stack slots are used to represent individual arguments in the outgoing call frame. These
    /// stack slots are only valid while setting up a call.
    OutgoingArg,
}

impl StackSlotKind {
    /// The name of the kind in the text format.
    pub open spec fn text(self) -> Seq<char> {
        match self {
            StackSlotKind::Local => "local"@,
            StackSlotKind::SpillSlot => "spill_slot"@,
            StackSlotKind::IncomingArg => "incoming_arg"@,
            StackSlotKind::OutgoingArg => "outgoing_arg"@,
        }
    }

    /// Get the name of the kind in the text format.
    pub fn name(&self) -> (name: &'static str)
        ensures
            name@ == self.text(),
    {
        match *self {
            StackSlotKind::Local => "local",
            StackSlotKind::SpillSlot => "spill_slot",
            StackSlotKind::IncomingArg => "incoming_arg",
            StackSlotKind::OutgoingArg => "outgoing_arg",
        }
    }

    /// Write the kind as text.
    pub fn to_string(&self) -> (s: String)
        ensures
            s@ == self.text(),
    {
        self.name().to_owned()
    }
}

/// Whether two strings hold the same text.
fn same_text(a: &str, b: &str) -> (same: bool)
    ensures
        same == (a@ == b@),
{
    a.to_owned() == b.to_owned()
}

impl FromStr for StackSlotKind {
    type Err = ();

    /// Parse the name of a kind.
    fn from_str(s: &str) -> (kind: Result<StackSlotKind, ()>)
        ensures
            forall|k: StackSlotKind| kind == Ok::<StackSlotKind, ()>(k) <==> s@ == #[trigger] k.text(),
    {
        proof {
            assert forall|a: StackSlotKind, b: StackSlotKind| #[trigger]
                a.text() == #[trigger] b.text() implies a == b by {
                law_kind_names_are_distinct(a, b);
            }
            assert(StackSlotKind::Local.text() == "local"@);
            assert(StackSlotKind::SpillSlot.text() == "spill_slot"@);
            assert(StackSlotKind::IncomingArg.text() == "incoming_arg"@);
            assert(StackSlotKind::OutgoingArg.text() == "outgoing_arg"@);
        }
        if same_text(s, "local") {
            Ok(StackSlotKind::Local)
        } else if same_text(s, "spill_slot") {
            Ok(StackSlotKind::SpillSlot)
        } else if same_text(s, "incoming_arg") {
            Ok(StackSlotKind::IncomingArg)
        } else if same_text(s, "outgoing_arg") {
            Ok(StackSlotKind::OutgoingArg)
        } else {
            Err(())
        }
    }
}

/// No two kinds have the same name, so the name of a kind parses as that kind and as no other.
pub proof fn law_kind_names_are_distinct(a: StackSlotKind, b: StackSlotKind)
    requires
        a.text() == b.text(),
    ensures
        a == b,
{
    reveal_strlit("local");
    reveal_strlit("spill_slot");
    reveal_strlit("incoming_arg");
    reveal_strlit("outgoing_arg");
    assert("local"@.len() == 5);
    assert("spill_slot"@.len() == 10);
    assert("incoming_arg"@[0] == 'i');
    assert("outgoing_arg"@[0] == 'o');
}

/// The kinds are spelled as in the text format, letter by letter.
pub proof fn law_kind_names_are_spelled()
    ensures
        StackSlotKind::Local.text() == seq!['l', 'o', 'c', 'a', 'l'],
        StackSlotKind::SpillSlot.text() == seq!['s', 'p', 'i', 'l', 'l', '_', 's', 'l', 'o', 't'],
        StackSlotKind::IncomingArg.text() == seq![
            'i', 'n', 'c', 'o', 'm', 'i', 'n', 'g', '_', 'a', 'r', 'g',
        ],
        StackSlotKind::OutgoingArg.text() == seq![
            'o', 'u', 't', 'g', 'o', 'i', 'n', 'g', '_', 'a', 'r', 'g',
        ],
{
    reveal_strlit("local");
    reveal_strlit("spill_slot");
    reveal_strlit("incoming_arg");
    reveal_strlit("outgoing_arg");
    assert(StackSlotKind::Local.text() =~= seq!['l', 'o', 'c', 'a', 'l']);
    assert(StackSlotKind::SpillSlot.text() =~= seq![
        's', 'p', 'i', 'l', 'l', '_', 's', 'l', 'o', 't',
    ]);
    assert(StackSlotKind::IncomingArg.text() =~= seq![
        'i', 'n', 'c', 'o', 'm', 'i', 'n', 'g', '_', 'a', 'r', 'g',
    ]);
    assert(StackSlotKind::OutgoingArg.text() =~= seq![
        'o', 'u', 't', 'g', 'o', 'i', 'n', 'g', '_', 'a', 'r', 'g',
    ]);
}

/// A power of two has a single bit, and a number is a multiple of it if it has no bit below that.
proof fn lemma_power_of_two_bits(d: u32)
    requires
        is_pow2(d as int),
    ensures
        d != 0,
        d & (d - 1) as u32 == 0,
        forall|n: u32| #[trigger] (n & (d - 1) as u32) == 0 <==> n % d == 0,
{
    is_pow2_equiv(d as int);
    let e = choose|i: nat| pow(2, i) == d;
    assert(d == pow2(e));
    if e >= 32 {
        lemma2_to64();
        if e > 32 {
            lemma_pow2_strictly_increases(32, e);
        }
    }
    lemma_pow2_pos(e);
    assert forall|n: u32| #[trigger] (n & (d - 1) as u32) == n % d by {
        lemma_u32_low_bits_mask_is_mod(n, e);
    }
    assert(d & (d - 1) as u32 == d % d);
}

/// A number with a single bit is a power of two.
proof fn lemma_single_bit_is_power_of_two(d: u32)
    requires
        d != 0,
        d & (d - 1) as u32 == 0,
    ensures
        is_pow2(d as int),
    decreases d,
{
    reveal(is_pow2);
    if d != 1 {
        let half = d / 2;
        assert(d % 2 == 0 && half != 0 && half & (half - 1) as u32 == 0) by (bit_vector)
            requires
                d != 0,
                d != 1,
                d & (d - 1) as u32 == 0,
                half == d / 2,
        ;
        lemma_single_bit_is_power_of_two(half);
    }
}

/// The rightmost bit of `size | max_align` is the largest power of two that divides both.
proof fn lemma_rightmost_bit(size: u32, max_align: u32, x: u32, negated: u32, align: u32)
    requires
        is_pow2(max_align as int),
        x == size | max_align,
        negated == 0x1_0000_0000 - x || x == 0 && negated == 0,
        align == x & negated,
    ensures
        is_pow2(align as int),
        size % align == 0,
        max_align % align == 0,
        forall|other: int|
            is_pow2(other) && size as int % other == 0 && max_align as int % other == 0 ==> other
                <= align,
{
    lemma_power_of_two_bits(max_align);
    assert(align != 0 && align & (align - 1) as u32 == 0 && size & (align - 1) as u32 == 0
        && max_align & (align - 1) as u32 == 0) by (bit_vector)
        requires
            max_align != 0,
            x == size | max_align,
            negated == 0x1_0000_0000 - x || x == 0 && negated == 0,
            align == x & negated,
    ;
    lemma_single_bit_is_power_of_two(align);
    lemma_power_of_two_bits(align);
    assert forall|other: int|
        is_pow2(other) && size as int % other == 0 && max_align as int % other == 0 implies other
        <= align by {
        reveal(is_pow2);
        if other > max_align {
            lemma_small_mod(max_align as nat, other as nat);
        }
        let d = other as u32;
        lemma_power_of_two_bits(d);
        assert(size & (d - 1) as u32 == 0);
        assert(max_align & (d - 1) as u32 == 0);
        assert(d <= align) by (bit_vector)
            requires
                max_align != 0,
                d != 0,
                d & (d - 1) as u32 == 0,
                size & (d - 1) as u32 == 0,
                max_align & (d - 1) as u32 == 0,
                x == size | max_align,
                negated == 0x1_0000_0000 - x || x == 0 && negated == 0,
                align == x & negated,
        ;
    }
}

/// Contents of a stack slot.
#[derive(Clone, Copy, Debug)]
pub struct StackSlotData {
    /// The kind of stack slot.
    pub kind: StackSlotKind,
    /// Size of stack slot in bytes.
    pub size: StackSize,
    /// Offset of stack slot relative to the stack pointer in the caller.
    ///
    /// On Intel ISAs, the base address is the stack pointer *before* the return address was
    /// pushed. On RISC ISAs, the base address is the value of the stack pointer on entry to the
    /// function.
    ///
    /// For `OutgoingArg` stack slots, the offset is relative to the current function's stack
    /// pointer immediately before the call.
    pub offset: StackOffset,
}

impl StackSlotData {
    /// Create a stack slot with the specified byte size.
    pub fn new(kind: StackSlotKind, size: StackSize) -> (data: StackSlotData)
        ensures
            data == (StackSlotData { kind, size, offset: 0 }),
    {
        StackSlotData { kind, size, offset: 0 }
    }

    /// Whether a stack slot of this size can be aligned to `align` bytes where the stack pointer
    /// is a multiple of `max_align`.
    pub open spec fn allows_alignment(self, max_align: int, align: int) -> bool {
        &&& is_pow2(align)
        &&& self.size as int % align == 0
        &&& max_align % align == 0
    }

    /// Get the alignment in bytes of this stack slot given the stack pointer alignment, a power
    /// of two.
    ///
    /// It is the largest power of two that divides both the size of the slot and `max_align`.
    pub fn alignment(&self, max_align: StackSize) -> (align: StackSize)
        requires
            is_pow2(max_align as int),
        ensures
            self.allows_alignment(max_align as int, align as int),
            forall|other: int| #[trigger]
                self.allows_alignment(max_align as int, other) ==> other <= align,
    {
        // The largest power of two that divides both is the rightmost bit that is set in either.
        let x: u32 = self.size | max_align;
        let negated: u32 = 0u32.wrapping_sub(x);
        proof {
            lemma_rightmost_bit(self.size, max_align, x, negated, x & negated);
        }
        x & negated
    }

    /// The text form of a stack slot: its kind and size, and its offset unless that is zero.
    pub open spec fn text(self) -> Seq<char> {
        let head = self.kind.text() + " "@ + decimal(self.size as nat);
        if self.offset != 0 {
            head + ", offset "@ + signed_decimal(self.offset as int)
        } else {
            head
        }
    }

    /// Write the stack slot as text, such as `incoming_arg 4, offset 8`.
    pub fn to_string(&self) -> (s: String)
        ensures
            s@ == self.text(),
    {
        let mut s = self.kind.to_string();
        s.append(" ");
        push_decimal(&mut s, self.size);
        if self.offset != 0 {
            s.append(", offset ");
            push_signed_decimal(&mut s, self.offset);
        }
        s
    }
}

/// What is aligned as far as a slot allows is aligned to a power of two that divides the size of
/// the slot and the alignment of the stack pointer, and to no smaller one than there is.
pub proof fn law_alignment_is_the_largest(data: StackSlotData, max_align: int, align: int)
    requires
        data.allows_alignment(max_align, align),
        forall|other: int| #[trigger]
            data.allows_alignment(max_align, other) ==> other <= align,
    ensures
        is_pow2(align),
        data.size as int % align == 0,
        max_align % align == 0,
        forall|other: int| #[trigger]
            is_pow2(other) && data.size as int % other == 0 && max_align % other == 0 ==> other
                <= align,
{
    assert forall|other: int| #[trigger]
        is_pow2(other) && data.size as int % other == 0 && max_align % other == 0 implies other
        <= align by {
        assert(data.allows_alignment(max_align, other));
    }
}

/// The text form of a stack slot is the name of its kind, a space, its size and, unless it is at
/// offset zero, `, offset ` and the offset. That holds of every kind.
pub proof fn law_slot_text_is_complete(data: StackSlotData)
    ensures
        ({
            let text = data.text();
            let name = data.kind.text();
            let size = decimal(data.size as nat);
            let end = name.len() + 1 + size.len();
            &&& end <= text.len()
            &&& text.take(name.len() as int) == name
            &&& text[name.len() as int] == ' '
            &&& text.subrange(name.len() as int + 1, end as int) == size
            &&& data.offset == 0 ==> text.len() == end
            &&& data.offset != 0 ==> text.skip(end as int) == seq![
                ',', ' ', 'o', 'f', 'f', 's', 'e', 't', ' ',
            ] + signed_decimal(data.offset as int)
        }),
{
    reveal_strlit(" ");
    reveal_strlit(", offset ");
    let text = data.text();
    let name = data.kind.text();
    let size = decimal(data.size as nat);
    let end = name.len() + 1 + size.len();
    assert(text.take(name.len() as int) =~= name);
    assert(text.subrange(name.len() as int + 1, end as int) =~= size);
    if data.offset != 0 {
        assert(text.skip(end as int) =~= seq![',', ' ', 'o', 'f', 'f', 's', 'e', 't', ' ']
            + signed_decimal(data.offset as int));
    }
}

/// The text form determines the stack slot: slots of another kind, size or offset have another.
pub proof fn law_slot_text_is_distinct(a: StackSlotData, b: StackSlotData)
    requires
        a.text() == b.text(),
    ensures
        a.kind == b.kind,
        a.size == b.size,
        a.offset == b.offset,
{
    law_slot_text_is_complete(a);
    law_slot_text_is_complete(b);
    law_kind_names_are_spelled();
    law_decimal_denotes(a.size as nat);
    law_decimal_denotes(b.size as nat);
    let text = a.text();
    let name = a.kind.text();
    assert(text[0] == name[0]) by {
        assert(text.take(name.len() as int)[0] == text[0]);
    }
    assert(text[0] == b.kind.text()[0]) by {
        assert(text.take(b.kind.text().len() as int)[0] == text[0]);
    }
    assert(a.kind == b.kind);
    lemma_size_ends(a, b);
    lemma_size_ends(b, a);
    let size = decimal(a.size as nat);
    assert(size =~= decimal(b.size as nat));
    law_decimal_is_distinct(a.size as nat, b.size as nat);
    let end = (name.len() + 1 + size.len()) as int;
    if a.offset != 0 || b.offset != 0 {
        assert(text.skip(end).len() == text.len() - end);
        assert(text.skip(end).skip(9) =~= signed_decimal(a.offset as int));
        assert(text.skip(end).skip(9) =~= signed_decimal(b.offset as int));
        law_signed_decimal_is_distinct(a.offset as int, b.offset as int);
    }
}

/// The size in a text form ends where there is no digit.
proof fn lemma_size_ends(a: StackSlotData, b: StackSlotData)
    requires
        a.text() == b.text(),
        a.kind == b.kind,
    ensures
        decimal(b.size as nat).len() <= decimal(a.size as nat).len(),
{
    law_slot_text_is_complete(a);
    law_slot_text_is_complete(b);
    law_decimal_denotes(b.size as nat);
    let text = a.text();
    let start = a.kind.text().len() + 1;
    let one = decimal(a.size as nat);
    let two = decimal(b.size as nat);
    if one.len() < two.len() {
        let end = (start + one.len()) as int;
        assert(text.subrange(start as int, (start + two.len()) as int)[one.len() as int]
            == text[end]);
        assert('0' as int <= two[one.len() as int] as int);
        if a.offset != 0 {
            assert(text.skip(end)[0] == text[end]);
        }
    }
}

/// Stack frame manager.
///
/// Keep track of all the stack slots used by a function.
#[derive(Debug)]
pub struct StackSlots {
    /// All allocated stack slots.
    slots: Vec<StackSlotData>,
    /// All the outgoing stack slots, ordered by offset.
    outgoing: Vec<StackSlot>,
    /// The total size of the stack frame.
    ///
    /// This is the distance from the stack pointer in the current function to the stack pointer in
    /// the calling function, so it includes a pushed return address as well as space for outgoing
    /// call arguments.
    ///
    /// This is set when the stack frame is laid out.
    pub frame_size: Option<StackSize>,
}

impl View for StackSlots {
    type V = StackFrame;

    closed spec fn view(&self) -> StackFrame {
        StackFrame {
            slots: self.slots@,
            outgoing: self.outgoing@,
            frame_size: self.frame_size,
        }
    }
}

/// What a stack slot manager is seen to hold is what it holds.
proof fn law_view_is_faithful(sss: StackSlots)
    ensures
        sss@.slots == sss.slots@,
        sss@.outgoing == sss.outgoing@,
        sss@.frame_size == sss.frame_size,
{
}

impl Clone for StackSlots {
    fn clone(&self) -> (copy: StackSlots)
        ensures
            copy@ == self@,
    {
        StackSlots {
            slots: self.slots.clone(),
            outgoing: self.outgoing.clone(),
            frame_size: self.frame_size,
        }
    }
}

/// Stack slot manager functions that behave mostly like an entity map.
impl StackSlots {
    /// Create an empty stack slot manager.
    pub fn new() -> (slots: StackSlots)
        ensures
            slots@ == StackFrame::empty(),
            slots@.well_formed(),
            slots@.is_ordered(),
    {
        StackSlots { slots: Vec::new(), outgoing: Vec::new(), frame_size: None }
    }

    /// Clear out everything.
    pub fn clear(&mut self)
        ensures
            final(self)@ == StackFrame::empty(),
            final(self)@.well_formed(),
            final(self)@.is_ordered(),
    {
        self.slots.clear();
        self.outgoing.clear();
        self.frame_size = None;
    }

    /// Allocate a new stack slot.
    ///
    /// This function should be primarily used by the text format parser. There are more convenient
    /// functions for creating specific kinds of stack slots below.
    pub fn push(&mut self, data: StackSlotData) -> (ss: StackSlot)
        requires
            old(self)@.well_formed(),
            old(self)@.has_room(),
        ensures
            final(self)@ == old(self)@.pushed(data),
            ss == old(self)@.next_key(),
            final(self)@.well_formed(),
            old(self)@.is_ordered() ==> final(self)@.is_ordered(),
    {
        proof {
            self@.law_push_is_found(data);
        }
        let ss: StackSlot = self.next_key();
        self.slots.push(data);
        ss
    }

    /// Check if `ss` is a valid stack slot reference.
    pub fn is_valid(&self, ss: StackSlot) -> (valid: bool)
        ensures
            valid == self@.is_valid(ss),
    {
        (ss.0 as usize) < self.slots.len()
    }

    /// Set the offset of a stack slot.
    ///
    /// The outgoing stack slots made by `get_outgoing_arg` are found by their offset and stay in
    /// order only as long as it is not changed here.
    pub fn set_offset(&mut self, ss: StackSlot, offset: StackOffset)
        requires
            old(self)@.well_formed(),
            old(self)@.is_valid(ss),
        ensures
            final(self)@ == old(self)@.with_offset(ss, offset),
            final(self)@.well_formed(),
            old(self)@.is_ordered() && !old(self)@.outgoing.contains(ss)
                ==> final(self)@.is_ordered(),
    {
        proof {
            self@.law_offset_is_local(ss, offset);
        }
        let index: usize = ss.0 as usize;
        let data = StackSlotData {
            kind: self.slots[index].kind,
            size: self.slots[index].size,
            offset,
        };
        self.slots.set(index, data);
    }

    /// Get the total size of the stack frame, if it has been laid out.
    pub fn frame_size(&self) -> (frame_size: Option<StackSize>)
        ensures
            frame_size == self@.frame_size,
    {
        self.frame_size
    }

    /// Set the total size of the stack frame.
    pub fn set_frame_size(&mut self, frame_size: Option<StackSize>)
        requires
            old(self)@.well_formed(),
        ensures
            final(self)@ == old(self)@.changed(FrameChange::SetFrameSize(frame_size)),
            final(self)@.well_formed(),
            old(self)@.is_ordered() ==> final(self)@.is_ordered(),
    {
        proof {
            self@.law_frame_size_is_local(frame_size);
        }
        self.frame_size = frame_size;
    }

    /// Get all the stack slot keys, in order.
    pub fn keys(&self) -> (keys: Vec<StackSlot>)
        requires
            self@.well_formed(),
        ensures
            keys@ == Seq::new(self@.slots.len(), |i: int| StackSlot(i as u32)),
    {
        let mut keys: Vec<StackSlot> = Vec::new();
        let mut i: usize = 0;
        while i < self.slots.len()
            invariant
                self@.well_formed(),
                i <= self@.slots.len() == self.slots.len(),
                keys@ == Seq::new(i as nat, |i: int| StackSlot(i as u32)),
            decreases self.slots.len() - i,
        {
            keys.push(StackSlot(i as u32));
            i += 1;
        }
        keys
    }

    /// Get a reference to the next stack slot that would be created by `push()`.
    ///
    /// This should just be used by the parser.
    pub fn next_key(&self) -> (ss: StackSlot)
        requires
            self@.has_room(),
        ensures
            ss == self@.next_key(),
    {
        StackSlot(self.slots.len() as u32)
    }
}

impl Index<StackSlot> for StackSlots {
    type Output = StackSlotData;

    fn index(&self, ss: StackSlot) -> (data: &StackSlotData)
        ensures
            *data == self@.slot(ss),
    {
        &self.slots[ss.0 as usize]
    }
}

impl vstd::std_specs::core::IndexSpecImpl<StackSlot> for StackSlots {
    open spec fn index_req(&self, ss: &StackSlot) -> bool {
        self@.is_valid(*ss)
    }
}

/// Higher-level stack frame manipulation functions.
impl StackSlots {
    /// Create a new spill slot for spilling values of type `ty`.
    pub fn make_spill_slot(&mut self, ty: Type) -> (ss: StackSlot)
        requires
            old(self)@.well_formed(),
            old(self)@.has_room(),
        ensures
            final(self)@ == old(self)@.pushed(
                (StackSlotData {
                    kind: StackSlotKind::SpillSlot,
                    size: ty.byte_size() as u32,
                    offset: 0,
                }),
            ),
            ss == old(self)@.next_key(),
            final(self)@.well_formed(),
            old(self)@.is_ordered() ==> final(self)@.is_ordered(),
    {
        self.push(StackSlotData::new(StackSlotKind::SpillSlot, ty.bytes()))
    }

    /// Create a stack slot representing an incoming function argument.
    ///
    /// The end of the slot must be a stack offset too.
    pub fn make_incoming_arg(&mut self, ty: Type, offset: StackOffset) -> (ss: StackSlot)
        requires
            old(self)@.well_formed(),
            old(self)@.has_room(),
            offset + ty.byte_size() <= StackOffset::MAX,
        ensures
            final(self)@ == old(self)@.pushed(
                (StackSlotData {
                    kind: StackSlotKind::IncomingArg,
                    size: ty.byte_size() as u32,
                    offset,
                }),
            ),
            ss == old(self)@.next_key(),
            final(self)@.well_formed(),
            old(self)@.is_ordered() ==> final(self)@.is_ordered(),
    {
        let mut data = StackSlotData::new(StackSlotKind::IncomingArg, ty.bytes());
        data.offset = offset;
        self.push(data)
    }

    /// Look for an outgoing stack slot by binary search.
    ///
    /// Return where it is listed or, if there is none, where it would have to be.
    fn search_outgoing(&self, offset: StackOffset, size: StackSize) -> (place: Result<
        usize,
        usize,
    >)
        requires
            self@.well_formed(),
        ensures
            match place {
                Ok(index) => self@.is_outgoing_at(offset, size, index as int),
                Err(index) => {
                    &&& index <= self@.outgoing.len()
                    &&& self@.is_ordered() ==> self@.is_insertion_point(
                        offset,
                        size,
                        index as int,
                    )
                },
            },
    {
        let mut low: usize = 0;
        let mut high: usize = self.outgoing.len();
        while low < high
            invariant
                self@.well_formed(),
                low <= high <= self.outgoing.len(),
                self@.is_ordered() ==> forall|i: int|
                    0 <= i < low ==> {
                        let a = self@.slot(#[trigger] self@.outgoing[i]);
                        precedes(a.offset, a.size, offset, size)
                    },
                self@.is_ordered() ==> forall|i: int|
                    high <= i < self@.outgoing.len() ==> {
                        let a = self@.slot(#[trigger] self@.outgoing[i]);
                        precedes(offset, size, a.offset, a.size)
                    },
            decreases high - low,
        {
            let middle: usize = low + (high - low) / 2;
            assert(self@.is_valid(self@.outgoing[middle as int]));
            let data: &StackSlotData = &self.slots[self.outgoing[middle].0 as usize];
            if data.offset == offset && data.size == size {
                return Ok(middle);
            }
            if data.offset < offset || data.offset == offset && data.size < size {
                low = middle + 1;
            } else {
                high = middle;
            }
        }
        Err(low)
    }

    /// Get a stack slot representing an outgoing argument.
    ///
    /// This may create a new stack slot, or reuse an existing outgoing stack slot with the
    /// requested offset and size.
    ///
    /// The requested offset is relative to this function's stack pointer immediately before making
    /// the call. The end of a new slot must be a stack offset too.
    pub fn get_outgoing_arg(&mut self, ty: Type, offset: StackOffset) -> (ss: StackSlot)
        requires
            old(self)@.well_formed(),
            old(self)@.is_ordered() && old(self)@.has_outgoing(offset, ty.byte_size() as u32) || {
                &&& old(self)@.has_room()
                &&& offset + ty.byte_size() <= StackOffset::MAX
            },
        ensures
            ({
                let size = ty.byte_size() as u32;
                // In order, what is found and what is made are determined.
                &&& old(self)@.is_ordered() ==> {
                    &&& final(self)@ == old(self)@.after_request(offset, size)
                    &&& ss == old(self)@.requested(offset, size)
                    &&& final(self)@.is_ordered()
                }
                // Out of order, a slot may be overlooked, but what is returned is as requested.
                &&& {
                    ||| final(self)@ == old(self)@ && exists|index: int|
                        old(self)@.is_outgoing_at(offset, size, index)
                            && ss == old(self)@.outgoing[index]
                    ||| ss == old(self)@.next_key() && exists|index: int|
                        0 <= index <= old(self)@.outgoing.len() && final(self)@ == #[trigger]
                        old(self)@.with_outgoing_at(offset, size, index)
                }
                &&& final(self)@.well_formed()
            }),
    {
        let size: StackSize = ty.bytes();

        // Look for an existing outgoing stack slot with the same offset and size.
        let inspos: usize = match self.search_outgoing(offset, size) {
            Ok(index) => {
                proof {
                    if self@.is_ordered() {
                        let found = choose|i: int| self@.is_outgoing_at(offset, size, i);
                        self@.lemma_outgoing_unique(offset, size, index as int, found);
                    }
                }
                return self.outgoing[index];
            },
            Err(index) => index,
        };
        proof {
            self@.lemma_with_outgoing_at(offset, size, inspos as int);
            if self@.is_ordered() {
                let place = choose|i: int| self@.is_insertion_point(offset, size, i);
                self@.lemma_insertion_point_unique(offset, size, inspos as int, place);
            }
        }

        // No existing slot found. Make one and insert it into `outgoing`.
        let ghost before = self@;
        let mut data = StackSlotData::new(StackSlotKind::OutgoingArg, size);
        data.offset = offset;
        let ss: StackSlot = self.next_key();
        self.slots.push(data);
        self.outgoing.insert(inspos, ss);
        assert(self@ == before.with_outgoing_at(offset, size, inspos as int));
        ss
    }
}

} // verus!
