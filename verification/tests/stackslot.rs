use cretonne::ir::entities::StackSlot;
use cretonne::ir::function::Function;
use cretonne::ir::stackslot::{StackSlotData, StackSlotKind, StackSlots};
use cretonne::ir::types::{LaneType, Type};
use std::str::FromStr;

const I32: Type = Type { lane: LaneType::I32, lanes: 1 };
const I64: Type = Type { lane: LaneType::I64, lanes: 1 };

#[test]
fn stack_slot() {
    let mut func = Function::new();

    let ss0 = func.stack_slots.push(StackSlotData::new(StackSlotKind::IncomingArg, 4));
    let ss1 = func.stack_slots.push(StackSlotData::new(StackSlotKind::SpillSlot, 8));
    assert_eq!(ss0.to_string(), "ss0");
    assert_eq!(ss1.to_string(), "ss1");

    assert_eq!(func.stack_slots[ss0].size, 4);
    assert_eq!(func.stack_slots[ss1].size, 8);

    assert_eq!(func.stack_slots[ss0].to_string(), "incoming_arg 4");
    assert_eq!(func.stack_slots[ss1].to_string(), "spill_slot 8");
}

#[test]
fn outgoing() {
    let mut sss = StackSlots::new();

    let ss0 = sss.get_outgoing_arg(I32, 8);
    let ss1 = sss.get_outgoing_arg(I32, 4);
    let ss2 = sss.get_outgoing_arg(I64, 8);

    assert_eq!(sss[ss0].offset, 8);
    assert_eq!(sss[ss0].size, 4);

    assert_eq!(sss[ss1].offset, 4);
    assert_eq!(sss[ss1].size, 4);

    assert_eq!(sss[ss2].offset, 8);
    assert_eq!(sss[ss2].size, 8);

    assert_eq!(sss.get_outgoing_arg(I32, 8), ss0);
    assert_eq!(sss.get_outgoing_arg(I32, 4), ss1);
    assert_eq!(sss.get_outgoing_arg(I64, 8), ss2);
}

#[test]
fn alignment() {
    let slot = StackSlotData::new(StackSlotKind::SpillSlot, 8);

    assert_eq!(slot.alignment(4), 4);
    assert_eq!(slot.alignment(8), 8);
    assert_eq!(slot.alignment(16), 8);

    let slot2 = StackSlotData::new(StackSlotKind::Local, 24);

    assert_eq!(slot2.alignment(4), 4);
    assert_eq!(slot2.alignment(8), 8);
    assert_eq!(slot2.alignment(16), 8);
    assert_eq!(slot2.alignment(32), 8);
}

#[test]
fn alignment_edges() {
    assert_eq!(StackSlotData::new(StackSlotKind::Local, 0).alignment(16), 16);
    assert_eq!(StackSlotData::new(StackSlotKind::Local, 7).alignment(16), 1);
    assert_eq!(StackSlotData::new(StackSlotKind::Local, 64).alignment(1), 1);
    assert_eq!(StackSlotData::new(StackSlotKind::Local, 0x8000_0000).alignment(0x8000_0000), 0x8000_0000);
    assert_eq!(StackSlotData::new(StackSlotKind::Local, u32::MAX).alignment(0x8000_0000), 1);
}

#[test]
fn kind_names() {
    let kinds = [
        (StackSlotKind::Local, "local"),
        (StackSlotKind::SpillSlot, "spill_slot"),
        (StackSlotKind::IncomingArg, "incoming_arg"),
        (StackSlotKind::OutgoingArg, "outgoing_arg"),
    ];
    for (kind, name) in kinds.iter() {
        assert_eq!(kind.to_string(), *name);
        assert_eq!(kind.name(), *name);
        assert_eq!(StackSlotKind::from_str(name), Ok(*kind));
        assert_eq!(name.parse::<StackSlotKind>(), Ok(*kind));
    }
    assert_eq!(StackSlotKind::from_str(""), Err(()));
    assert_eq!(StackSlotKind::from_str("Local"), Err(()));
    assert_eq!(StackSlotKind::from_str("local "), Err(()));
    assert_eq!(StackSlotKind::from_str("spill"), Err(()));
}

#[test]
fn slot_text() {
    let mut data = StackSlotData::new(StackSlotKind::OutgoingArg, 1024);
    assert_eq!(data.to_string(), "outgoing_arg 1024");
    data.offset = 16;
    assert_eq!(data.to_string(), "outgoing_arg 1024, offset 16");
    data.offset = -8;
    assert_eq!(data.to_string(), "outgoing_arg 1024, offset -8");
    data.offset = i32::MIN;
    data.size = u32::MAX;
    data.kind = StackSlotKind::Local;
    assert_eq!(data.to_string(), "local 4294967295, offset -2147483648");
    assert_eq!(StackSlot(0).to_string(), "ss0");
    assert_eq!(StackSlot(4294967294).to_string(), "ss4294967294");
    assert_eq!(StackSlot(1009).to_string(), "ss1009");
}

#[test]
fn type_sizes() {
    let sizes = [
        (LaneType::Void, 0),
        (LaneType::B1, 1),
        (LaneType::B8, 1),
        (LaneType::B16, 2),
        (LaneType::B32, 4),
        (LaneType::B64, 8),
        (LaneType::I8, 1),
        (LaneType::I16, 2),
        (LaneType::I32, 4),
        (LaneType::I64, 8),
        (LaneType::F32, 4),
        (LaneType::F64, 8),
    ];
    for (lane, bytes) in sizes.iter() {
        assert_eq!(Type::scalar(*lane).bytes(), *bytes);
    }
    assert_eq!(Type { lane: LaneType::I32, lanes: 4 }.bytes(), 16);
    assert_eq!(Type { lane: LaneType::B1, lanes: 9 }.bytes(), 2);
    assert_eq!(Type { lane: LaneType::F64, lanes: 256 }.bytes(), 2048);
}

#[test]
fn keys_and_validity() {
    let mut sss = StackSlots::new();
    assert_eq!(sss.keys(), vec![]);
    assert!(!sss.is_valid(StackSlot(0)));
    assert_eq!(sss.next_key(), StackSlot(0));

    let ss0 = sss.make_spill_slot(I64);
    assert_eq!(ss0, StackSlot(0));
    assert_eq!(sss[ss0].kind, StackSlotKind::SpillSlot);
    assert_eq!(sss[ss0].size, 8);
    assert_eq!(sss[ss0].offset, 0);

    let expected = sss.next_key();
    let ss1 = sss.make_incoming_arg(I32, -12);
    assert_eq!(ss1, expected);
    assert_eq!(sss[ss1].kind, StackSlotKind::IncomingArg);
    assert_eq!(sss[ss1].size, 4);
    assert_eq!(sss[ss1].offset, -12);

    assert_eq!(sss.keys(), vec![ss0, ss1]);
    assert!(sss.is_valid(ss1));
    assert!(!sss.is_valid(StackSlot(2)));
    assert!(!sss.is_valid(StackSlot(u32::MAX)));
}

#[test]
fn incoming_arg_at_the_end() {
    let mut sss = StackSlots::new();
    let ss = sss.make_incoming_arg(I32, i32::MAX - 4);
    assert_eq!(sss[ss].offset, i32::MAX - 4);
}

#[test]
fn offsets_are_local() {
    let mut sss = StackSlots::new();
    let ss0 = sss.make_spill_slot(I32);
    let ss1 = sss.get_outgoing_arg(I32, 0);
    sss.set_offset(ss0, -4);
    assert_eq!(sss[ss0].offset, -4);
    assert_eq!(sss[ss0].size, 4);
    assert_eq!(sss[ss0].kind, StackSlotKind::SpillSlot);
    assert_eq!(sss[ss1].offset, 0);
    assert_eq!(sss.get_outgoing_arg(I32, 0), ss1);
}

#[test]
fn pushed_outgoing_slots_are_not_reused() {
    let mut sss = StackSlots::new();
    let mut data = StackSlotData::new(StackSlotKind::OutgoingArg, 4);
    data.offset = 8;
    let ss0 = sss.push(data);
    let ss1 = sss.get_outgoing_arg(I32, 8);
    assert_ne!(ss0, ss1);
    assert_eq!(sss.get_outgoing_arg(I32, 8), ss1);
}

#[test]
fn many_outgoing_args() {
    let mut sss = StackSlots::new();
    let offsets = [32, -8, 0, 16, 24, 8, -16, 40];
    let mut slots = Vec::new();
    for offset in offsets.iter() {
        slots.push(sss.get_outgoing_arg(I32, *offset));
        slots.push(sss.get_outgoing_arg(I64, *offset));
    }
    assert_eq!(sss.keys(), slots);
    for (i, offset) in offsets.iter().enumerate() {
        assert_eq!(sss.get_outgoing_arg(I64, *offset), slots[2 * i + 1]);
        assert_eq!(sss.get_outgoing_arg(I32, *offset), slots[2 * i]);
        assert_eq!(sss[slots[2 * i]].kind, StackSlotKind::OutgoingArg);
    }
    assert_eq!(sss.keys().len(), 16);
    // The size decides, not the type.
    assert_eq!(sss.get_outgoing_arg(Type::scalar(LaneType::F64), 0), slots[5]);
}

#[test]
fn cleared() {
    let mut sss = StackSlots::new();
    sss.get_outgoing_arg(I32, 8);
    sss.make_spill_slot(I64);
    sss.frame_size = Some(64);
    let copy = sss.clone();
    sss.clear();
    assert_eq!(sss.keys(), vec![]);
    assert_eq!(sss.frame_size, None);
    assert_eq!(copy.keys().len(), 2);
    assert_eq!(copy.frame_size, Some(64));
    // The slot from before is not reused.
    assert_eq!(sss.get_outgoing_arg(I64, 8), StackSlot(0));
    assert_eq!(sss[StackSlot(0)].size, 8);
}

#[test]
fn outgoing_answers_last() {
    let mut sss = StackSlots::new();
    let ss = sss.get_outgoing_arg(I32, 8);
    let spill = sss.make_spill_slot(I32);
    let incoming = sss.make_incoming_arg(I32, 8);
    let mut data = StackSlotData::new(StackSlotKind::OutgoingArg, 4);
    data.offset = 8;
    let pushed = sss.push(data);
    let other = sss.get_outgoing_arg(I64, 8);
    sss.set_offset(spill, 8);
    sss.set_offset(incoming, -8);
    sss.set_offset(pushed, 12);
    sss.frame_size = Some(32);
    assert_eq!(sss.get_outgoing_arg(I32, 8), ss);
    assert_eq!(sss.get_outgoing_arg(I64, 8), other);
    assert_eq!(sss.keys().len(), 5);
}

#[test]
fn outgoing_answers_identify() {
    let mut sss = StackSlots::new();
    let types = [I32, I64, Type::scalar(LaneType::F32), Type::scalar(LaneType::I8)];
    let offsets = [-4, 0, 8];
    for a in types.iter() {
        for x in offsets.iter() {
            for b in types.iter() {
                for y in offsets.iter() {
                    let first = sss.get_outgoing_arg(*a, *x);
                    sss.make_spill_slot(I64);
                    let second = sss.get_outgoing_arg(*b, *y);
                    assert_eq!(first == second, a.bytes() == b.bytes() && x == y);
                }
            }
        }
    }
}

#[test]
fn incoming_args_are_distinct() {
    let mut sss = StackSlots::new();
    let ss0 = sss.make_incoming_arg(I32, 4);
    let ss1 = sss.make_incoming_arg(I32, 4);
    assert_ne!(ss0, ss1);
    assert_eq!(sss[ss0].to_string(), sss[ss1].to_string());
    assert_eq!(sss.keys(), vec![ss0, ss1]);
}

#[test]
fn frame_size_is_kept() {
    let mut sss = StackSlots::new();
    assert_eq!(sss.frame_size(), None);
    let ss0 = sss.get_outgoing_arg(I32, 8);
    sss.set_frame_size(Some(48));
    assert_eq!(sss.frame_size(), Some(48));
    assert_eq!(sss.frame_size, Some(48));
    assert_eq!(sss.keys(), vec![ss0]);
    assert_eq!(sss.get_outgoing_arg(I32, 8), ss0);

    // No change of the slots changes it.
    let ss1 = sss.make_spill_slot(I64);
    sss.make_incoming_arg(I32, 0);
    sss.get_outgoing_arg(I64, 8);
    sss.set_offset(ss1, -8);
    sss.push(StackSlotData::new(StackSlotKind::Local, 16));
    assert_eq!(sss.frame_size(), Some(48));

    sss.frame_size = Some(0);
    assert_eq!(sss.frame_size(), Some(0));
    sss.set_frame_size(None);
    assert_eq!(sss.frame_size(), None);
}
