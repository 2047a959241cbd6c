use taiga::arch_gdt::{self, GdtDescriptor, SegmentDescriptor};
use taiga::arch_idt::{init_idt, GateDescriptor, IdtDescriptor, IDT_TA_INTERRUPT_GATE};
use taiga::file::{load_step, open_outcome, read_step, root_step, LoadStage, LoadStep, ReadStage, ReadStep, RootStage, RootStep};
use taiga::gdt;
use taiga::idt::IdtDescEntry;
use taiga::keyboard::{keyboard_interrupt_handler, parse_key_input, KeyAction, ShiftState};
use taiga::log::{log, log_nl, QEMU_SERIAL_OUT};
use taiga::once_lock::{OnceLocStatus, OnceLock};
use taiga::pic::{init_ps2, io_wait, pic_end_m, pic_end_s, remap_pic, PortOp, PIC1_COMMAND, PIC1_DATA, PIC2_COMMAND, PIC2_DATA};
use taiga::uefi::Status;

#[test]
fn keys_of_the_qwerty_layout() {
    assert_eq!(parse_key_input(16, false), 'q');
    assert_eq!(parse_key_input(16, true), 'Q');
    assert_eq!(parse_key_input(2, false), '1');
    assert_eq!(parse_key_input(2, true), '!');
    assert_eq!(parse_key_input(43, true), '|');
    assert_eq!(parse_key_input(40, true), '"');
    assert_eq!(parse_key_input(55, true), '*');
    assert_eq!(parse_key_input(57, false), ' ');
    assert_eq!(parse_key_input(1, false), '\0');
    assert_eq!(parse_key_input(59, false), '\0');
    assert_eq!(parse_key_input(0x9e, true), '\0');
}

#[test]
fn shift_keys_change_case() {
    let mut state = ShiftState::new();
    assert_eq!(keyboard_interrupt_handler(&mut state, 30), KeyAction::PutChar('a'));
    assert_eq!(keyboard_interrupt_handler(&mut state, 0x2a), KeyAction::Nothing);
    assert!(state.left_shift);
    assert_eq!(keyboard_interrupt_handler(&mut state, 30), KeyAction::PutChar('A'));
    assert_eq!(keyboard_interrupt_handler(&mut state, 0x36), KeyAction::Nothing);
    assert_eq!(keyboard_interrupt_handler(&mut state, 0xaa), KeyAction::Nothing);
    // the right shift key is still held
    assert_eq!(keyboard_interrupt_handler(&mut state, 3), KeyAction::PutChar('@'));
    assert_eq!(keyboard_interrupt_handler(&mut state, 0xb6), KeyAction::Nothing);
    assert_eq!(state, ShiftState::new());
    assert_eq!(keyboard_interrupt_handler(&mut state, 3), KeyAction::PutChar('2'));
}

#[test]
fn editing_keys() {
    let mut state = ShiftState::new();
    assert_eq!(keyboard_interrupt_handler(&mut state, 0x0e), KeyAction::ClearChar);
    assert_eq!(keyboard_interrupt_handler(&mut state, 0x4d), KeyAction::MoveCursor(1));
    assert_eq!(keyboard_interrupt_handler(&mut state, 0x4b), KeyAction::MoveCursor(-1));
    assert_eq!(keyboard_interrupt_handler(&mut state, 0xe0), KeyAction::Nothing);
    assert_eq!(keyboard_interrupt_handler(&mut state, 1), KeyAction::Nothing);
    assert_eq!(keyboard_interrupt_handler(&mut state, 0x9e), KeyAction::Nothing);
    assert_eq!(state, ShiftState::new());
}

fn out(port: u16, value: u8) -> PortOp {
    PortOp::Out { port, value }
}

#[test]
fn pic_remap_sequence() {
    let ops = remap_pic(0xb8, 0x8e);
    assert_eq!(ops.len(), 20);
    assert_eq!(ops[0], out(PIC1_COMMAND, 0x11));
    assert_eq!(ops[1], PortOp::Wait);
    assert_eq!(ops[2], out(PIC2_COMMAND, 0x11));
    assert_eq!(ops[4], out(PIC1_DATA, 0x20));
    assert_eq!(ops[6], out(PIC2_DATA, 0x28));
    assert_eq!(ops[8], out(PIC1_DATA, 4));
    assert_eq!(ops[10], out(PIC2_DATA, 2));
    assert_eq!(ops[12], out(PIC1_DATA, 1));
    assert_eq!(ops[14], out(PIC2_DATA, 1));
    // the saved masks are written back last
    assert_eq!(ops[16], out(PIC1_DATA, 0xb8));
    assert_eq!(ops[18], out(PIC2_DATA, 0x8e));
    assert!(ops.iter().skip(1).step_by(2).all(|op| *op == PortOp::Wait));
    let ps2 = init_ps2(0xb8, 0x8e);
    assert_eq!(ps2[..20], ops[..]);
    assert_eq!(ps2[20..], [out(PIC1_DATA, 0b1111_1101), out(PIC2_DATA, 0xff)]);
    assert_eq!(pic_end_m(), vec![out(PIC1_COMMAND, 0x20)]);
    assert_eq!(pic_end_s(), vec![out(PIC2_COMMAND, 0x20), out(PIC1_COMMAND, 0x20)]);
    let mut waits = vec![];
    io_wait(&mut waits);
    assert_eq!(waits, vec![PortOp::Wait]);
}

#[test]
fn serial_log_bytes() {
    assert_eq!(log("ok"), vec![out(QEMU_SERIAL_OUT, b'o'), out(QEMU_SERIAL_OUT, b'k')]);
    assert_eq!(log(""), vec![]);
    // a character is cut to its low byte
    assert_eq!(log("\u{141}"), vec![out(QEMU_SERIAL_OUT, 0x41)]);
    assert_eq!(log_nl("a"), vec![out(QEMU_SERIAL_OUT, b'a'), out(QEMU_SERIAL_OUT, 13), out(QEMU_SERIAL_OUT, 10)]);
}

#[test]
fn gate_descriptors() {
    let g = GateDescriptor::new(0x1234_5678_9abc_def0, 0x08, IDT_TA_INTERRUPT_GATE);
    assert_eq!(g.offset_0, 0xdef0);
    assert_eq!(g.offset_1, 0x9abc);
    // the high piece is shifted by 16, not 32
    assert_eq!(g.offset_2, 0x5678_0000);
    assert_eq!(g.segment_selector, 0x08);
    assert_eq!(g.type_attr, 0b1000_1110);
    assert_eq!(g.ist_and_reserved_0, 0);
    assert_eq!(GateDescriptor::cut_offset(0xffff), (0xffff, 0, 0));
    let idt = init_idt(0x1000, 0x2000, 0x3000, 0x4000);
    assert_eq!(idt[0x8].offset_0, 0x1000);
    assert_eq!(idt[0xd].offset_0, 0x2000);
    assert_eq!(idt[0xe].offset_0, 0x3000);
    assert_eq!(idt[0x21].offset_0, 0x4000);
    assert_eq!(idt[0x20], GateDescriptor::empty());
    let d = IdtDescriptor::new(0xdead_0000);
    assert_eq!((d.size, d.offset), (0x0fff, 0xdead_0000));
}

#[test]
fn idt_entry_offset_round_trip() {
    let mut e = IdtDescEntry { offset_0: 0, selector: 8, ist: 0, type_attr: 0x8e, offset_1: 0, offset_2: 0, ignore: 0 };
    e.set_offset(0x1234_5678_9abc_def0);
    assert_eq!((e.offset_0, e.offset_1, e.offset_2), (0xdef0, 0x9abc, 0x1234_5678));
    let back = e.offset_0 as u64 | (e.offset_1 as u64) << 16 | (e.offset_2 as u64) << 32;
    assert_eq!(back, 0x1234_5678_9abc_def0);
    assert_eq!((e.selector, e.type_attr), (8, 0x8e));
}

#[test]
fn segment_tables() {
    let table = arch_gdt::Gdt::const_default();
    assert_eq!(table.kernel_code.access_byte, 0x9a);
    assert_eq!(table.kernel_data.access_byte, 0x92);
    assert_eq!(table.kernel_code.limit_and_flags, 0xa0);
    assert_eq!(table.null.access_byte, 0);
    let s = SegmentDescriptor::new(0x92, 0xa0);
    assert_eq!((s.limit_0, s.base_0, s.base_1, s.base_2), (0, 0, 0, 0));
    assert_eq!(GdtDescriptor::new(0x5000).offset, 0x5000);
    let with_user_null = gdt::Gdt::const_default();
    assert_eq!(with_user_null.user_null.access_byte, 0);
    assert_eq!(with_user_null.user_code.access_byte, 0x9a);
    assert_eq!(with_user_null.kernel_data.limit_1_flags, 0xa0);
}

#[test]
fn once_lock_is_written_once() {
    let mut lock: OnceLock<u32> = OnceLock::new();
    assert_eq!(lock.get(), None);
    assert_eq!(lock.init(|| 5), OnceLocStatus::Success);
    assert_eq!(lock.get(), Some(&5));
    assert_eq!(lock.init(|| 6), OnceLocStatus::InitErr);
    assert_eq!(lock.get(), Some(&5));
    assert_eq!(*lock.get_or_init::<_, ()>(|| 7), 5);
    if let Some(v) = lock.get_mut() {
        *v = 8;
    }
    assert_eq!(*lock.get_value_unchecked(), 8);
    let mut fresh: OnceLock<u32> = OnceLock::new();
    assert_eq!(*fresh.get_or_init::<_, ()>(|| 7), 7);
    assert_eq!(fresh.get_mut(), Some(&mut 7));
}

#[test]
fn firmware_status_codes() {
    assert!(Status::Success.is_ok());
    assert!(!Status::Success.is_err());
    assert!(Status::BufferTooSmall.is_err());
    assert_eq!(Status::Success.code(), 0);
    assert_eq!(Status::LoadError.code(), 1);
    assert_eq!(Status::BufferTooSmall.code(), 5);
    assert_eq!(Status::Aborted.code(), 21);
}

#[test]
fn finding_the_root_directory() {
    assert_eq!(root_step(RootStage::LoadedImage, Status::Success, true), RootStep::Next(RootStage::FileSystem));
    assert_eq!(root_step(RootStage::FileSystem, Status::Success, true), RootStep::Next(RootStage::OpenVolume));
    assert_eq!(root_step(RootStage::OpenVolume, Status::Success, true), RootStep::Found);
    assert_eq!(root_step(RootStage::FileSystem, Status::Unsupported, true), RootStep::Failed(Status::Aborted));
    assert_eq!(root_step(RootStage::OpenVolume, Status::Success, false), RootStep::Failed(Status::Aborted));
    assert_eq!(open_outcome(Status::Success, true), Ok(()));
    assert_eq!(open_outcome(Status::NotFound, true), Err(Status::Aborted));
    assert_eq!(open_outcome(Status::Success, false), Err(Status::Aborted));
}

#[test]
fn reading_a_file() {
    // asking for the size is expected to answer that the buffer is too small
    assert_eq!(read_step(ReadStage::InfoSize, Status::BufferTooSmall), ReadStep::Next(ReadStage::Info));
    assert_eq!(read_step(ReadStage::InfoSize, Status::Success), ReadStep::Next(ReadStage::Info));
    assert_eq!(read_step(ReadStage::InfoSize, Status::DeviceError), ReadStep::Failed(Status::BadBufferSize));
    assert_eq!(read_step(ReadStage::Info, Status::DeviceError), ReadStep::Failed(Status::Aborted));
    assert_eq!(read_step(ReadStage::Info, Status::Success), ReadStep::Next(ReadStage::Data));
    assert_eq!(read_step(ReadStage::Data, Status::DeviceError), ReadStep::Failed(Status::LoadError));
    assert_eq!(read_step(ReadStage::Data, Status::Success), ReadStep::Done);
    assert_eq!(load_step(LoadStage::Open, true), LoadStep::Next(LoadStage::Read));
    assert_eq!(load_step(LoadStage::Read, true), LoadStep::Done);
    assert_eq!(load_step(LoadStage::Read, false), LoadStep::Failed(Status::Aborted));
}

#[test]
fn status_from_firmware_code() {
    assert_eq!(Status::from_code(0), Some(Status::Success));
    assert_eq!(Status::from_code(5), Some(Status::BufferTooSmall));
    assert_eq!(Status::from_code(31), Some(Status::EndOfFile));
    assert_eq!(Status::from_code(0x8000_0004), Some(Status::WarnBufferTooSmall));
    // 29 and 30 are skipped by the firmware's table
    assert_eq!(Status::from_code(29), None);
    assert_eq!(Status::from_code(36), None);
    for code in [0usize, 1, 21, 35, 0x8000_0001, 0x8000_0007] {
        assert_eq!(Status::from_code(code).unwrap().code(), code);
    }
}
