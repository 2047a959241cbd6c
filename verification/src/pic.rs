//! The two 8259 programmable interrupt controllers: remapping their vectors
//! and acknowledging interrupts, as the sequence of port operations it takes.
use vstd::prelude::*;

verus! {

pub const PIC1_COMMAND: u16 = 0x20;
pub const PIC2_COMMAND: u16 = 0xa0;
pub const PIC1_DATA: u16 = 0x21;
pub const PIC2_DATA: u16 = 0xa1;
pub const PIC_EOI: u8 = 0x20;

/// Start the initialisation sequence.
pub const ICW1_INIT: u8 = 0x10;
/// A fourth initialisation word follows.
pub const ICW1_ICW4: u8 = 0x01;
/// 8086 mode.
pub const ICW1_8086: u8 = 0x01;

/// One operation on the I/O ports.
#[derive(Clone, Copy, PartialEq, Eq, Structural, Debug)]
pub enum PortOp {
    /// Write a byte to a port.
    Out { port: u16, value: u8 },
    /// Wait for the bus to settle (a read of the unused port 0x80).
    Wait,
}

/// The operations that remap the controllers' vectors to 0x20 and 0x28,
/// given the interrupt masks `a1` and `a2` that were read from their data
/// ports first; the masks are written back at the end.
pub open spec fn remap_sequence(a1: u8, a2: u8) -> Seq<PortOp> {
    seq![
        PortOp::Out { port: PIC1_COMMAND, value: ICW1_INIT | ICW1_ICW4 },
        PortOp::Wait,
        PortOp::Out { port: PIC2_COMMAND, value: ICW1_INIT | ICW1_ICW4 },
        PortOp::Wait,
        PortOp::Out { port: PIC1_DATA, value: 0x20 },
        PortOp::Wait,
        PortOp::Out { port: PIC2_DATA, value: 0x28 },
        PortOp::Wait,
        PortOp::Out { port: PIC1_DATA, value: 4 },
        PortOp::Wait,
        PortOp::Out { port: PIC2_DATA, value: 2 },
        PortOp::Wait,
        PortOp::Out { port: PIC1_DATA, value: ICW1_8086 },
        PortOp::Wait,
        PortOp::Out { port: PIC2_DATA, value: ICW1_8086 },
        PortOp::Wait,
        PortOp::Out { port: PIC1_DATA, value: a1 },
        PortOp::Wait,
        PortOp::Out { port: PIC2_DATA, value: a2 },
        PortOp::Wait,
    ]
}

fn out_and_wait(ops: &mut Vec<PortOp>, port: u16, value: u8)
    ensures
        final(ops)@ == old(ops)@.push(PortOp::Out { port, value }).push(PortOp::Wait),
{
    ops.push(PortOp::Out { port, value });
    io_wait(ops);
}

/// Waits for the I/O bus to settle, by a read of the unused port 0x80.
pub fn io_wait(ops: &mut Vec<PortOp>)
    ensures
        final(ops)@ == old(ops)@.push(PortOp::Wait),
{
    ops.push(PortOp::Wait);
}

/// The port operations that remap the controllers, the masks `a1` and `a2`
/// having been read from the two data ports (each read followed by a wait).
pub fn remap_pic(a1: u8, a2: u8) -> (ops: Vec<PortOp>)
    ensures
        ops@ == remap_sequence(a1, a2),
{
    let mut ops: Vec<PortOp> = Vec::new();
    out_and_wait(&mut ops, PIC1_COMMAND, ICW1_INIT | ICW1_ICW4);
    out_and_wait(&mut ops, PIC2_COMMAND, ICW1_INIT | ICW1_ICW4);
    out_and_wait(&mut ops, PIC1_DATA, 0x20);
    out_and_wait(&mut ops, PIC2_DATA, 0x28);
    out_and_wait(&mut ops, PIC1_DATA, 4);
    out_and_wait(&mut ops, PIC2_DATA, 2);
    out_and_wait(&mut ops, PIC1_DATA, ICW1_8086);
    out_and_wait(&mut ops, PIC2_DATA, ICW1_8086);
    out_and_wait(&mut ops, PIC1_DATA, a1);
    out_and_wait(&mut ops, PIC2_DATA, a2);
    assert(ops@ =~= remap_sequence(a1, a2));
    ops
}

/// Acknowledges an interrupt from the first controller.
pub fn pic_end_m() -> (ops: Vec<PortOp>)
    ensures
        ops@ == seq![PortOp::Out { port: PIC1_COMMAND, value: PIC_EOI }],
{
    let mut ops: Vec<PortOp> = Vec::new();
    ops.push(PortOp::Out { port: PIC1_COMMAND, value: PIC_EOI });
    assert(ops@ =~= seq![PortOp::Out { port: PIC1_COMMAND, value: PIC_EOI }]);
    ops
}

/// Acknowledges an interrupt from the second controller (and so the first too).
pub fn pic_end_s() -> (ops: Vec<PortOp>)
    ensures
        ops@ == seq![
            PortOp::Out { port: PIC2_COMMAND, value: PIC_EOI },
            PortOp::Out { port: PIC1_COMMAND, value: PIC_EOI },
        ],
{
    let mut ops: Vec<PortOp> = Vec::new();
    ops.push(PortOp::Out { port: PIC2_COMMAND, value: PIC_EOI });
    ops.push(PortOp::Out { port: PIC1_COMMAND, value: PIC_EOI });
    assert(ops@ =~= seq![
        PortOp::Out { port: PIC2_COMMAND, value: PIC_EOI },
        PortOp::Out { port: PIC1_COMMAND, value: PIC_EOI },
    ]);
    ops
}

/// The port operations that start the keyboard: the controllers are
/// remapped, then every line but the keyboard's (line 1) is masked.
/// (Interrupts are enabled afterwards.)
pub fn init_ps2(a1: u8, a2: u8) -> (ops: Vec<PortOp>)
    ensures
        ops@ == remap_sequence(a1, a2).push(PortOp::Out { port: PIC1_DATA, value: 0b11111101 }).push(
            PortOp::Out { port: PIC2_DATA, value: 0b11111111 },
        ),
{
    let mut ops = remap_pic(a1, a2);
    ops.push(PortOp::Out { port: PIC1_DATA, value: 0b11111101 });
    ops.push(PortOp::Out { port: PIC2_DATA, value: 0b11111111 });
    ops
}

} // verus!
