//! Logging to the emulator's serial port, one byte per character.
use vstd::prelude::*;
use crate::pic::PortOp;

verus! {

/// The serial port the emulator shows.
pub const QEMU_SERIAL_OUT: u16 = 0x3f8;

/// The serial writes that log the characters of `s`, each cut to its low byte.
pub open spec fn log_writes(s: Seq<char>) -> Seq<PortOp> {
    Seq::new(s.len(), |i: int| PortOp::Out { port: QEMU_SERIAL_OUT, value: s[i] as u8 })
}

/// The port writes that log `s`.
pub fn log(s: &str) -> (ops: Vec<PortOp>)
    ensures
        ops@ == log_writes(s@),
{
    let mut ops: Vec<PortOp> = Vec::new();
    for c in it: s.chars()
        invariant
            it.seq() == s@,
            ops@ == log_writes(s@.take(it.index() as int)),
    {
        proof {
            assert(s@.take(it.index() as int + 1) =~= s@.take(it.index() as int).push(c));
        }
        ops.push(PortOp::Out { port: QEMU_SERIAL_OUT, value: c as u8 });
        proof {
            assert(ops@ =~= log_writes(s@.take(it.index() as int + 1)));
        }
    }
    proof {
        assert(s@.take(s@.len() as int) =~= s@);
    }
    ops
}

/// The port writes that log `s` and then a line break (`"\r\n"`).
pub fn log_nl(s: &str) -> (ops: Vec<PortOp>)
    ensures
        ops@ == log_writes(s@).push(PortOp::Out { port: QEMU_SERIAL_OUT, value: 13 }).push(
            PortOp::Out { port: QEMU_SERIAL_OUT, value: 10 },
        ),
{
    let mut ops = log(s);
    ops.push(PortOp::Out { port: QEMU_SERIAL_OUT, value: 13 });
    ops.push(PortOp::Out { port: QEMU_SERIAL_OUT, value: 10 });
    ops
}

} // verus!
