//! The bytes exchanged with the real-time clock over I2C: a read names the
//! first time-keeping register and gets the seven registers back; a write
//! sends that register number followed by the seven register values.
use vstd::prelude::*;
use crate::calendar::DateTime;
use crate::clock_serde::{encode_registers, serialize};

verus! {

/// I2C address of the real-time clock.
pub const RTC_ADDR: u8 = 0x68;

/// Number of the first time-keeping register (seconds).
pub const START_REGISTER: u8 = 0x00;

/// The bytes of the I2C write that sets the clock to `datetime`: the
/// register number of the seconds register, then the seven register values.
pub fn write_frame(datetime: &DateTime) -> (frame: [u8; 8])
    ensures
        frame@ == seq![START_REGISTER] + encode_registers(datetime@),
{
    let mut registers = [0u8; 7];
    serialize(datetime, &mut registers);
    let mut frame = [0u8; 8];
    frame[0] = START_REGISTER;
    let mut i: usize = 0;
    while i < 7
        invariant
            0 <= i <= 7,
            registers@ == encode_registers(datetime@),
            frame@.len() == 8,
            frame@[0] == START_REGISTER,
            forall|j: int| 0 <= j < i ==> frame@[j + 1] == registers@[j],
        decreases 7 - i,
    {
        frame[i + 1] = registers[i];
        i = i + 1;
    }
    assert(frame@ =~= seq![START_REGISTER] + encode_registers(datetime@));
    frame
}

} // verus!
