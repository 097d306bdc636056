//! Processor state: general registers with their 8/16/32-bit views, the
//! flags register and the record of the last flag-producing operation from
//! which the arithmetic flags are derived on demand.
use vstd::prelude::*;

verus! {

pub const FLAG_CARRY: i32 = 1;
pub const FLAG_PARITY: i32 = 4;
pub const FLAG_ADJUST: i32 = 16;
pub const FLAG_ZERO: i32 = 64;
pub const FLAG_SIGN: i32 = 128;
pub const FLAG_DIRECTION: i32 = 1024;
pub const FLAG_OVERFLOW: i32 = 2048;
/// The six arithmetic flags that can be derived lazily.
pub const FLAGS_ALL: i32 = FLAG_CARRY | FLAG_PARITY | FLAG_ADJUST | FLAG_ZERO | FLAG_SIGN
    | FLAG_OVERFLOW;

/// Operand widths are recorded as the index of their sign bit.
pub const OPSIZE_8: i32 = 7;
pub const OPSIZE_16: i32 = 15;
pub const OPSIZE_32: i32 = 31;

pub const EAX: i32 = 0;
pub const ECX: i32 = 1;
pub const EDX: i32 = 2;
pub const EBX: i32 = 3;
pub const ESP: i32 = 4;
pub const EBP: i32 = 5;
pub const ESI: i32 = 6;
pub const EDI: i32 = 7;

pub const AX: i32 = 0;
pub const CX: i32 = 1;
pub const DX: i32 = 2;

pub const AL: i32 = 0;
pub const CL: i32 = 1;
pub const AH: i32 = 4;

pub open spec fn valid_opsize(s: i32) -> bool {
    s == OPSIZE_8 || s == OPSIZE_16 || s == OPSIZE_32
}

/// Carry out of the sign bit of `op1 + op2 == add_result`.
pub open spec fn derived_cf(op1: i32, op2: i32, add_result: i32, size: i32) -> bool {
    (op1 ^ ((op1 ^ op2) & (op2 ^ add_result))) >> size & 1 != 0
}

/// Even parity of the low byte of `result`.
pub open spec fn derived_pf(result: i32) -> bool {
    (0x9669i32 << 2i32) >> ((result ^ (result >> 4i32)) & 15) & FLAG_PARITY != 0
}

/// Carry out of bit 3 of `op1 + op2 == add_result`.
pub open spec fn derived_af(op1: i32, op2: i32, add_result: i32) -> bool {
    (op1 ^ op2 ^ add_result) & FLAG_ADJUST != 0
}

/// The bits of `result` up to and including the sign bit are all zero.
pub open spec fn derived_zf(result: i32, size: i32) -> bool {
    (!result & result.wrapping_sub(1)) >> size & 1 != 0
}

pub open spec fn derived_sf(result: i32, size: i32) -> bool {
    result >> size & 1 != 0
}

/// Signed overflow of `op1 + op2 == add_result`.
pub open spec fn derived_of(op1: i32, op2: i32, add_result: i32, size: i32) -> bool {
    ((op1 ^ add_result) & (op2 ^ add_result)) >> size & 1 != 0
}

pub open spec fn low8(x: u32) -> u32 {
    x % 0x100
}

pub open spec fn high8(x: u32) -> u32 {
    x / 0x100 % 0x100
}

pub open spec fn low16(x: u32) -> u32 {
    x % 0x10000
}

pub open spec fn with_low8(x: u32, v: u32) -> u32 {
    (x - x % 0x100 + v) as u32
}

pub open spec fn with_high8(x: u32, v: u32) -> u32 {
    (x - (x / 0x100 % 0x100) * 0x100 + v * 0x100) as u32
}

pub open spec fn with_low16(x: u32, v: u32) -> u32 {
    (x - x % 0x10000 + v) as u32
}

/// Two's-complement reading of an 8-bit value.
pub open spec fn signed8(v: u32) -> int {
    if v >= 0x80 {
        v - 0x100
    } else {
        v as int
    }
}

/// Two's-complement reading of a 16-bit value.
pub open spec fn signed16(v: u32) -> int {
    if v >= 0x8000 {
        v - 0x10000
    } else {
        v as int
    }
}

/// Two's-complement reading of a 32-bit value.
pub open spec fn signed32(v: u32) -> int {
    if v >= 0x8000_0000 {
        v - 0x1_0000_0000
    } else {
        v as int
    }
}

/// Register slot and byte that an 8-bit register index names: AL, CL, DL, BL
/// are the low bytes of the first four slots, AH, CH, DH, BH their second bytes.
pub open spec fn reg8_slot(r: int) -> int {
    if r < 4 {
        r
    } else {
        r - 4
    }
}

#[derive(Clone, Copy)]
pub struct Cpu {
    /// EAX, ECX, EDX, EBX, ESP, EBP, ESI, EDI.
    pub reg32: [u32; 8],
    pub flags: i32,
    /// Flag bits whose value is to be derived from the last operation.
    pub flags_changed: i32,
    pub last_op1: i32,
    pub last_op2: i32,
    pub last_result: i32,
    pub last_add_result: i32,
    pub last_op_size: i32,
    pub instruction_pointer: i32,
    pub previous_ip: i32,
    /// Emulated cycle counter.
    pub timestamp_counter: u32,
}

impl Cpu {
    pub open spec fn wf(self) -> bool {
        valid_opsize(self.last_op_size)
    }

    pub open spec fn reg(self, r: int) -> u32 {
        self.reg32@[r]
    }

    pub open spec fn reg8(self, r: int) -> u32 {
        if r < 4 {
            low8(self.reg32@[r])
        } else {
            high8(self.reg32@[r - 4])
        }
    }

    pub open spec fn reg16(self, r: int) -> u32 {
        low16(self.reg32@[r])
    }

    pub open spec fn cf(self) -> bool {
        if self.flags_changed & FLAG_CARRY != 0 {
            derived_cf(self.last_op1, self.last_op2, self.last_add_result, self.last_op_size)
        } else {
            self.flags & FLAG_CARRY != 0
        }
    }

    pub open spec fn pf(self) -> bool {
        if self.flags_changed & FLAG_PARITY != 0 {
            derived_pf(self.last_result)
        } else {
            self.flags & FLAG_PARITY != 0
        }
    }

    pub open spec fn af(self) -> bool {
        if self.flags_changed & FLAG_ADJUST != 0 {
            derived_af(self.last_op1, self.last_op2, self.last_add_result)
        } else {
            self.flags & FLAG_ADJUST != 0
        }
    }

    pub open spec fn zf(self) -> bool {
        if self.flags_changed & FLAG_ZERO != 0 {
            derived_zf(self.last_result, self.last_op_size)
        } else {
            self.flags & FLAG_ZERO != 0
        }
    }

    pub open spec fn sf(self) -> bool {
        if self.flags_changed & FLAG_SIGN != 0 {
            derived_sf(self.last_result, self.last_op_size)
        } else {
            self.flags & FLAG_SIGN != 0
        }
    }

    pub open spec fn of(self) -> bool {
        if self.flags_changed & FLAG_OVERFLOW != 0 {
            derived_of(self.last_op1, self.last_op2, self.last_add_result, self.last_op_size)
        } else {
            self.flags & FLAG_OVERFLOW != 0
        }
    }

    pub open spec fn df(self) -> bool {
        self.flags & FLAG_DIRECTION != 0
    }

    /// A processor with cleared registers, flags and operation record.
    pub fn new() -> (r: Cpu)
        ensures
            r.wf(),
            forall|i: int| 0 <= i < 8 ==> #[trigger] r.reg32@[i] == 0,
            r.flags == 2,
            r.flags_changed == 0,
            r.instruction_pointer == 0,
            r.previous_ip == 0,
            r.timestamp_counter == 0,
    {
        Cpu {
            reg32: [0u32; 8],
            flags: 2,
            flags_changed: 0,
            last_op1: 0,
            last_op2: 0,
            last_result: 0,
            last_add_result: 0,
            last_op_size: OPSIZE_32,
            instruction_pointer: 0,
            previous_ip: 0,
            timestamp_counter: 0,
        }
    }

    pub fn getcf(&self) -> (r: bool)
        requires
            self.wf(),
        ensures
            r == self.cf(),
    {
        if self.flags_changed & FLAG_CARRY != 0 {
            (self.last_op1 ^ ((self.last_op1 ^ self.last_op2) & (self.last_op2
                ^ self.last_add_result))) >> self.last_op_size & 1 != 0
        } else {
            self.flags & FLAG_CARRY != 0
        }
    }

    pub fn getpf(&self) -> (r: bool)
        ensures
            r == self.pf(),
    {
        if self.flags_changed & FLAG_PARITY != 0 {
            let res = self.last_result;
            proof {
                lemma_low_nibble(res ^ (res >> 4i32));
            }
            (0x9669i32 << 2i32) >> ((res ^ (res >> 4i32)) & 15) & FLAG_PARITY != 0
        } else {
            self.flags & FLAG_PARITY != 0
        }
    }

    pub fn getaf(&self) -> (r: bool)
        ensures
            r == self.af(),
    {
        if self.flags_changed & FLAG_ADJUST != 0 {
            (self.last_op1 ^ self.last_op2 ^ self.last_add_result) & FLAG_ADJUST != 0
        } else {
            self.flags & FLAG_ADJUST != 0
        }
    }

    pub fn getzf(&self) -> (r: bool)
        requires
            self.wf(),
        ensures
            r == self.zf(),
    {
        if self.flags_changed & FLAG_ZERO != 0 {
            let res = self.last_result;
            (!res & res.wrapping_sub(1)) >> self.last_op_size & 1 != 0
        } else {
            self.flags & FLAG_ZERO != 0
        }
    }

    pub fn getsf(&self) -> (r: bool)
        requires
            self.wf(),
        ensures
            r == self.sf(),
    {
        if self.flags_changed & FLAG_SIGN != 0 {
            self.last_result >> self.last_op_size & 1 != 0
        } else {
            self.flags & FLAG_SIGN != 0
        }
    }

    pub fn getof(&self) -> (r: bool)
        requires
            self.wf(),
        ensures
            r == self.of(),
    {
        if self.flags_changed & FLAG_OVERFLOW != 0 {
            ((self.last_op1 ^ self.last_add_result) & (self.last_op2 ^ self.last_add_result))
                >> self.last_op_size & 1 != 0
        } else {
            self.flags & FLAG_OVERFLOW != 0
        }
    }

    pub fn get_reg32(&self, r: i32) -> (v: u32)
        requires
            0 <= r < 8,
        ensures
            v == self.reg(r as int),
    {
        self.reg32[r as usize]
    }

    pub fn set_reg32(&mut self, r: i32, v: u32)
        requires
            0 <= r < 8,
        ensures
            *final(self) == (Cpu { reg32: final(self).reg32, ..*old(self) }),
            final(self).reg32@ == old(self).reg32@.update(r as int, v),
    {
        self.reg32[r as usize] = v;
    }

    pub fn get_reg16(&self, r: i32) -> (v: u32)
        requires
            0 <= r < 8,
        ensures
            v == self.reg16(r as int),
            v < 0x10000,
    {
        self.reg32[r as usize] % 0x10000
    }

    /// Writes the low half of a register; its high half is kept.
    pub fn set_reg16(&mut self, r: i32, v: u32)
        requires
            0 <= r < 8,
            v < 0x10000,
        ensures
            *final(self) == (Cpu { reg32: final(self).reg32, ..*old(self) }),
            final(self).reg32@ == old(self).reg32@.update(
                r as int,
                with_low16(old(self).reg32@[r as int], v),
            ),
            final(self).reg16(r as int) == v,
            final(self).reg32@[r as int] / 0x10000 == old(self).reg32@[r as int] / 0x10000,
    {
        let x = self.reg32[r as usize];
        self.reg32[r as usize] = x - x % 0x10000 + v;
    }

    pub fn get_reg8(&self, r: i32) -> (v: u32)
        requires
            0 <= r < 8,
        ensures
            v == self.reg8(r as int),
            v < 0x100,
    {
        if r < 4 {
            self.reg32[r as usize] % 0x100
        } else {
            self.reg32[(r - 4) as usize] / 0x100 % 0x100
        }
    }

    /// Writes one byte of a register; its other three bytes are kept.
    pub fn set_reg8(&mut self, r: i32, v: u32)
        requires
            0 <= r < 8,
            v < 0x100,
        ensures
            *final(self) == (Cpu { reg32: final(self).reg32, ..*old(self) }),
            final(self).reg32@ == old(self).reg32@.update(
                reg8_slot(r as int),
                if r < 4 {
                    with_low8(old(self).reg32@[r as int], v)
                } else {
                    with_high8(old(self).reg32@[r - 4], v)
                },
            ),
            final(self).reg8(r as int) == v,
    {
        if r < 4 {
            let x = self.reg32[r as usize];
            self.reg32[r as usize] = x - x % 0x100 + v;
        } else {
            let x = self.reg32[(r - 4) as usize];
            self.reg32[(r - 4) as usize] = x - (x / 0x100 % 0x100) * 0x100 + v * 0x100;
        }
    }
}

/// Writing one 8-bit view leaves the other bytes of its register as they were:
/// the low byte, the second byte and the upper half are independent.
pub proof fn lemma_reg8_aliasing(x: u32, v: u32)
    by (bit_vector)
    requires
        v < 0x100,
    ensures
        low8(with_low8(x, v)) == v,
        high8(with_low8(x, v)) == high8(x),
        with_low8(x, v) / 0x10000 == x / 0x10000,
        high8(with_high8(x, v)) == v,
        low8(with_high8(x, v)) == low8(x),
        with_high8(x, v) / 0x10000 == x / 0x10000,
        low16(with_low16(x, v)) == v,
{
}

/// The 8-bit views of a slot read through its 16-bit view.
pub proof fn lemma_views(x: u32)
    by (bit_vector)
    ensures
        low8(x) == low16(x) % 0x100,
        high8(x) == low16(x) / 0x100,
        low16(x) < 0x10000,
{
}

pub proof fn lemma_low_nibble(x: i32)
    by (bit_vector)
    ensures
        0 <= x & 15 < 16,
{
}

} // verus!
