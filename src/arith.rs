//! Arithmetic and logic operations. Each one computes its result and records
//! what the flags are derived from, or writes the flags that are not derived.
use vstd::prelude::*;
use crate::memory::{lemma_translate_range, Memory};
use vstd::std_specs::bits::{
    axiom_u32_leading_zeros, axiom_u32_trailing_zeros, u32_leading_zeros, u32_trailing_zeros,
};
use crate::cpu::{
    Cpu, signed16, signed32, signed8, valid_opsize, with_high8, with_low16, with_low8, low16, low8,
    lemma_views, AH, AL, AX, CX, DX, EAX, EDX, FLAGS_ALL, FLAG_ADJUST, FLAG_CARRY, FLAG_OVERFLOW,
    FLAG_SIGN, FLAG_ZERO, OPSIZE_16, OPSIZE_32, OPSIZE_8, derived_cf, derived_of, derived_sf, derived_zf,
};

verus! {

/// Flags with carry and overflow both set, or both cleared.
pub open spec fn with_cf_of(flags: i32, set: bool) -> i32 {
    if set {
        flags | FLAG_CARRY | FLAG_OVERFLOW
    } else {
        flags & !FLAG_CARRY & !FLAG_OVERFLOW
    }
}

pub open spec fn bit(b: bool) -> i32 {
    if b {
        1
    } else {
        0
    }
}

/// The state after an additive operation `op1 + op2 == add_result` whose
/// value is `result`; all six arithmetic flags become derived.
pub open spec fn after_additive(
    c: Cpu,
    op1: i32,
    op2: i32,
    add_result: i32,
    result: i32,
    size: i32,
    changed: i32,
) -> Cpu {
    Cpu {
        last_op1: op1,
        last_op2: op2,
        last_add_result: add_result,
        last_result: result,
        last_op_size: size,
        flags_changed: changed,
        ..c
    }
}

fn set_cf_of(cpu: &mut Cpu, set: bool)
    ensures
        *final(cpu) == (Cpu { flags: with_cf_of(old(cpu).flags, set), ..*old(cpu) }),
{
    if set {
        cpu.flags = cpu.flags | FLAG_CARRY | FLAG_OVERFLOW;
    } else {
        cpu.flags = cpu.flags & !FLAG_CARRY & !FLAG_OVERFLOW;
    }
}

pub fn add(cpu: &mut Cpu, dest_operand: i32, source_operand: i32, op_size: i32) -> (r: i32)
    requires
        valid_opsize(op_size),
    ensures
        r == dest_operand.wrapping_add(source_operand),
        *final(cpu) == after_additive(
            *old(cpu),
            dest_operand,
            source_operand,
            r,
            r,
            op_size,
            FLAGS_ALL,
        ),
{
    let res = dest_operand.wrapping_add(source_operand);
    cpu.last_op1 = dest_operand;
    cpu.last_op2 = source_operand;
    cpu.last_result = res;
    cpu.last_add_result = res;
    cpu.last_op_size = op_size;
    cpu.flags_changed = FLAGS_ALL;
    res
}

/// Addition with the incoming carry folded in.
pub fn adc(cpu: &mut Cpu, dest_operand: i32, source_operand: i32, op_size: i32) -> (r: i32)
    requires
        old(cpu).wf(),
        valid_opsize(op_size),
    ensures
        r == dest_operand.wrapping_add(source_operand).wrapping_add(bit(old(cpu).cf())),
        *final(cpu) == after_additive(
            *old(cpu),
            dest_operand,
            source_operand,
            r,
            r,
            op_size,
            FLAGS_ALL,
        ),
{
    let cf: i32 = if cpu.getcf() {
        1
    } else {
        0
    };
    let res = dest_operand.wrapping_add(source_operand).wrapping_add(cf);
    cpu.last_op1 = dest_operand;
    cpu.last_op2 = source_operand;
    cpu.last_result = res;
    cpu.last_add_result = res;
    cpu.last_op_size = op_size;
    cpu.flags_changed = FLAGS_ALL;
    res
}

/// Subtraction, recorded as the addition `result + source == dest`.
pub fn sub(cpu: &mut Cpu, dest_operand: i32, source_operand: i32, op_size: i32) -> (r: i32)
    requires
        valid_opsize(op_size),
    ensures
        r == dest_operand.wrapping_sub(source_operand),
        *final(cpu) == after_additive(
            *old(cpu),
            r,
            source_operand,
            dest_operand,
            r,
            op_size,
            FLAGS_ALL,
        ),
{
    let res = dest_operand.wrapping_sub(source_operand);
    cpu.last_add_result = dest_operand;
    cpu.last_op2 = source_operand;
    cpu.last_result = res;
    cpu.last_op1 = res;
    cpu.last_op_size = op_size;
    cpu.flags_changed = FLAGS_ALL;
    res
}

/// Subtraction with the incoming carry as a borrow.
pub fn sbb(cpu: &mut Cpu, dest_operand: i32, source_operand: i32, op_size: i32) -> (r: i32)
    requires
        old(cpu).wf(),
        valid_opsize(op_size),
    ensures
        r == dest_operand.wrapping_sub(source_operand).wrapping_sub(bit(old(cpu).cf())),
        *final(cpu) == after_additive(
            *old(cpu),
            r,
            source_operand,
            dest_operand,
            r,
            op_size,
            FLAGS_ALL,
        ),
{
    let cf: i32 = if cpu.getcf() {
        1
    } else {
        0
    };
    let res = dest_operand.wrapping_sub(source_operand).wrapping_sub(cf);
    cpu.last_add_result = dest_operand;
    cpu.last_op2 = source_operand;
    cpu.last_result = res;
    cpu.last_op1 = res;
    cpu.last_op_size = op_size;
    cpu.flags_changed = FLAGS_ALL;
    res
}

pub fn add8(cpu: &mut Cpu, x: i32, y: i32) -> (r: i32)
    ensures
        r == x.wrapping_add(y),
        *final(cpu) == after_additive(*old(cpu), x, y, r, r, OPSIZE_8, FLAGS_ALL),
{
    crate::arith::add(cpu, x, y, OPSIZE_8)
}

pub fn add16(cpu: &mut Cpu, x: i32, y: i32) -> (r: i32)
    ensures
        r == x.wrapping_add(y),
        *final(cpu) == after_additive(*old(cpu), x, y, r, r, OPSIZE_16, FLAGS_ALL),
{
    crate::arith::add(cpu, x, y, OPSIZE_16)
}

pub fn add32(cpu: &mut Cpu, x: i32, y: i32) -> (r: i32)
    ensures
        r == x.wrapping_add(y),
        *final(cpu) == after_additive(*old(cpu), x, y, r, r, OPSIZE_32, FLAGS_ALL),
{
    crate::arith::add(cpu, x, y, OPSIZE_32)
}

pub fn sub8(cpu: &mut Cpu, x: i32, y: i32) -> (r: i32)
    ensures
        r == x.wrapping_sub(y),
        *final(cpu) == after_additive(*old(cpu), r, y, x, r, OPSIZE_8, FLAGS_ALL),
{
    crate::arith::sub(cpu, x, y, OPSIZE_8)
}

pub fn sub16(cpu: &mut Cpu, x: i32, y: i32) -> (r: i32)
    ensures
        r == x.wrapping_sub(y),
        *final(cpu) == after_additive(*old(cpu), r, y, x, r, OPSIZE_16, FLAGS_ALL),
{
    crate::arith::sub(cpu, x, y, OPSIZE_16)
}

pub fn sub32(cpu: &mut Cpu, x: i32, y: i32) -> (r: i32)
    ensures
        r == x.wrapping_sub(y),
        *final(cpu) == after_additive(*old(cpu), r, y, x, r, OPSIZE_32, FLAGS_ALL),
{
    crate::arith::sub(cpu, x, y, OPSIZE_32)
}

pub fn adc8(cpu: &mut Cpu, x: i32, y: i32) -> (r: i32)
    requires
        old(cpu).wf(),
    ensures
        r == x.wrapping_add(y).wrapping_add(bit(old(cpu).cf())),
        *final(cpu) == after_additive(*old(cpu), x, y, r, r, OPSIZE_8, FLAGS_ALL),
{
    adc(cpu, x, y, OPSIZE_8)
}

pub fn adc16(cpu: &mut Cpu, x: i32, y: i32) -> (r: i32)
    requires
        old(cpu).wf(),
    ensures
        r == x.wrapping_add(y).wrapping_add(bit(old(cpu).cf())),
        *final(cpu) == after_additive(*old(cpu), x, y, r, r, OPSIZE_16, FLAGS_ALL),
{
    adc(cpu, x, y, OPSIZE_16)
}

pub fn adc32(cpu: &mut Cpu, x: i32, y: i32) -> (r: i32)
    requires
        old(cpu).wf(),
    ensures
        r == x.wrapping_add(y).wrapping_add(bit(old(cpu).cf())),
        *final(cpu) == after_additive(*old(cpu), x, y, r, r, OPSIZE_32, FLAGS_ALL),
{
    adc(cpu, x, y, OPSIZE_32)
}

pub fn sbb8(cpu: &mut Cpu, x: i32, y: i32) -> (r: i32)
    requires
        old(cpu).wf(),
    ensures
        r == x.wrapping_sub(y).wrapping_sub(bit(old(cpu).cf())),
        *final(cpu) == after_additive(*old(cpu), r, y, x, r, OPSIZE_8, FLAGS_ALL),
{
    sbb(cpu, x, y, OPSIZE_8)
}

pub fn sbb16(cpu: &mut Cpu, x: i32, y: i32) -> (r: i32)
    requires
        old(cpu).wf(),
    ensures
        r == x.wrapping_sub(y).wrapping_sub(bit(old(cpu).cf())),
        *final(cpu) == after_additive(*old(cpu), r, y, x, r, OPSIZE_16, FLAGS_ALL),
{
    sbb(cpu, x, y, OPSIZE_16)
}

pub fn sbb32(cpu: &mut Cpu, x: i32, y: i32) -> (r: i32)
    requires
        old(cpu).wf(),
    ensures
        r == x.wrapping_sub(y).wrapping_sub(bit(old(cpu).cf())),
        *final(cpu) == after_additive(*old(cpu), r, y, x, r, OPSIZE_32, FLAGS_ALL),
{
    sbb(cpu, x, y, OPSIZE_32)
}

/// Comparison: the flags of `x - y`, without its value.
pub fn cmp8(cpu: &mut Cpu, x: i32, y: i32)
    ensures
        *final(cpu) == after_additive(
            *old(cpu),
            x.wrapping_sub(y),
            y,
            x,
            x.wrapping_sub(y),
            OPSIZE_8,
            FLAGS_ALL,
        ),
{
    crate::arith::sub(cpu, x, y, OPSIZE_8);
}

pub fn cmp16(cpu: &mut Cpu, x: i32, y: i32)
    ensures
        *final(cpu) == after_additive(
            *old(cpu),
            x.wrapping_sub(y),
            y,
            x,
            x.wrapping_sub(y),
            OPSIZE_16,
            FLAGS_ALL,
        ),
{
    crate::arith::sub(cpu, x, y, OPSIZE_16);
}

pub fn cmp32(cpu: &mut Cpu, x: i32, y: i32)
    ensures
        *final(cpu) == after_additive(
            *old(cpu),
            x.wrapping_sub(y),
            y,
            x,
            x.wrapping_sub(y),
            OPSIZE_32,
            FLAGS_ALL,
        ),
{
    crate::arith::sub(cpu, x, y, OPSIZE_32);
}

/// Increment; the carry flag keeps its current value.
pub fn inc(cpu: &mut Cpu, dest_operand: i32, op_size: i32) -> (r: i32)
    requires
        old(cpu).wf(),
        valid_opsize(op_size),
    ensures
        r == dest_operand.wrapping_add(1),
        *final(cpu) == after_additive(
            Cpu { flags: old(cpu).flags & !FLAG_CARRY | bit(old(cpu).cf()), ..*old(cpu) },
            dest_operand,
            1,
            r,
            r,
            op_size,
            FLAGS_ALL & !FLAG_CARRY,
        ),
{
    let cf: i32 = if cpu.getcf() {
        1
    } else {
        0
    };
    cpu.flags = cpu.flags & !FLAG_CARRY | cf;
    let res = dest_operand.wrapping_add(1);
    cpu.last_op1 = dest_operand;
    cpu.last_op2 = 1;
    cpu.last_result = res;
    cpu.last_add_result = res;
    cpu.last_op_size = op_size;
    cpu.flags_changed = FLAGS_ALL & !FLAG_CARRY;
    res
}

/// Decrement; the carry flag keeps its current value.
pub fn dec(cpu: &mut Cpu, dest_operand: i32, op_size: i32) -> (r: i32)
    requires
        old(cpu).wf(),
        valid_opsize(op_size),
    ensures
        r == dest_operand.wrapping_sub(1),
        *final(cpu) == after_additive(
            Cpu { flags: old(cpu).flags & !FLAG_CARRY | bit(old(cpu).cf()), ..*old(cpu) },
            r,
            1,
            dest_operand,
            r,
            op_size,
            FLAGS_ALL & !FLAG_CARRY,
        ),
{
    let cf: i32 = if cpu.getcf() {
        1
    } else {
        0
    };
    cpu.flags = cpu.flags & !FLAG_CARRY | cf;
    let res = dest_operand.wrapping_sub(1);
    cpu.last_add_result = dest_operand;
    cpu.last_op2 = 1;
    cpu.last_result = res;
    cpu.last_op1 = res;
    cpu.last_op_size = op_size;
    cpu.flags_changed = FLAGS_ALL & !FLAG_CARRY;
    res
}

pub fn inc8(cpu: &mut Cpu, x: i32) -> (r: i32)
    requires
        old(cpu).wf(),
    ensures
        r == x.wrapping_add(1),
        *final(cpu) == after_additive(
            Cpu { flags: old(cpu).flags & !FLAG_CARRY | bit(old(cpu).cf()), ..*old(cpu) },
            x,
            1,
            r,
            r,
            OPSIZE_8,
            FLAGS_ALL & !FLAG_CARRY,
        ),
{
    inc(cpu, x, OPSIZE_8)
}

pub fn inc16(cpu: &mut Cpu, x: i32) -> (r: i32)
    requires
        old(cpu).wf(),
    ensures
        r == x.wrapping_add(1),
        *final(cpu) == after_additive(
            Cpu { flags: old(cpu).flags & !FLAG_CARRY | bit(old(cpu).cf()), ..*old(cpu) },
            x,
            1,
            r,
            r,
            OPSIZE_16,
            FLAGS_ALL & !FLAG_CARRY,
        ),
{
    inc(cpu, x, OPSIZE_16)
}

pub fn inc32(cpu: &mut Cpu, x: i32) -> (r: i32)
    requires
        old(cpu).wf(),
    ensures
        r == x.wrapping_add(1),
        *final(cpu) == after_additive(
            Cpu { flags: old(cpu).flags & !FLAG_CARRY | bit(old(cpu).cf()), ..*old(cpu) },
            x,
            1,
            r,
            r,
            OPSIZE_32,
            FLAGS_ALL & !FLAG_CARRY,
        ),
{
    inc(cpu, x, OPSIZE_32)
}

pub fn dec8(cpu: &mut Cpu, x: i32) -> (r: i32)
    requires
        old(cpu).wf(),
    ensures
        r == x.wrapping_sub(1),
        *final(cpu) == after_additive(
            Cpu { flags: old(cpu).flags & !FLAG_CARRY | bit(old(cpu).cf()), ..*old(cpu) },
            r,
            1,
            x,
            r,
            OPSIZE_8,
            FLAGS_ALL & !FLAG_CARRY,
        ),
{
    dec(cpu, x, OPSIZE_8)
}

pub fn dec16(cpu: &mut Cpu, x: i32) -> (r: i32)
    requires
        old(cpu).wf(),
    ensures
        r == x.wrapping_sub(1),
        *final(cpu) == after_additive(
            Cpu { flags: old(cpu).flags & !FLAG_CARRY | bit(old(cpu).cf()), ..*old(cpu) },
            r,
            1,
            x,
            r,
            OPSIZE_16,
            FLAGS_ALL & !FLAG_CARRY,
        ),
{
    dec(cpu, x, OPSIZE_16)
}

pub fn dec32(cpu: &mut Cpu, x: i32) -> (r: i32)
    requires
        old(cpu).wf(),
    ensures
        r == x.wrapping_sub(1),
        *final(cpu) == after_additive(
            Cpu { flags: old(cpu).flags & !FLAG_CARRY | bit(old(cpu).cf()), ..*old(cpu) },
            r,
            1,
            x,
            r,
            OPSIZE_32,
            FLAGS_ALL & !FLAG_CARRY,
        ),
{
    dec(cpu, x, OPSIZE_32)
}

/// Two's-complement negation, recorded as the subtraction `0 - x`.
pub fn neg(cpu: &mut Cpu, dest_operand: i32, op_size: i32) -> (r: i32)
    requires
        valid_opsize(op_size),
    ensures
        r == 0i32.wrapping_sub(dest_operand),
        *final(cpu) == after_additive(*old(cpu), r, dest_operand, 0, r, op_size, FLAGS_ALL),
{
    let res = 0i32.wrapping_sub(dest_operand);
    cpu.last_result = res;
    cpu.last_op1 = res;
    cpu.flags_changed = FLAGS_ALL;
    cpu.last_add_result = 0;
    cpu.last_op2 = dest_operand;
    cpu.last_op_size = op_size;
    res
}

pub fn neg8(cpu: &mut Cpu, x: i32) -> (r: i32)
    ensures
        r == 0i32.wrapping_sub(x),
        *final(cpu) == after_additive(*old(cpu), r, x, 0, r, OPSIZE_8, FLAGS_ALL),
{
    neg(cpu, x, OPSIZE_8)
}

pub fn neg16(cpu: &mut Cpu, x: i32) -> (r: i32)
    ensures
        r == 0i32.wrapping_sub(x),
        *final(cpu) == after_additive(*old(cpu), r, x, 0, r, OPSIZE_16, FLAGS_ALL),
{
    neg(cpu, x, OPSIZE_16)
}

pub fn neg32(cpu: &mut Cpu, x: i32) -> (r: i32)
    ensures
        r == 0i32.wrapping_sub(x),
        *final(cpu) == after_additive(*old(cpu), r, x, 0, r, OPSIZE_32, FLAGS_ALL),
{
    neg(cpu, x, OPSIZE_32)
}

/// Unsigned multiply of AL: the 16-bit product goes to AX.
pub fn mul8(cpu: &mut Cpu, source_operand: i32)
    requires
        0 <= source_operand < 0x100,
    ensures
        ({
            let result = source_operand * old(cpu).reg8(AL as int);
            &&& final(cpu).reg32@ == old(cpu).reg32@.update(
                EAX as int,
                with_low16(old(cpu).reg32@[EAX as int], result as u32),
            )
            &&& *final(cpu) == (Cpu {
                reg32: final(cpu).reg32,
                last_result: (result % 0x100) as i32,
                last_op_size: OPSIZE_8,
                flags: with_cf_of(old(cpu).flags, result >= 0x100),
                flags_changed: FLAGS_ALL & !FLAG_CARRY & !FLAG_OVERFLOW,
                ..*old(cpu)
            })
        }),
{
    let al = cpu.get_reg8(AL);
    assert(source_operand * al < 0x10000) by (nonlinear_arith)
        requires
            0 <= source_operand < 0x100,
            al < 0x100,
    ;
    let result: u32 = source_operand as u32 * al;
    cpu.set_reg16(AX, result);
    cpu.last_result = (result % 0x100) as i32;
    cpu.last_op_size = OPSIZE_8;
    set_cf_of(cpu, result >= 0x100);
    cpu.flags_changed = FLAGS_ALL & !FLAG_CARRY & !FLAG_OVERFLOW;
}

/// Signed multiply of AL: the 16-bit product goes to AX.
pub fn imul8(cpu: &mut Cpu, source_operand: i32)
    requires
        -0x80 <= source_operand < 0x80,
    ensures
        ({
            let result = source_operand * signed8(old(cpu).reg8(AL as int));
            &&& final(cpu).reg32@ == old(cpu).reg32@.update(
                EAX as int,
                with_low16(old(cpu).reg32@[EAX as int], (result % 0x10000) as u32),
            )
            &&& *final(cpu) == (Cpu {
                reg32: final(cpu).reg32,
                last_result: (result % 0x100) as i32,
                last_op_size: OPSIZE_8,
                flags: with_cf_of(old(cpu).flags, result > 127 || result < -128),
                flags_changed: FLAGS_ALL & !FLAG_CARRY & !FLAG_OVERFLOW,
                ..*old(cpu)
            })
        }),
{
    let al = cpu.get_reg8(AL) as i32;
    let al_signed: i32 = if al >= 0x80 {
        al - 0x100
    } else {
        al
    };
    assert(-0x4000 <= source_operand * al_signed <= 0x4000) by (nonlinear_arith)
        requires
            -0x80 <= source_operand < 0x80,
            -0x80 <= al_signed < 0x80,
    ;
    let result: i32 = source_operand * al_signed;
    cpu.set_reg16(AX, ((result + 0x10000) % 0x10000) as u32);
    cpu.last_result = (result + 0x10000) % 0x100;
    cpu.last_op_size = OPSIZE_8;
    set_cf_of(cpu, result > 127 || result < -128);
    cpu.flags_changed = FLAGS_ALL & !FLAG_CARRY & !FLAG_OVERFLOW;
}

/// Unsigned multiply of AX: the 32-bit product goes to DX:AX.
pub fn mul16(cpu: &mut Cpu, source_operand: u32)
    requires
        source_operand < 0x10000,
    ensures
        ({
            let result = source_operand * old(cpu).reg16(AX as int);
            &&& final(cpu).reg32@ == old(cpu).reg32@.update(
                EAX as int,
                with_low16(old(cpu).reg32@[EAX as int], (result % 0x10000) as u32),
            ).update(EDX as int, with_low16(old(cpu).reg32@[EDX as int], (result / 0x10000) as u32))
            &&& *final(cpu) == (Cpu {
                reg32: final(cpu).reg32,
                last_result: (result % 0x10000) as i32,
                last_op_size: OPSIZE_16,
                flags: with_cf_of(old(cpu).flags, result >= 0x10000),
                flags_changed: FLAGS_ALL & !FLAG_CARRY & !FLAG_OVERFLOW,
                ..*old(cpu)
            })
        }),
{
    let ax = cpu.get_reg16(AX);
    assert(source_operand * ax < 0x1_0000_0000) by (nonlinear_arith)
        requires
            source_operand < 0x10000,
            ax < 0x10000,
    ;
    let result: u32 = source_operand * ax;
    let high_result = result / 0x10000;
    cpu.set_reg16(AX, result % 0x10000);
    cpu.set_reg16(DX, high_result);
    cpu.last_result = (result % 0x10000) as i32;
    cpu.last_op_size = OPSIZE_16;
    set_cf_of(cpu, high_result != 0);
    cpu.flags_changed = FLAGS_ALL & !FLAG_CARRY & !FLAG_OVERFLOW;
}

/// Signed multiply of AX: the 32-bit product goes to DX:AX.
pub fn imul16(cpu: &mut Cpu, source_operand: i32)
    requires
        -0x8000 <= source_operand < 0x8000,
    ensures
        ({
            let result = source_operand * signed16(old(cpu).reg16(AX as int));
            &&& final(cpu).reg32@ == old(cpu).reg32@.update(
                EAX as int,
                with_low16(old(cpu).reg32@[EAX as int], (result % 0x10000) as u32),
            ).update(
                EDX as int,
                with_low16(old(cpu).reg32@[EDX as int], (result / 0x10000 % 0x10000) as u32),
            )
            &&& *final(cpu) == (Cpu {
                reg32: final(cpu).reg32,
                last_result: (result % 0x10000) as i32,
                last_op_size: OPSIZE_16,
                flags: with_cf_of(old(cpu).flags, result > 32767 || result < -32768),
                flags_changed: FLAGS_ALL & !FLAG_CARRY & !FLAG_OVERFLOW,
                ..*old(cpu)
            })
        }),
{
    let ax = cpu.get_reg16(AX) as i32;
    let ax_signed: i32 = if ax >= 0x8000 {
        ax - 0x10000
    } else {
        ax
    };
    assert(-0x4000_0000 <= source_operand * ax_signed <= 0x4000_0000) by (nonlinear_arith)
        requires
            -0x8000 <= source_operand < 0x8000,
            -0x8000 <= ax_signed < 0x8000,
    ;
    let result: i32 = source_operand * ax_signed;
    let wide: u64 = (result as i64 + 0x1_0000_0000i64) as u64;
    cpu.set_reg16(AX, (wide % 0x10000) as u32);
    cpu.set_reg16(DX, (wide / 0x10000 % 0x10000) as u32);
    cpu.last_result = (wide % 0x10000) as i32;
    cpu.last_op_size = OPSIZE_16;
    set_cf_of(cpu, result > 32767 || result < -32768);
    cpu.flags_changed = FLAGS_ALL & !FLAG_CARRY & !FLAG_OVERFLOW;
}

/// Two's-complement reading of the low 16 bits of a value.
pub open spec fn sext16(x: i32) -> int {
    signed16(low16(x as u32))
}

/// Signed multiply of two 16-bit operands; the full product is returned and
/// the flags tell whether it fits in 16 bits.
pub fn imul_reg16(cpu: &mut Cpu, operand1: i32, operand2: i32) -> (r: i32)
    ensures
        r == sext16(operand1) * sext16(operand2),
        *final(cpu) == (Cpu {
            last_result: (r % 0x10000) as i32,
            last_op_size: OPSIZE_16,
            flags: with_cf_of(old(cpu).flags, r > 32767 || r < -32768),
            flags_changed: FLAGS_ALL & !FLAG_CARRY & !FLAG_OVERFLOW,
            ..*old(cpu)
        }),
{
    let lo1 = (#[verifier::truncate] (operand1 as u32)) % 0x10000;
    let lo2 = (#[verifier::truncate] (operand2 as u32)) % 0x10000;
    let a: i32 = if lo1 >= 0x8000 {
        lo1 as i32 - 0x10000
    } else {
        lo1 as i32
    };
    let b: i32 = if lo2 >= 0x8000 {
        lo2 as i32 - 0x10000
    } else {
        lo2 as i32
    };
    assert(-0x4000_0000 <= a * b <= 0x4000_0000) by (nonlinear_arith)
        requires
            -0x8000 <= a < 0x8000,
            -0x8000 <= b < 0x8000,
    ;
    let result: i32 = a * b;
    cpu.last_result = ((result as i64 + 0x8000_0000) % 0x10000) as i32;
    cpu.last_op_size = OPSIZE_16;
    set_cf_of(cpu, result > 32767 || result < -32768);
    cpu.flags_changed = FLAGS_ALL & !FLAG_CARRY & !FLAG_OVERFLOW;
    result
}

/// Unsigned multiply of EAX: the 64-bit product goes to EDX:EAX.
pub fn mul32(cpu: &mut Cpu, source_operand: i32)
    ensures
        ({
            let result = old(cpu).reg(EAX as int) * (source_operand as u32);
            &&& final(cpu).reg32@ == old(cpu).reg32@.update(
                EAX as int,
                (result % 0x1_0000_0000) as u32,
            ).update(EDX as int, (result / 0x1_0000_0000) as u32)
            &&& *final(cpu) == (Cpu {
                reg32: final(cpu).reg32,
                last_result: (result % 0x1_0000_0000) as u32 as i32,
                last_op_size: OPSIZE_32,
                flags: with_cf_of(old(cpu).flags, result >= 0x1_0000_0000),
                flags_changed: FLAGS_ALL & !FLAG_CARRY & !FLAG_OVERFLOW,
                ..*old(cpu)
            })
        }),
{
    let dest = cpu.get_reg32(EAX) as u64;
    let src = (source_operand as u32) as u64;
    assert(dest * src < 0x1_0000_0000_0000_0000) by (nonlinear_arith)
        requires
            dest < 0x1_0000_0000,
            src < 0x1_0000_0000,
    ;
    let result: u64 = dest * src;
    let result_low = (result % 0x1_0000_0000) as u32;
    let result_high = (result / 0x1_0000_0000) as u32;
    cpu.set_reg32(EAX, result_low);
    cpu.set_reg32(EDX, result_high);
    cpu.last_result = result_low as i32;
    cpu.last_op_size = OPSIZE_32;
    set_cf_of(cpu, result_high != 0);
    cpu.flags_changed = FLAGS_ALL & !FLAG_CARRY & !FLAG_OVERFLOW;
}

/// Signed product of two 32-bit values, which always fits in 64 bits.
pub open spec fn product64(a: i32, b: i32) -> i64 {
    (a * b) as i64
}

pub open spec fn fits_i32(x: i64) -> bool {
    -0x8000_0000 <= x <= 0x7FFF_FFFF
}

/// Signed multiply of EAX: the 64-bit product goes to EDX:EAX.
pub fn imul32(cpu: &mut Cpu, source_operand: i32)
    ensures
        ({
            let result = product64(old(cpu).reg(EAX as int) as i32, source_operand);
            &&& final(cpu).reg32@ == old(cpu).reg32@.update(EAX as int, result as u32).update(
                EDX as int,
                (result >> 32i64) as u32,
            )
            &&& *final(cpu) == (Cpu {
                reg32: final(cpu).reg32,
                last_result: result as i32,
                last_op_size: OPSIZE_32,
                flags: with_cf_of(old(cpu).flags, !fits_i32(result)),
                flags_changed: FLAGS_ALL & !FLAG_CARRY & !FLAG_OVERFLOW,
                ..*old(cpu)
            })
        }),
{
    let dest = cpu.get_reg32(EAX) as i32;
    assert(-0x4000_0000_0000_0000 <= dest * source_operand <= 0x4000_0000_0000_0000)
        by (nonlinear_arith);
    let result: i64 = dest as i64 * source_operand as i64;
    cpu.set_reg32(EAX, result as u32);
    cpu.set_reg32(EDX, (result >> 32i64) as u32);
    cpu.last_result = result as i32;
    cpu.last_op_size = OPSIZE_32;
    set_cf_of(cpu, !(-0x8000_0000 <= result && result <= 0x7FFF_FFFF));
    cpu.flags_changed = FLAGS_ALL & !FLAG_CARRY & !FLAG_OVERFLOW;
}

/// Signed multiply of two 32-bit operands, keeping the low half; the flags
/// tell whether the product was truncated.
pub fn imul_reg32(cpu: &mut Cpu, operand1: i32, operand2: i32) -> (r: i32)
    ensures
        r == product64(operand1, operand2) as i32,
        *final(cpu) == (Cpu {
            last_result: r,
            last_op_size: OPSIZE_32,
            flags: with_cf_of(old(cpu).flags, !fits_i32(product64(operand1, operand2))),
            flags_changed: FLAGS_ALL & !FLAG_CARRY & !FLAG_OVERFLOW,
            ..*old(cpu)
        }),
{
    assert(-0x4000_0000_0000_0000 <= operand1 * operand2 <= 0x4000_0000_0000_0000)
        by (nonlinear_arith);
    let result: i64 = operand1 as i64 * operand2 as i64;
    let result_low = result as i32;
    cpu.last_result = result_low;
    cpu.last_op_size = OPSIZE_32;
    set_cf_of(cpu, !(-0x8000_0000 <= result && result <= 0x7FFF_FFFF));
    cpu.flags_changed = FLAGS_ALL & !FLAG_CARRY & !FLAG_OVERFLOW;
    result_low
}

/// Exchange and add on an 8-bit register: the register gets the source
/// operand, and the sum of both is returned.
pub fn xadd8(cpu: &mut Cpu, source_operand: i32, reg: i32) -> (r: i32)
    requires
        0 <= reg < 8,
    ensures
        ({
            let tmp = old(cpu).reg8(reg as int) as i32;
            let c = Cpu {
                reg32: final(cpu).reg32,
                ..*old(cpu)
            };
            &&& final(cpu).reg8(reg as int) == source_operand as u8 as u32
            &&& final(cpu).reg32@ == old(cpu).reg32@.update(
                if reg < 4 { reg as int } else { reg - 4 },
                if reg < 4 {
                    with_low8(old(cpu).reg32@[reg as int], source_operand as u8 as u32)
                } else {
                    with_high8(old(cpu).reg32@[reg - 4], source_operand as u8 as u32)
                },
            )
            &&& r == source_operand.wrapping_add(tmp)
            &&& *final(cpu) == after_additive(c, source_operand, tmp, r, r, OPSIZE_8, FLAGS_ALL)
        }),
{
    let tmp = cpu.get_reg8(reg) as i32;
    cpu.set_reg8(reg, source_operand as u8 as u32);
    crate::arith::add(cpu, source_operand, tmp, OPSIZE_8)
}

/// Exchange and add on a 16-bit register.
pub fn xadd16(cpu: &mut Cpu, source_operand: i32, reg: i32) -> (r: i32)
    requires
        0 <= reg < 8,
    ensures
        ({
            let tmp = old(cpu).reg16(reg as int) as i32;
            let c = Cpu {
                reg32: final(cpu).reg32,
                ..*old(cpu)
            };
            &&& final(cpu).reg32@ == old(cpu).reg32@.update(
                reg as int,
                with_low16(old(cpu).reg32@[reg as int], source_operand as u16 as u32),
            )
            &&& r == source_operand.wrapping_add(tmp)
            &&& *final(cpu) == after_additive(c, source_operand, tmp, r, r, OPSIZE_16, FLAGS_ALL)
        }),
{
    let tmp = cpu.get_reg16(reg) as i32;
    cpu.set_reg16(reg, source_operand as u16 as u32);
    crate::arith::add(cpu, source_operand, tmp, OPSIZE_16)
}

/// Exchange and add on a 32-bit register.
pub fn xadd32(cpu: &mut Cpu, source_operand: i32, reg: i32) -> (r: i32)
    requires
        0 <= reg < 8,
    ensures
        ({
            let tmp = old(cpu).reg(reg as int) as i32;
            let c = Cpu {
                reg32: final(cpu).reg32,
                ..*old(cpu)
            };
            &&& final(cpu).reg32@ == old(cpu).reg32@.update(reg as int, source_operand as u32)
            &&& r == source_operand.wrapping_add(tmp)
            &&& *final(cpu) == after_additive(c, source_operand, tmp, r, r, OPSIZE_32, FLAGS_ALL)
        }),
{
    let tmp = cpu.get_reg32(reg) as i32;
    cpu.set_reg32(reg, source_operand as u32);
    crate::arith::add(cpu, source_operand, tmp, OPSIZE_32)
}

/// The adjustments that decimal-adjust-after-addition applies.
pub open spec fn daa_low(al: u32, af: bool) -> bool {
    al % 16 > 9 || af
}

pub open spec fn daa_high(al: u32, cf: bool) -> bool {
    al > 153 || cf
}

pub open spec fn daa_al(al: u32, af: bool, cf: bool) -> u32 {
    ((al + (if daa_low(al, af) { 6int } else { 0int }) + (if daa_high(al, cf) { 96int } else {
        0int
    })) % 0x100) as u32
}

pub open spec fn daa_flags(flags: i32, al: u32, af: bool, cf: bool) -> i32 {
    let f0 = flags & !FLAG_CARRY & !FLAG_ADJUST;
    let f1 = if daa_low(al, af) {
        f0 | FLAG_ADJUST
    } else {
        f0
    };
    if daa_high(al, cf) {
        f1 | FLAG_CARRY
    } else {
        f1
    }
}

/// Flags whose value is set directly by the decimal adjustments.
pub open spec fn bcd_changed() -> i32 {
    FLAGS_ALL & !FLAG_CARRY & !FLAG_ADJUST & !FLAG_OVERFLOW
}

/// Decimal adjust AL after addition.
pub fn bcd_daa(cpu: &mut Cpu)
    requires
        old(cpu).wf(),
    ensures
        ({
            let al = old(cpu).reg8(AL as int);
            let new_al = daa_al(al, old(cpu).af(), old(cpu).cf());
            &&& final(cpu).reg32@ == old(cpu).reg32@.update(
                EAX as int,
                with_low8(old(cpu).reg32@[EAX as int], new_al),
            )
            &&& *final(cpu) == (Cpu {
                reg32: final(cpu).reg32,
                flags: daa_flags(old(cpu).flags, al, old(cpu).af(), old(cpu).cf()),
                last_result: new_al as i32,
                last_op_size: OPSIZE_8,
                last_op1: 0,
                last_op2: 0,
                flags_changed: bcd_changed(),
                ..*old(cpu)
            })
        }),
{
    let old_al = cpu.get_reg8(AL);
    let old_cf = cpu.getcf();
    let old_af = cpu.getaf();
    cpu.flags = cpu.flags & !FLAG_CARRY & !FLAG_ADJUST;
    let mut al = old_al;
    if old_al % 16 > 9 || old_af {
        al = (al + 6) % 0x100;
        cpu.flags = cpu.flags | FLAG_ADJUST;
    }
    if old_al > 153 || old_cf {
        al = (al + 96) % 0x100;
        cpu.flags = cpu.flags | FLAG_CARRY;
    }
    cpu.set_reg8(AL, al);
    cpu.last_result = al as i32;
    cpu.last_op_size = OPSIZE_8;
    cpu.last_op2 = 0;
    cpu.last_op1 = 0;
    cpu.flags_changed = FLAGS_ALL & !FLAG_CARRY & !FLAG_ADJUST & !FLAG_OVERFLOW;
}

pub open spec fn das_al(al: u32, af: bool, cf: bool) -> u32 {
    ((al - (if daa_low(al, af) { 6int } else { 0int }) - (if daa_high(al, cf) { 96int } else {
        0int
    })) % 0x100) as u32
}

pub open spec fn das_flags(flags: i32, al: u32, af: bool, cf: bool) -> i32 {
    let f0 = flags & !FLAG_CARRY;
    let f1 = if daa_low(al, af) {
        (f0 | FLAG_ADJUST) & !FLAG_CARRY | bit(cf) | bit(al < 6)
    } else {
        f0 & !FLAG_ADJUST
    };
    if daa_high(al, cf) {
        f1 | FLAG_CARRY
    } else {
        f1
    }
}

/// Decimal adjust AL after subtraction.
#[verifier::rlimit(40)]
pub fn bcd_das(cpu: &mut Cpu)
    requires
        old(cpu).wf(),
    ensures
        ({
            let al = old(cpu).reg8(AL as int);
            let new_al = das_al(al, old(cpu).af(), old(cpu).cf());
            &&& final(cpu).reg32@ == old(cpu).reg32@.update(
                EAX as int,
                with_low8(old(cpu).reg32@[EAX as int], new_al),
            )
            &&& *final(cpu) == (Cpu {
                reg32: final(cpu).reg32,
                flags: das_flags(old(cpu).flags, al, old(cpu).af(), old(cpu).cf()),
                last_result: new_al as i32,
                last_op_size: OPSIZE_8,
                last_op1: 0,
                last_op2: 0,
                flags_changed: bcd_changed(),
                ..*old(cpu)
            })
        }),
{
    let old_al = cpu.get_reg8(AL);
    let old_cf = cpu.getcf();
    let old_af = cpu.getaf();
    let cf: i32 = if old_cf {
        1
    } else {
        0
    };
    let borrow: i32 = if old_al < 6 {
        1
    } else {
        0
    };
    cpu.flags = cpu.flags & !FLAG_CARRY;
    let mut al = old_al;
    if old_al % 16 > 9 || old_af {
        al = (al + 0x100 - 6) % 0x100;
        cpu.flags = cpu.flags | FLAG_ADJUST;
        cpu.flags = cpu.flags & !FLAG_CARRY | cf | borrow;
    } else {
        cpu.flags = cpu.flags & !FLAG_ADJUST;
    }
    if old_al > 153 || old_cf {
        al = (al + 0x100 - 96) % 0x100;
        cpu.flags = cpu.flags | FLAG_CARRY;
    }
    cpu.set_reg8(AL, al);
    cpu.last_result = al as i32;
    cpu.last_op_size = OPSIZE_8;
    cpu.last_op2 = 0;
    cpu.last_op1 = 0;
    cpu.flags_changed = FLAGS_ALL & !FLAG_CARRY & !FLAG_ADJUST & !FLAG_OVERFLOW;
}

/// ASCII adjust AX before division: AL becomes AL + AH * base, AH becomes 0.
pub fn bcd_aad(cpu: &mut Cpu, imm8: i32)
    requires
        0 <= imm8 < 0x100,
    ensures
        ({
            let result = old(cpu).reg8(AL as int) + old(cpu).reg8(AH as int) * imm8;
            let f = old(cpu).flags & !FLAG_CARRY & !FLAG_ADJUST & !FLAG_OVERFLOW;
            &&& final(cpu).reg32@ == old(cpu).reg32@.update(
                EAX as int,
                with_low16(old(cpu).reg32@[EAX as int], (result % 0x100) as u32),
            )
            &&& *final(cpu) == (Cpu {
                reg32: final(cpu).reg32,
                last_result: (result % 0x100) as i32,
                last_op_size: OPSIZE_8,
                flags_changed: bcd_changed(),
                flags: if result > 0xFFFF {
                    f | FLAG_CARRY
                } else {
                    f
                },
                ..*old(cpu)
            })
        }),
{
    let al = cpu.get_reg8(AL);
    let ah = cpu.get_reg8(AH);
    assert(ah * imm8 <= 0xFF * 0xFF) by (nonlinear_arith)
        requires
            ah < 0x100,
            0 <= imm8 < 0x100,
    ;
    let result: u32 = al + ah * imm8 as u32;
    cpu.last_result = (result % 0x100) as i32;
    cpu.set_reg16(AX, result % 0x100);
    cpu.last_op_size = OPSIZE_8;
    cpu.flags_changed = FLAGS_ALL & !FLAG_CARRY & !FLAG_ADJUST & !FLAG_OVERFLOW;
    cpu.flags = cpu.flags & !FLAG_CARRY & !FLAG_ADJUST & !FLAG_OVERFLOW;
    if result > 0xFFFF {
        cpu.flags = cpu.flags | FLAG_CARRY;
    }
}

/// An exception that aborts the current instruction.
#[derive(PartialEq, Eq, Structural, Clone, Copy, Debug)]
pub enum CpuException {
    /// Division by zero, or a quotient that does not fit its destination.
    DivideError,
    /// A linear address that cannot be read, or written, at this moment.
    PageFault { address: u32, write: bool },
    /// An I/O port access that the current privilege does not allow.
    GeneralProtection,
}

/// ASCII adjust AX after multiplication: AH becomes AL / base and AL becomes
/// AL % base. A base of zero raises the divide error and changes nothing.
pub fn bcd_aam(cpu: &mut Cpu, imm8: i32) -> (r: Result<(), CpuException>)
    requires
        0 <= imm8 < 0x100,
    ensures
        imm8 == 0 ==> r == Err::<(), CpuException>(CpuException::DivideError) && *final(cpu)
            == *old(cpu),
        imm8 != 0 ==> ({
            let al = old(cpu).reg8(AL as int);
            let q = (al / imm8 as u32) as u32;
            let m = (al % imm8 as u32) as u32;
            &&& r is Ok
            &&& final(cpu).reg32@ == old(cpu).reg32@.update(
                EAX as int,
                with_low16(old(cpu).reg32@[EAX as int], (q * 0x100 + m) as u32),
            )
            &&& *final(cpu) == (Cpu {
                reg32: final(cpu).reg32,
                last_result: m as i32,
                flags_changed: bcd_changed(),
                flags: old(cpu).flags & !FLAG_CARRY & !FLAG_ADJUST & !FLAG_OVERFLOW,
                ..*old(cpu)
            })
        }),
{
    if imm8 == 0 {
        return Err(CpuException::DivideError);
    }
    let temp = cpu.get_reg8(AL);
    let q = temp / imm8 as u32;
    let m = temp % imm8 as u32;
    assert(q * 0x100 + m < 0x10000) by (nonlinear_arith)
        requires
            temp < 0x100,
            q == temp / imm8 as u32,
            m == temp % imm8 as u32,
            imm8 > 0,
    ;
    cpu.set_reg16(AX, q * 0x100 + m);
    cpu.last_result = m as i32;
    cpu.flags_changed = FLAGS_ALL & !FLAG_CARRY & !FLAG_ADJUST & !FLAG_OVERFLOW;
    cpu.flags = cpu.flags & !FLAG_CARRY & !FLAG_ADJUST & !FLAG_OVERFLOW;
    Ok(())
}

/// AX after ASCII adjust after addition: on adjustment AX gains 6 and AH one
/// more; AL keeps its low nibble only.
pub open spec fn aaa_ax(ax: u32, adjust: bool) -> u32 {
    if adjust {
        let ax1 = (ax + 6) % 0x10000;
        (((ax1 / 0x100 + 1) % 0x100) * 0x100 + ax1 % 0x100 % 16) as u32
    } else {
        ((ax / 0x100) * 0x100 + ax % 0x100 % 16) as u32
    }
}

/// AX after ASCII adjust after subtraction.
pub open spec fn aas_ax(ax: u32, adjust: bool) -> u32 {
    if adjust {
        let ax1 = (ax + 0x10000 - 6) % 0x10000;
        (((ax1 / 0x100 + 0xFF) % 0x100) * 0x100 + ax1 % 0x100 % 16) as u32
    } else {
        ((ax / 0x100) * 0x100 + ax % 0x100 % 16) as u32
    }
}

pub open spec fn with_cf_af(flags: i32, set: bool) -> i32 {
    if set {
        flags | FLAG_ADJUST | FLAG_CARRY
    } else {
        flags & !FLAG_ADJUST & !FLAG_CARRY
    }
}

/// ASCII adjust after addition.
pub fn bcd_aaa(cpu: &mut Cpu)
    requires
        old(cpu).wf(),
    ensures
        ({
            let adjust = old(cpu).reg8(AL as int) % 16 > 9 || old(cpu).af();
            &&& final(cpu).reg32@ == old(cpu).reg32@.update(
                EAX as int,
                with_low16(
                    old(cpu).reg32@[EAX as int],
                    aaa_ax(old(cpu).reg16(AX as int), adjust),
                ),
            )
            &&& *final(cpu) == (Cpu {
                reg32: final(cpu).reg32,
                flags: with_cf_af(old(cpu).flags, adjust),
                flags_changed: old(cpu).flags_changed & !FLAG_ADJUST & !FLAG_CARRY,
                ..*old(cpu)
            })
        }),
{
    let af = cpu.getaf();
    let al = cpu.get_reg8(AL);
    let ax = cpu.get_reg16(AX);
    proof {
        lemma_views(cpu.reg32@[EAX as int]);
    }
    let adjust = al % 16 > 9 || af;
    let new_ax: u32 = if adjust {
        let ax1 = (ax + 6) % 0x10000;
        ((ax1 / 0x100 + 1) % 0x100) * 0x100 + ax1 % 0x100 % 16
    } else {
        (ax / 0x100) * 0x100 + ax % 0x100 % 16
    };
    cpu.set_reg16(AX, new_ax);
    if adjust {
        cpu.flags = cpu.flags | FLAG_ADJUST | FLAG_CARRY;
    } else {
        cpu.flags = cpu.flags & !FLAG_ADJUST & !FLAG_CARRY;
    }
    cpu.flags_changed = cpu.flags_changed & !FLAG_ADJUST & !FLAG_CARRY;
}

/// ASCII adjust after subtraction.
pub fn bcd_aas(cpu: &mut Cpu)
    requires
        old(cpu).wf(),
    ensures
        ({
            let adjust = old(cpu).reg8(AL as int) % 16 > 9 || old(cpu).af();
            &&& final(cpu).reg32@ == old(cpu).reg32@.update(
                EAX as int,
                with_low16(
                    old(cpu).reg32@[EAX as int],
                    aas_ax(old(cpu).reg16(AX as int), adjust),
                ),
            )
            &&& *final(cpu) == (Cpu {
                reg32: final(cpu).reg32,
                flags: with_cf_af(old(cpu).flags, adjust),
                flags_changed: old(cpu).flags_changed & !FLAG_ADJUST & !FLAG_CARRY,
                ..*old(cpu)
            })
        }),
{
    let af = cpu.getaf();
    let al = cpu.get_reg8(AL);
    let ax = cpu.get_reg16(AX);
    proof {
        lemma_views(cpu.reg32@[EAX as int]);
    }
    let adjust = al % 16 > 9 || af;
    let new_ax: u32 = if adjust {
        let ax1 = (ax + 0x10000 - 6) % 0x10000;
        ((ax1 / 0x100 + 0xFF) % 0x100) * 0x100 + ax1 % 0x100 % 16
    } else {
        (ax / 0x100) * 0x100 + ax % 0x100 % 16
    };
    cpu.set_reg16(AX, new_ax);
    if adjust {
        cpu.flags = cpu.flags | FLAG_ADJUST | FLAG_CARRY;
    } else {
        cpu.flags = cpu.flags & !FLAG_ADJUST & !FLAG_CARRY;
    }
    cpu.flags_changed = cpu.flags_changed & !FLAG_ADJUST & !FLAG_CARRY;
}

/// State after a logical operation with value `result`: carry, overflow and
/// adjust are cleared, zero, sign and parity are derived from the result.
pub open spec fn after_logic(c: Cpu, result: i32, size: i32) -> Cpu {
    Cpu {
        last_result: result,
        last_op_size: size,
        flags: c.flags & !FLAG_CARRY & !FLAG_OVERFLOW & !FLAG_ADJUST,
        flags_changed: FLAGS_ALL & !FLAG_CARRY & !FLAG_OVERFLOW & !FLAG_ADJUST,
        ..c
    }
}

fn record_logic(cpu: &mut Cpu, result: i32, op_size: i32)
    ensures
        *final(cpu) == after_logic(*old(cpu), result, op_size),
{
    cpu.last_result = result;
    cpu.last_op_size = op_size;
    cpu.flags = cpu.flags & !FLAG_CARRY & !FLAG_OVERFLOW & !FLAG_ADJUST;
    cpu.flags_changed = FLAGS_ALL & !FLAG_CARRY & !FLAG_OVERFLOW & !FLAG_ADJUST;
}

pub fn and(cpu: &mut Cpu, dest_operand: i32, source_operand: i32, op_size: i32) -> (r: i32)
    requires
        valid_opsize(op_size),
    ensures
        r == dest_operand & source_operand,
        *final(cpu) == after_logic(*old(cpu), r, op_size),
{
    let res = dest_operand & source_operand;
    record_logic(cpu, res, op_size);
    res
}

pub fn or(cpu: &mut Cpu, dest_operand: i32, source_operand: i32, op_size: i32) -> (r: i32)
    requires
        valid_opsize(op_size),
    ensures
        r == dest_operand | source_operand,
        *final(cpu) == after_logic(*old(cpu), r, op_size),
{
    let res = dest_operand | source_operand;
    record_logic(cpu, res, op_size);
    res
}

pub fn xor(cpu: &mut Cpu, dest_operand: i32, source_operand: i32, op_size: i32) -> (r: i32)
    requires
        valid_opsize(op_size),
    ensures
        r == dest_operand ^ source_operand,
        *final(cpu) == after_logic(*old(cpu), r, op_size),
{
    let res = dest_operand ^ source_operand;
    record_logic(cpu, res, op_size);
    res
}

pub fn and8(cpu: &mut Cpu, x: i32, y: i32) -> (r: i32)
    ensures
        r == x & y,
        *final(cpu) == after_logic(*old(cpu), r, OPSIZE_8),
{
    crate::arith::and(cpu, x, y, OPSIZE_8)
}

pub fn and16(cpu: &mut Cpu, x: i32, y: i32) -> (r: i32)
    ensures
        r == x & y,
        *final(cpu) == after_logic(*old(cpu), r, OPSIZE_16),
{
    crate::arith::and(cpu, x, y, OPSIZE_16)
}

pub fn and32(cpu: &mut Cpu, x: i32, y: i32) -> (r: i32)
    ensures
        r == x & y,
        *final(cpu) == after_logic(*old(cpu), r, OPSIZE_32),
{
    crate::arith::and(cpu, x, y, OPSIZE_32)
}

pub fn or8(cpu: &mut Cpu, x: i32, y: i32) -> (r: i32)
    ensures
        r == x | y,
        *final(cpu) == after_logic(*old(cpu), r, OPSIZE_8),
{
    crate::arith::or(cpu, x, y, OPSIZE_8)
}

pub fn or16(cpu: &mut Cpu, x: i32, y: i32) -> (r: i32)
    ensures
        r == x | y,
        *final(cpu) == after_logic(*old(cpu), r, OPSIZE_16),
{
    crate::arith::or(cpu, x, y, OPSIZE_16)
}

pub fn or32(cpu: &mut Cpu, x: i32, y: i32) -> (r: i32)
    ensures
        r == x | y,
        *final(cpu) == after_logic(*old(cpu), r, OPSIZE_32),
{
    crate::arith::or(cpu, x, y, OPSIZE_32)
}

pub fn xor8(cpu: &mut Cpu, x: i32, y: i32) -> (r: i32)
    ensures
        r == x ^ y,
        *final(cpu) == after_logic(*old(cpu), r, OPSIZE_8),
{
    crate::arith::xor(cpu, x, y, OPSIZE_8)
}

pub fn xor16(cpu: &mut Cpu, x: i32, y: i32) -> (r: i32)
    ensures
        r == x ^ y,
        *final(cpu) == after_logic(*old(cpu), r, OPSIZE_16),
{
    crate::arith::xor(cpu, x, y, OPSIZE_16)
}

pub fn xor32(cpu: &mut Cpu, x: i32, y: i32) -> (r: i32)
    ensures
        r == x ^ y,
        *final(cpu) == after_logic(*old(cpu), r, OPSIZE_32),
{
    crate::arith::xor(cpu, x, y, OPSIZE_32)
}

/// Logical compare: the flags of `x & y`, without its value.
pub fn test8(cpu: &mut Cpu, x: i32, y: i32)
    ensures
        *final(cpu) == after_logic(*old(cpu), x & y, OPSIZE_8),
{
    crate::arith::and(cpu, x, y, OPSIZE_8);
}

/// Logical compare: the flags of `x & y`, without its value.
pub fn test16(cpu: &mut Cpu, x: i32, y: i32)
    ensures
        *final(cpu) == after_logic(*old(cpu), x & y, OPSIZE_16),
{
    crate::arith::and(cpu, x, y, OPSIZE_16);
}

/// Logical compare: the flags of `x & y`, without its value.
pub fn test32(cpu: &mut Cpu, x: i32, y: i32)
    ensures
        *final(cpu) == after_logic(*old(cpu), x & y, OPSIZE_32),
{
    crate::arith::and(cpu, x, y, OPSIZE_32);
}

/// Flags after a shift or rotate: carry takes `cf_bit`, overflow takes the
/// overflow bit of `of_bits`.
pub open spec fn shifted_flags(flags: i32, cf_bit: i32, of_bits: i32) -> i32 {
    flags & !FLAG_CARRY & !FLAG_OVERFLOW | cf_bit | of_bits & FLAG_OVERFLOW
}

pub open spec fn rol8_value(x: i32, count: i32) -> i32 {
    x << (count % 8) | x >> (8 - count % 8)
}

/// Rotate an 8-bit value left. A count of zero changes nothing, flags included.
pub fn rol8(cpu: &mut Cpu, dest_operand: i32, count: i32) -> (r: i32)
    requires
        0 <= count < 32,
    ensures
        count == 0 ==> r == dest_operand && *final(cpu) == *old(cpu),
        count != 0 ==> r == rol8_value(dest_operand, count) && *final(cpu) == (Cpu {
            flags_changed: old(cpu).flags_changed & !FLAG_CARRY & !FLAG_OVERFLOW,
            flags: shifted_flags(old(cpu).flags, r & 1, r << 11i32 ^ r << 4i32),
            ..*old(cpu)
        }),
{
    if count == 0 {
        return dest_operand;
    }
    let c = count % 8;
    let result = dest_operand << c | dest_operand >> (8 - c);
    cpu.flags_changed = cpu.flags_changed & !FLAG_CARRY & !FLAG_OVERFLOW;
    cpu.flags = cpu.flags & !FLAG_CARRY & !FLAG_OVERFLOW | result & 1 | (result << 11i32
        ^ result << 4i32) & FLAG_OVERFLOW;
    result
}

/// State after a rotate: only carry and overflow change, and are written
/// directly.
pub open spec fn after_rotate(c: Cpu, flags: i32) -> Cpu {
    Cpu { flags_changed: c.flags_changed & !FLAG_CARRY & !FLAG_OVERFLOW, flags: flags, ..c }
}

pub open spec fn rol16_value(x: i32, count: i32) -> i32 {
    x << (count % 16) | x >> (16 - count % 16)
}

pub fn rol16(cpu: &mut Cpu, dest_operand: i32, count: i32) -> (r: i32)
    requires
        0 <= count < 32,
    ensures
        count == 0 ==> r == dest_operand && *final(cpu) == *old(cpu),
        count != 0 ==> r == rol16_value(dest_operand, count) && *final(cpu) == after_rotate(
            *old(cpu),
            shifted_flags(old(cpu).flags, r & 1, r << 11i32 ^ r >> 4i32),
        ),
{
    if count == 0 {
        return dest_operand;
    }
    let c = count % 16;
    let result = dest_operand << c | dest_operand >> (16 - c);
    cpu.flags_changed = cpu.flags_changed & !FLAG_CARRY & !FLAG_OVERFLOW;
    cpu.flags = cpu.flags & !FLAG_CARRY & !FLAG_OVERFLOW | result & 1 | (result << 11i32
        ^ result >> 4i32) & FLAG_OVERFLOW;
    result
}

pub open spec fn rol32_value(x: i32, count: i32) -> i32 {
    ((x << count) as u32 | (x as u32) >> (32 - count) as u32) as i32
}

pub fn rol32(cpu: &mut Cpu, dest_operand: i32, count: i32) -> (r: i32)
    requires
        0 <= count < 32,
    ensures
        count == 0 ==> r == dest_operand && *final(cpu) == *old(cpu),
        count != 0 ==> r == rol32_value(dest_operand, count) && *final(cpu) == after_rotate(
            *old(cpu),
            shifted_flags(old(cpu).flags, r & 1, r << 11i32 ^ r >> 20i32),
        ),
{
    if count == 0 {
        return dest_operand;
    }
    let result = ((dest_operand << count) as u32 | (dest_operand as u32) >> (32 - count) as u32)
        as i32;
    cpu.flags_changed = cpu.flags_changed & !FLAG_CARRY & !FLAG_OVERFLOW;
    cpu.flags = cpu.flags & !FLAG_CARRY & !FLAG_OVERFLOW | result & 1 | (result << 11i32
        ^ result >> 20i32) & FLAG_OVERFLOW;
    result
}

/// Rotate left through carry: the carry flag is the ninth bit of the rotation.
pub open spec fn rcl8_value(x: i32, count: i32, cf: bool) -> i32 {
    x << (count % 9) | bit(cf) << (count % 9 - 1) | x >> (9 - count % 9)
}

pub fn rcl8(cpu: &mut Cpu, dest_operand: i32, count: i32) -> (r: i32)
    requires
        old(cpu).wf(),
        0 <= count < 32,
    ensures
        count % 9 == 0 ==> r == dest_operand && *final(cpu) == *old(cpu),
        count % 9 != 0 ==> r == rcl8_value(dest_operand, count, old(cpu).cf()) && *final(cpu)
            == after_rotate(
            *old(cpu),
            shifted_flags(old(cpu).flags, r >> 8i32 & 1, r << 3i32 ^ r << 4i32),
        ),
{
    let c = count % 9;
    if c == 0 {
        return dest_operand;
    }
    let cf: i32 = if cpu.getcf() {
        1
    } else {
        0
    };
    let result = dest_operand << c | cf << (c - 1) | dest_operand >> (9 - c);
    cpu.flags_changed = cpu.flags_changed & !FLAG_CARRY & !FLAG_OVERFLOW;
    cpu.flags = cpu.flags & !FLAG_CARRY & !FLAG_OVERFLOW | result >> 8i32 & 1 | (result << 3i32
        ^ result << 4i32) & FLAG_OVERFLOW;
    result
}

/// Rotate left through carry: the carry flag is the seventeenth bit.
pub open spec fn rcl16_value(x: i32, count: i32, cf: bool) -> i32 {
    x << (count % 17) | bit(cf) << (count % 17 - 1) | x >> (17 - count % 17)
}

pub fn rcl16(cpu: &mut Cpu, dest_operand: i32, count: i32) -> (r: i32)
    requires
        old(cpu).wf(),
        0 <= count < 32,
    ensures
        count % 17 == 0 ==> r == dest_operand && *final(cpu) == *old(cpu),
        count % 17 != 0 ==> r == rcl16_value(dest_operand, count, old(cpu).cf()) && *final(cpu)
            == after_rotate(
            *old(cpu),
            shifted_flags(old(cpu).flags, r >> 16i32 & 1, r >> 5i32 ^ r >> 4i32),
        ),
{
    let c = count % 17;
    if c == 0 {
        return dest_operand;
    }
    let cf: i32 = if cpu.getcf() {
        1
    } else {
        0
    };
    let result = dest_operand << c | cf << (c - 1) | dest_operand >> (17 - c);
    cpu.flags_changed = cpu.flags_changed & !FLAG_CARRY & !FLAG_OVERFLOW;
    cpu.flags = cpu.flags & !FLAG_CARRY & !FLAG_OVERFLOW | result >> 16i32 & 1 | (result >> 5i32
        ^ result >> 4i32) & FLAG_OVERFLOW;
    result
}

pub open spec fn rcl32_value(x: i32, count: i32, cf: bool) -> i32 {
    let r = x << count | bit(cf) << (count - 1);
    if count > 1 {
        (r as u32 | (x as u32) >> (33 - count) as u32) as i32
    } else {
        r
    }
}

pub open spec fn rcl32_flags(flags: i32, x: i32, count: i32, r: i32) -> i32 {
    let f = ((flags & !FLAG_CARRY & !FLAG_OVERFLOW) as u32 | (x as u32) >> (32 - count) as u32
        & 1) as i32;
    f | (f << 11i32 ^ r >> 20i32) & FLAG_OVERFLOW
}

pub fn rcl32(cpu: &mut Cpu, dest_operand: i32, count: i32) -> (r: i32)
    requires
        old(cpu).wf(),
        0 <= count < 32,
    ensures
        count == 0 ==> r == dest_operand && *final(cpu) == *old(cpu),
        count != 0 ==> r == rcl32_value(dest_operand, count, old(cpu).cf()) && *final(cpu)
            == after_rotate(*old(cpu), rcl32_flags(old(cpu).flags, dest_operand, count, r)),
{
    if count == 0 {
        return dest_operand;
    }
    let cf: i32 = if cpu.getcf() {
        1
    } else {
        0
    };
    let mut result = dest_operand << count | cf << (count - 1);
    if count > 1 {
        result = (result as u32 | (dest_operand as u32) >> (33 - count) as u32) as i32;
    }
    cpu.flags_changed = cpu.flags_changed & !FLAG_CARRY & !FLAG_OVERFLOW;
    cpu.flags = ((cpu.flags & !FLAG_CARRY & !FLAG_OVERFLOW) as u32 | (dest_operand as u32) >> (32
        - count) as u32 & 1) as i32;
    cpu.flags = cpu.flags | (cpu.flags << 11i32 ^ result >> 20i32) & FLAG_OVERFLOW;
    result
}

pub open spec fn ror8_value(x: i32, count: i32) -> i32 {
    x >> (count % 8) | x << (8 - count % 8)
}

pub fn ror8(cpu: &mut Cpu, dest_operand: i32, count: i32) -> (r: i32)
    requires
        0 <= count < 32,
    ensures
        count == 0 ==> r == dest_operand && *final(cpu) == *old(cpu),
        count != 0 ==> r == ror8_value(dest_operand, count) && *final(cpu) == after_rotate(
            *old(cpu),
            shifted_flags(old(cpu).flags, r >> 7i32 & 1, r << 4i32 ^ r << 5i32),
        ),
{
    if count == 0 {
        return dest_operand;
    }
    let c = count % 8;
    let result = dest_operand >> c | dest_operand << (8 - c);
    cpu.flags_changed = cpu.flags_changed & !FLAG_CARRY & !FLAG_OVERFLOW;
    cpu.flags = cpu.flags & !FLAG_CARRY & !FLAG_OVERFLOW | result >> 7i32 & 1 | (result << 4i32
        ^ result << 5i32) & FLAG_OVERFLOW;
    result
}

pub open spec fn ror16_value(x: i32, count: i32) -> i32 {
    x >> (count % 16) | x << (16 - count % 16)
}

pub fn ror16(cpu: &mut Cpu, dest_operand: i32, count: i32) -> (r: i32)
    requires
        0 <= count < 32,
    ensures
        count == 0 ==> r == dest_operand && *final(cpu) == *old(cpu),
        count != 0 ==> r == ror16_value(dest_operand, count) && *final(cpu) == after_rotate(
            *old(cpu),
            shifted_flags(old(cpu).flags, r >> 15i32 & 1, r >> 4i32 ^ r >> 3i32),
        ),
{
    if count == 0 {
        return dest_operand;
    }
    let c = count % 16;
    let result = dest_operand >> c | dest_operand << (16 - c);
    cpu.flags_changed = cpu.flags_changed & !FLAG_CARRY & !FLAG_OVERFLOW;
    cpu.flags = cpu.flags & !FLAG_CARRY & !FLAG_OVERFLOW | result >> 15i32 & 1 | (result >> 4i32
        ^ result >> 3i32) & FLAG_OVERFLOW;
    result
}

pub open spec fn ror32_value(x: i32, count: i32) -> i32 {
    ((x as u32) >> count as u32 | (x << (32 - count)) as u32) as i32
}

pub fn ror32(cpu: &mut Cpu, dest_operand: i32, count: i32) -> (r: i32)
    requires
        0 <= count < 32,
    ensures
        count == 0 ==> r == dest_operand && *final(cpu) == *old(cpu),
        count != 0 ==> r == ror32_value(dest_operand, count) && *final(cpu) == after_rotate(
            *old(cpu),
            shifted_flags(old(cpu).flags, r >> 31i32 & 1, r >> 20i32 ^ r >> 19i32),
        ),
{
    if count == 0 {
        return dest_operand;
    }
    let result = ((dest_operand as u32) >> count as u32 | (dest_operand << (32 - count)) as u32)
        as i32;
    cpu.flags_changed = cpu.flags_changed & !FLAG_CARRY & !FLAG_OVERFLOW;
    cpu.flags = cpu.flags & !FLAG_CARRY & !FLAG_OVERFLOW | result >> 31i32 & 1 | (result >> 20i32
        ^ result >> 19i32) & FLAG_OVERFLOW;
    result
}

pub open spec fn rcr8_value(x: i32, count: i32, cf: bool) -> i32 {
    x >> (count % 9) | bit(cf) << (8 - count % 9) | x << (9 - count % 9)
}

pub fn rcr8(cpu: &mut Cpu, dest_operand: i32, count: i32) -> (r: i32)
    requires
        old(cpu).wf(),
        0 <= count < 32,
    ensures
        count % 9 == 0 ==> r == dest_operand && *final(cpu) == *old(cpu),
        count % 9 != 0 ==> r == rcr8_value(dest_operand, count, old(cpu).cf()) && *final(cpu)
            == after_rotate(
            *old(cpu),
            shifted_flags(old(cpu).flags, r >> 8i32 & 1, r << 4i32 ^ r << 5i32),
        ),
{
    let c = count % 9;
    if c == 0 {
        return dest_operand;
    }
    let cf: i32 = if cpu.getcf() {
        1
    } else {
        0
    };
    let result = dest_operand >> c | cf << (8 - c) | dest_operand << (9 - c);
    cpu.flags_changed = cpu.flags_changed & !FLAG_CARRY & !FLAG_OVERFLOW;
    cpu.flags = cpu.flags & !FLAG_CARRY & !FLAG_OVERFLOW | result >> 8i32 & 1 | (result << 4i32
        ^ result << 5i32) & FLAG_OVERFLOW;
    result
}

pub open spec fn rcr16_value(x: i32, count: i32, cf: bool) -> i32 {
    x >> (count % 17) | bit(cf) << (16 - count % 17) | x << (17 - count % 17)
}

pub fn rcr16(cpu: &mut Cpu, dest_operand: i32, count: i32) -> (r: i32)
    requires
        old(cpu).wf(),
        0 <= count < 32,
    ensures
        count % 17 == 0 ==> r == dest_operand && *final(cpu) == *old(cpu),
        count % 17 != 0 ==> r == rcr16_value(dest_operand, count, old(cpu).cf()) && *final(cpu)
            == after_rotate(
            *old(cpu),
            shifted_flags(old(cpu).flags, r >> 16i32 & 1, r >> 4i32 ^ r >> 3i32),
        ),
{
    let c = count % 17;
    if c == 0 {
        return dest_operand;
    }
    let cf: i32 = if cpu.getcf() {
        1
    } else {
        0
    };
    let result = dest_operand >> c | cf << (16 - c) | dest_operand << (17 - c);
    cpu.flags_changed = cpu.flags_changed & !FLAG_CARRY & !FLAG_OVERFLOW;
    cpu.flags = cpu.flags & !FLAG_CARRY & !FLAG_OVERFLOW | result >> 16i32 & 1 | (result >> 4i32
        ^ result >> 3i32) & FLAG_OVERFLOW;
    result
}

pub open spec fn rcr32_value(x: i32, count: i32, cf: bool) -> i32 {
    let r = ((x as u32) >> count as u32 | (bit(cf) << (32 - count)) as u32) as i32;
    if count > 1 {
        r | x << (33 - count)
    } else {
        r
    }
}

pub fn rcr32(cpu: &mut Cpu, dest_operand: i32, count: i32) -> (r: i32)
    requires
        old(cpu).wf(),
        0 <= count < 32,
    ensures
        count == 0 ==> r == dest_operand && *final(cpu) == *old(cpu),
        count != 0 ==> r == rcr32_value(dest_operand, count, old(cpu).cf()) && *final(cpu)
            == after_rotate(
            *old(cpu),
            shifted_flags(
                old(cpu).flags,
                dest_operand >> (count - 1) & 1,
                r >> 20i32 ^ r >> 19i32,
            ),
        ),
{
    if count == 0 {
        return dest_operand;
    }
    let cf: i32 = if cpu.getcf() {
        1
    } else {
        0
    };
    let mut result = ((dest_operand as u32) >> count as u32 | (cf << (32 - count)) as u32) as i32;
    if count > 1 {
        result = result | dest_operand << (33 - count);
    }
    cpu.flags_changed = cpu.flags_changed & !FLAG_CARRY & !FLAG_OVERFLOW;
    cpu.flags = cpu.flags & !FLAG_CARRY & !FLAG_OVERFLOW | dest_operand >> (count - 1) & 1 | (
    result >> 20i32 ^ result >> 19i32) & FLAG_OVERFLOW;
    result
}

/// State after a shift with value `result`: carry and overflow are written,
/// the other arithmetic flags are derived from the result.
pub open spec fn after_shift(c: Cpu, result: i32, size: i32, flags: i32) -> Cpu {
    Cpu {
        last_result: result,
        last_op_size: size,
        flags_changed: FLAGS_ALL & !FLAG_CARRY & !FLAG_OVERFLOW,
        flags: flags,
        ..c
    }
}

pub fn shl8(cpu: &mut Cpu, dest_operand: i32, count: i32) -> (r: i32)
    requires
        0 <= count < 32,
    ensures
        count == 0 ==> r == dest_operand && *final(cpu) == *old(cpu),
        count != 0 ==> r == dest_operand << count && *final(cpu) == after_shift(
            *old(cpu),
            r,
            OPSIZE_8,
            shifted_flags(old(cpu).flags, r >> 8i32 & 1, r << 3i32 ^ r << 4i32),
        ),
{
    if count == 0 {
        return dest_operand;
    }
    let result = dest_operand << count;
    cpu.last_result = result;
    cpu.last_op_size = OPSIZE_8;
    cpu.flags_changed = FLAGS_ALL & !FLAG_CARRY & !FLAG_OVERFLOW;
    cpu.flags = cpu.flags & !FLAG_CARRY & !FLAG_OVERFLOW | result >> 8i32 & 1 | (result << 3i32
        ^ result << 4i32) & FLAG_OVERFLOW;
    result
}

pub fn shl16(cpu: &mut Cpu, dest_operand: i32, count: i32) -> (r: i32)
    requires
        0 <= count < 32,
    ensures
        count == 0 ==> r == dest_operand && *final(cpu) == *old(cpu),
        count != 0 ==> r == dest_operand << count && *final(cpu) == after_shift(
            *old(cpu),
            r,
            OPSIZE_16,
            shifted_flags(old(cpu).flags, r >> 16i32 & 1, r >> 5i32 ^ r >> 4i32),
        ),
{
    if count == 0 {
        return dest_operand;
    }
    let result = dest_operand << count;
    cpu.last_result = result;
    cpu.last_op_size = OPSIZE_16;
    cpu.flags_changed = FLAGS_ALL & !FLAG_CARRY & !FLAG_OVERFLOW;
    cpu.flags = cpu.flags & !FLAG_CARRY & !FLAG_OVERFLOW | result >> 16i32 & 1 | (result >> 5i32
        ^ result >> 4i32) & FLAG_OVERFLOW;
    result
}

/// Carry is the last bit shifted out; overflow is carry XOR the new sign bit.
pub open spec fn shl32_flags(flags: i32, x: i32, count: i32, r: i32) -> i32 {
    let f = flags & !FLAG_CARRY & !FLAG_OVERFLOW | x >> (32 - count) & 1;
    f | ((f & 1 ^ r >> 31i32 & 1) << 11i32) & FLAG_OVERFLOW
}

pub fn shl32(cpu: &mut Cpu, dest_operand: i32, count: i32) -> (r: i32)
    requires
        0 <= count < 32,
    ensures
        count == 0 ==> r == dest_operand && *final(cpu) == *old(cpu),
        count != 0 ==> r == dest_operand << count && *final(cpu) == after_shift(
            *old(cpu),
            r,
            OPSIZE_32,
            shl32_flags(old(cpu).flags, dest_operand, count, r),
        ),
{
    if count == 0 {
        return dest_operand;
    }
    let result = dest_operand << count;
    cpu.last_result = result;
    cpu.last_op_size = OPSIZE_32;
    cpu.flags_changed = FLAGS_ALL & !FLAG_CARRY & !FLAG_OVERFLOW;
    cpu.flags = cpu.flags & !FLAG_CARRY & !FLAG_OVERFLOW | dest_operand >> (32 - count) & 1;
    cpu.flags = cpu.flags | ((cpu.flags & 1 ^ result >> 31i32 & 1) << 11i32) & FLAG_OVERFLOW;
    result
}

pub fn shr8(cpu: &mut Cpu, dest_operand: i32, count: i32) -> (r: i32)
    requires
        0 <= count < 32,
    ensures
        count == 0 ==> r == dest_operand && *final(cpu) == *old(cpu),
        count != 0 ==> r == dest_operand >> count && *final(cpu) == after_shift(
            *old(cpu),
            r,
            OPSIZE_8,
            shifted_flags(
                old(cpu).flags,
                dest_operand >> (count - 1) & 1,
                (dest_operand >> 7i32 & 1) << 11i32,
            ),
        ),
{
    if count == 0 {
        return dest_operand;
    }
    let result = dest_operand >> count;
    cpu.last_result = result;
    cpu.last_op_size = OPSIZE_8;
    cpu.flags_changed = FLAGS_ALL & !FLAG_CARRY & !FLAG_OVERFLOW;
    cpu.flags = cpu.flags & !FLAG_CARRY & !FLAG_OVERFLOW | dest_operand >> (count - 1) & 1 | (
    dest_operand >> 7i32 & 1) << 11i32 & FLAG_OVERFLOW;
    result
}

pub fn shr16(cpu: &mut Cpu, dest_operand: i32, count: i32) -> (r: i32)
    requires
        0 <= count < 32,
    ensures
        count == 0 ==> r == dest_operand && *final(cpu) == *old(cpu),
        count != 0 ==> r == dest_operand >> count && *final(cpu) == after_shift(
            *old(cpu),
            r,
            OPSIZE_16,
            shifted_flags(old(cpu).flags, dest_operand >> (count - 1) & 1, dest_operand >> 4i32),
        ),
{
    if count == 0 {
        return dest_operand;
    }
    let result = dest_operand >> count;
    cpu.last_result = result;
    cpu.last_op_size = OPSIZE_16;
    cpu.flags_changed = FLAGS_ALL & !FLAG_CARRY & !FLAG_OVERFLOW;
    cpu.flags = cpu.flags & !FLAG_CARRY & !FLAG_OVERFLOW | dest_operand >> (count - 1) & 1
        | dest_operand >> 4i32 & FLAG_OVERFLOW;
    result
}

pub open spec fn shr32_flags(flags: i32, x: i32, count: i32) -> i32 {
    ((flags & !FLAG_CARRY & !FLAG_OVERFLOW) as u32 | (x as u32) >> (count - 1) as u32 & 1 | (x
        >> 20i32 & FLAG_OVERFLOW) as u32) as i32
}

pub fn shr32(cpu: &mut Cpu, dest_operand: i32, count: i32) -> (r: i32)
    requires
        0 <= count < 32,
    ensures
        count == 0 ==> r == dest_operand && *final(cpu) == *old(cpu),
        count != 0 ==> r == ((dest_operand as u32) >> count as u32) as i32 && *final(cpu)
            == after_shift(
            *old(cpu),
            r,
            OPSIZE_32,
            shr32_flags(old(cpu).flags, dest_operand, count),
        ),
{
    if count == 0 {
        return dest_operand;
    }
    let result = ((dest_operand as u32) >> count as u32) as i32;
    cpu.last_result = result;
    cpu.last_op_size = OPSIZE_32;
    cpu.flags_changed = FLAGS_ALL & !FLAG_CARRY & !FLAG_OVERFLOW;
    cpu.flags = ((cpu.flags & !FLAG_CARRY & !FLAG_OVERFLOW) as u32 | (dest_operand as u32) >> (
    count - 1) as u32 & 1 | (dest_operand >> 20i32 & FLAG_OVERFLOW) as u32) as i32;
    result
}

/// Arithmetic right shift of an 8-bit value; counts of 8 or more fill the
/// value with its sign.
pub open spec fn sar8_value(x: i32, count: i32) -> i32 {
    if count < 8 {
        x << 24i32 >> (count + 24)
    } else {
        x << 24i32 >> 31i32
    }
}

pub fn sar8(cpu: &mut Cpu, dest_operand: i32, count: i32) -> (r: i32)
    requires
        0 <= count < 32,
    ensures
        count == 0 ==> r == dest_operand && *final(cpu) == *old(cpu),
        count != 0 ==> r == sar8_value(dest_operand, count) && *final(cpu) == after_shift(
            *old(cpu),
            r,
            OPSIZE_8,
            shifted_flags(
                old(cpu).flags,
                if count < 8 {
                    dest_operand >> (count - 1) & 1
                } else {
                    r & 1
                },
                0,
            ),
        ),
{
    if count == 0 {
        return dest_operand;
    }
    let result;
    if count < 8 {
        result = dest_operand << 24i32 >> (count + 24);
        cpu.flags = cpu.flags & !FLAG_CARRY & !FLAG_OVERFLOW | dest_operand >> (count - 1) & 1;
    } else {
        result = dest_operand << 24i32 >> 31i32;
        cpu.flags = cpu.flags & !FLAG_CARRY & !FLAG_OVERFLOW | result & 1;
    }
    cpu.last_result = result;
    cpu.last_op_size = OPSIZE_8;
    cpu.flags_changed = FLAGS_ALL & !FLAG_CARRY & !FLAG_OVERFLOW;
    proof {
        lemma_no_overflow_bits(old(cpu).flags, dest_operand >> (count - 1) & 1);
        lemma_no_overflow_bits(old(cpu).flags, result & 1);
    }
    result
}

pub open spec fn sar16_value(x: i32, count: i32) -> i32 {
    if count < 16 {
        x << 16i32 >> (count + 16)
    } else {
        x << 16i32 >> 31i32
    }
}

pub fn sar16(cpu: &mut Cpu, dest_operand: i32, count: i32) -> (r: i32)
    requires
        0 <= count < 32,
    ensures
        count == 0 ==> r == dest_operand && *final(cpu) == *old(cpu),
        count != 0 ==> r == sar16_value(dest_operand, count) && *final(cpu) == after_shift(
            *old(cpu),
            r,
            OPSIZE_16,
            shifted_flags(
                old(cpu).flags,
                if count < 16 {
                    dest_operand >> (count - 1) & 1
                } else {
                    r & 1
                },
                0,
            ),
        ),
{
    if count == 0 {
        return dest_operand;
    }
    let result;
    if count < 16 {
        result = dest_operand << 16i32 >> (count + 16);
        cpu.flags = cpu.flags & !FLAG_CARRY & !FLAG_OVERFLOW | dest_operand >> (count - 1) & 1;
    } else {
        result = dest_operand << 16i32 >> 31i32;
        cpu.flags = cpu.flags & !FLAG_CARRY & !FLAG_OVERFLOW | result & 1;
    }
    cpu.last_result = result;
    cpu.last_op_size = OPSIZE_16;
    cpu.flags_changed = FLAGS_ALL & !FLAG_CARRY & !FLAG_OVERFLOW;
    proof {
        lemma_no_overflow_bits(old(cpu).flags, dest_operand >> (count - 1) & 1);
        lemma_no_overflow_bits(old(cpu).flags, result & 1);
    }
    result
}

pub open spec fn sar32_flags(flags: i32, x: i32, count: i32) -> i32 {
    ((flags & !FLAG_CARRY & !FLAG_OVERFLOW) as u32 | (x as u32) >> (count - 1) as u32 & 1) as i32
}

pub fn sar32(cpu: &mut Cpu, dest_operand: i32, count: i32) -> (r: i32)
    requires
        0 <= count < 32,
    ensures
        count == 0 ==> r == dest_operand && *final(cpu) == *old(cpu),
        count != 0 ==> r == dest_operand >> count && *final(cpu) == after_shift(
            *old(cpu),
            r,
            OPSIZE_32,
            sar32_flags(old(cpu).flags, dest_operand, count),
        ),
{
    if count == 0 {
        return dest_operand;
    }
    let result = dest_operand >> count;
    cpu.last_result = result;
    cpu.last_op_size = OPSIZE_32;
    cpu.flags_changed = FLAGS_ALL & !FLAG_CARRY & !FLAG_OVERFLOW;
    cpu.flags = ((cpu.flags & !FLAG_CARRY & !FLAG_OVERFLOW) as u32 | (dest_operand as u32) >> (
    count - 1) as u32 & 1) as i32;
    result
}

/// The form of the flags that a shift writes when overflow is cleared.
pub proof fn lemma_no_overflow_bits(flags: i32, b: i32)
    by (bit_vector)
    ensures
        flags & !FLAG_CARRY & !FLAG_OVERFLOW | b == flags & !FLAG_CARRY & !FLAG_OVERFLOW | b | 0
            & FLAG_OVERFLOW,
{
}

pub open spec fn shrd16_value(x: i32, y: i32, count: i32) -> i32 {
    if count <= 16 {
        x >> count | y << (16 - count)
    } else {
        x << (32 - count) | y >> (count - 16)
    }
}

pub open spec fn shrd16_flags(flags: i32, x: i32, y: i32, count: i32, r: i32) -> i32 {
    let f = if count <= 16 {
        flags & !FLAG_CARRY | x >> (count - 1) & 1
    } else {
        flags & !FLAG_CARRY | y >> (count - 17) & 1
    };
    f & !FLAG_OVERFLOW | (r ^ x) >> 4i32 & FLAG_OVERFLOW
}

/// Double-precision right shift of a 16-bit value, filled from `source_operand`.
pub fn shrd16(cpu: &mut Cpu, dest_operand: i32, source_operand: i32, count: i32) -> (r: i32)
    requires
        0 <= count < 32,
    ensures
        count == 0 ==> r == dest_operand && *final(cpu) == *old(cpu),
        count != 0 ==> r == shrd16_value(dest_operand, source_operand, count) && *final(cpu)
            == after_shift(
            *old(cpu),
            r,
            OPSIZE_16,
            shrd16_flags(old(cpu).flags, dest_operand, source_operand, count, r),
        ),
{
    if count == 0 {
        return dest_operand;
    }
    let result;
    if count <= 16 {
        result = dest_operand >> count | source_operand << (16 - count);
        cpu.flags = cpu.flags & !FLAG_CARRY | dest_operand >> (count - 1) & 1;
    } else {
        result = dest_operand << (32 - count) | source_operand >> (count - 16);
        cpu.flags = cpu.flags & !FLAG_CARRY | source_operand >> (count - 17) & 1;
    }
    cpu.last_result = result;
    cpu.last_op_size = OPSIZE_16;
    cpu.flags_changed = FLAGS_ALL & !FLAG_CARRY & !FLAG_OVERFLOW;
    cpu.flags = cpu.flags & !FLAG_OVERFLOW | (result ^ dest_operand) >> 4i32 & FLAG_OVERFLOW;
    result
}

pub open spec fn shrd32_value(x: i32, y: i32, count: i32) -> i32 {
    ((x as u32) >> count as u32 | (y << (32 - count)) as u32) as i32
}

pub open spec fn shrd32_flags(flags: i32, x: i32, count: i32, r: i32) -> i32 {
    let f = ((flags & !FLAG_CARRY) as u32 | (x as u32) >> (count - 1) as u32 & 1) as i32;
    f & !FLAG_OVERFLOW | (r ^ x) >> 20i32 & FLAG_OVERFLOW
}

/// Double-precision right shift of a 32-bit value, filled from `source_operand`.
pub fn shrd32(cpu: &mut Cpu, dest_operand: i32, source_operand: i32, count: i32) -> (r: i32)
    requires
        0 <= count < 32,
    ensures
        count == 0 ==> r == dest_operand && *final(cpu) == *old(cpu),
        count != 0 ==> r == shrd32_value(dest_operand, source_operand, count) && *final(cpu)
            == after_shift(
            *old(cpu),
            r,
            OPSIZE_32,
            shrd32_flags(old(cpu).flags, dest_operand, count, r),
        ),
{
    if count == 0 {
        return dest_operand;
    }
    let result = ((dest_operand as u32) >> count as u32 | (source_operand << (32 - count)) as u32)
        as i32;
    cpu.last_result = result;
    cpu.last_op_size = OPSIZE_32;
    cpu.flags_changed = FLAGS_ALL & !FLAG_CARRY & !FLAG_OVERFLOW;
    cpu.flags = ((cpu.flags & !FLAG_CARRY) as u32 | (dest_operand as u32) >> (count - 1) as u32
        & 1) as i32;
    cpu.flags = cpu.flags & !FLAG_OVERFLOW | (result ^ dest_operand) >> 20i32 & FLAG_OVERFLOW;
    result
}

pub open spec fn shld16_value(x: i32, y: i32, count: i32) -> i32 {
    if count <= 16 {
        ((x << count) as u32 | (y as u32) >> (16 - count) as u32) as i32
    } else {
        x >> (32 - count) | y << (count - 16)
    }
}

pub open spec fn shld16_flags(flags: i32, x: i32, y: i32, count: i32, r: i32) -> i32 {
    let f = if count <= 16 {
        ((flags & !FLAG_CARRY) as u32 | (x as u32) >> (16 - count) as u32 & 1) as i32
    } else {
        ((flags & !FLAG_CARRY) as u32 | (y as u32) >> (32 - count) as u32 & 1) as i32
    };
    f & !FLAG_OVERFLOW | (f & 1 ^ r >> 15i32 & 1) << 11i32
}

/// Double-precision left shift of a 16-bit value, filled from `source_operand`.
pub fn shld16(cpu: &mut Cpu, dest_operand: i32, source_operand: i32, count: i32) -> (r: i32)
    requires
        0 <= count < 32,
    ensures
        count == 0 ==> r == dest_operand && *final(cpu) == *old(cpu),
        count != 0 ==> r == shld16_value(dest_operand, source_operand, count) && *final(cpu)
            == after_shift(
            *old(cpu),
            r,
            OPSIZE_16,
            shld16_flags(old(cpu).flags, dest_operand, source_operand, count, r),
        ),
{
    if count == 0 {
        return dest_operand;
    }
    let result;
    if count <= 16 {
        result = ((dest_operand << count) as u32 | (source_operand as u32) >> (16 - count) as u32)
            as i32;
        cpu.flags = ((cpu.flags & !FLAG_CARRY) as u32 | (dest_operand as u32) >> (16
            - count) as u32 & 1) as i32;
    } else {
        result = dest_operand >> (32 - count) | source_operand << (count - 16);
        cpu.flags = ((cpu.flags & !FLAG_CARRY) as u32 | (source_operand as u32) >> (32
            - count) as u32 & 1) as i32;
    }
    cpu.last_result = result;
    cpu.last_op_size = OPSIZE_16;
    cpu.flags_changed = FLAGS_ALL & !FLAG_CARRY & !FLAG_OVERFLOW;
    cpu.flags = cpu.flags & !FLAG_OVERFLOW | (cpu.flags & 1 ^ result >> 15i32 & 1) << 11i32;
    result
}

pub open spec fn shld32_value(x: i32, y: i32, count: i32) -> i32 {
    ((x << count) as u32 | (y as u32) >> (32 - count) as u32) as i32
}

/// Overflow is defined for a count of one only, and cleared otherwise.
pub open spec fn shld32_flags(flags: i32, x: i32, count: i32, r: i32) -> i32 {
    let f = ((flags & !FLAG_CARRY) as u32 | (x as u32) >> (32 - count) as u32 & 1) as i32;
    if count == 1 {
        f & !FLAG_OVERFLOW | (f & 1 ^ r >> 31i32 & 1) << 11i32
    } else {
        f & !FLAG_OVERFLOW
    }
}

/// Double-precision left shift of a 32-bit value, filled from `source_operand`.
pub fn shld32(cpu: &mut Cpu, dest_operand: i32, source_operand: i32, count: i32) -> (r: i32)
    requires
        0 <= count < 32,
    ensures
        count == 0 ==> r == dest_operand && *final(cpu) == *old(cpu),
        count != 0 ==> r == shld32_value(dest_operand, source_operand, count) && *final(cpu)
            == after_shift(
            *old(cpu),
            r,
            OPSIZE_32,
            shld32_flags(old(cpu).flags, dest_operand, count, r),
        ),
{
    if count == 0 {
        return dest_operand;
    }
    let result = ((dest_operand << count) as u32 | (source_operand as u32) >> (32 - count) as u32)
        as i32;
    cpu.last_result = result;
    cpu.last_op_size = OPSIZE_32;
    cpu.flags_changed = FLAGS_ALL & !FLAG_CARRY & !FLAG_OVERFLOW;
    cpu.flags = ((cpu.flags & !FLAG_CARRY) as u32 | (dest_operand as u32) >> (32 - count) as u32
        & 1) as i32;
    if count == 1 {
        cpu.flags = cpu.flags & !FLAG_OVERFLOW | (cpu.flags & 1 ^ result >> 31i32 & 1) << 11i32;
    } else {
        cpu.flags = cpu.flags & !FLAG_OVERFLOW;
    }
    result
}

pub open spec fn abs(x: int) -> int {
    if x < 0 {
        -x
    } else {
        x
    }
}

/// Integer division rounding toward zero.
pub open spec fn trunc_div(n: int, d: int) -> int {
    if (n < 0) == (d < 0) {
        abs(n) / abs(d)
    } else {
        -(abs(n) / abs(d))
    }
}

/// Remainder of `trunc_div`; it has the sign of the dividend.
pub open spec fn trunc_rem(n: int, d: int) -> int {
    if n < 0 {
        -(abs(n) % abs(d))
    } else {
        abs(n) % abs(d)
    }
}

/// Signed division rounding toward zero, with the remainder.
fn signed_divide(n: i128, d: i128) -> (r: (i128, i128))
    requires
        d != 0,
        -0x1_0000_0000_0000_0000 <= n <= 0x1_0000_0000_0000_0000,
        -0x1_0000_0000_0000_0000 <= d <= 0x1_0000_0000_0000_0000,
    ensures
        r.0 == trunc_div(n as int, d as int),
        r.1 == trunc_rem(n as int, d as int),
{
    let an: i128 = if n < 0 {
        -n
    } else {
        n
    };
    let ad: i128 = if d < 0 {
        -d
    } else {
        d
    };
    let q0 = an / ad;
    let r0 = an % ad;
    let q = if (n < 0) == (d < 0) {
        q0
    } else {
        -q0
    };
    let m = if n < 0 {
        -r0
    } else {
        r0
    };
    (q, m)
}

/// Unsigned divide of AX: quotient to AL, remainder to AH. A zero divisor or
/// a quotient above 8 bits raises the divide error and changes nothing.
pub fn div8(cpu: &mut Cpu, source_operand: u32) -> (r: Result<(), CpuException>)
    requires
        source_operand < 0x100,
    ensures
        ({
            let n = old(cpu).reg16(AX as int);
            let fails = source_operand == 0 || n / source_operand >= 0x100;
            &&& fails ==> r == Err::<(), CpuException>(CpuException::DivideError) && *final(cpu)
                == *old(cpu)
            &&& !fails ==> r is Ok && final(cpu).reg32@ == old(cpu).reg32@.update(
                EAX as int,
                with_low16(
                    old(cpu).reg32@[EAX as int],
                    (n / source_operand + n % source_operand * 0x100) as u32,
                ),
            ) && *final(cpu) == (Cpu { reg32: final(cpu).reg32, ..*old(cpu) })
        }),
{
    if source_operand == 0 {
        return Err(CpuException::DivideError);
    }
    let n = cpu.get_reg16(AX);
    let q = n / source_operand;
    if q >= 0x100 {
        return Err(CpuException::DivideError);
    }
    let m = n % source_operand;
    cpu.set_reg16(AX, q + m * 0x100);
    Ok(())
}

/// Signed divide of AX: quotient to AL, remainder to AH, rounding toward zero.
pub fn idiv8(cpu: &mut Cpu, source_operand: i32) -> (r: Result<(), CpuException>)
    requires
        -0x80 <= source_operand < 0x80,
    ensures
        ({
            let n = signed16(old(cpu).reg16(AX as int));
            let q = trunc_div(n, source_operand as int);
            let m = trunc_rem(n, source_operand as int);
            let fails = source_operand == 0 || q >= 0x80 || q <= -0x81;
            &&& fails ==> r == Err::<(), CpuException>(CpuException::DivideError) && *final(cpu)
                == *old(cpu)
            &&& !fails ==> r is Ok && final(cpu).reg32@ == old(cpu).reg32@.update(
                EAX as int,
                with_low16(old(cpu).reg32@[EAX as int], (q % 0x100 + m % 0x100 * 0x100) as u32),
            ) && *final(cpu) == (Cpu { reg32: final(cpu).reg32, ..*old(cpu) })
        }),
{
    if source_operand == 0 {
        return Err(CpuException::DivideError);
    }
    let ax = cpu.get_reg16(AX) as i32;
    let n: i32 = if ax >= 0x8000 {
        ax - 0x10000
    } else {
        ax
    };
    let (q, m) = signed_divide(n as i128, source_operand as i128);
    if q >= 0x80 || q <= -0x81 {
        return Err(CpuException::DivideError);
    }
    assert(-0x80 < m < 0x80);
    let q8 = ((q + 0x100) % 0x100) as u32;
    let m8 = ((m + 0x100) % 0x100) as u32;
    cpu.set_reg16(AX, q8 + m8 * 0x100);
    Ok(())
}

/// Unsigned divide of DX:AX: quotient to AX, remainder to DX.
pub fn div16(cpu: &mut Cpu, source_operand: u32) -> (r: Result<(), CpuException>)
    requires
        source_operand < 0x10000,
    ensures
        ({
            let n = old(cpu).reg16(AX as int) + old(cpu).reg16(DX as int) * 0x10000;
            let fails = source_operand == 0 || n / source_operand as int >= 0x10000;
            &&& fails ==> r == Err::<(), CpuException>(CpuException::DivideError) && *final(cpu)
                == *old(cpu)
            &&& !fails ==> r is Ok && final(cpu).reg32@ == old(cpu).reg32@.update(
                EAX as int,
                with_low16(old(cpu).reg32@[EAX as int], (n / source_operand as int) as u32),
            ).update(
                EDX as int,
                with_low16(old(cpu).reg32@[EDX as int], (n % source_operand as int) as u32),
            ) && *final(cpu) == (Cpu { reg32: final(cpu).reg32, ..*old(cpu) })
        }),
{
    if source_operand == 0 {
        return Err(CpuException::DivideError);
    }
    let ax = cpu.get_reg16(AX);
    let dx = cpu.get_reg16(DX);
    let n: u32 = ax + dx * 0x10000;
    let q = n / source_operand;
    if q >= 0x10000 {
        return Err(CpuException::DivideError);
    }
    let m = n % source_operand;
    cpu.set_reg16(AX, q);
    cpu.set_reg16(DX, m);
    Ok(())
}

/// Signed divide of DX:AX: quotient to AX, remainder to DX.
pub fn idiv16(cpu: &mut Cpu, source_operand: i32) -> (r: Result<(), CpuException>)
    requires
        -0x8000 <= source_operand < 0x8000,
    ensures
        ({
            let n = signed32(
                (old(cpu).reg16(AX as int) + old(cpu).reg16(DX as int) * 0x10000) as u32,
            );
            let q = trunc_div(n, source_operand as int);
            let m = trunc_rem(n, source_operand as int);
            let fails = source_operand == 0 || q >= 0x8000 || q <= -0x8001;
            &&& fails ==> r == Err::<(), CpuException>(CpuException::DivideError) && *final(cpu)
                == *old(cpu)
            &&& !fails ==> r is Ok && final(cpu).reg32@ == old(cpu).reg32@.update(
                EAX as int,
                with_low16(old(cpu).reg32@[EAX as int], (q % 0x10000) as u32),
            ).update(EDX as int, with_low16(old(cpu).reg32@[EDX as int], (m % 0x10000) as u32))
                && *final(cpu) == (Cpu { reg32: final(cpu).reg32, ..*old(cpu) })
        }),
{
    if source_operand == 0 {
        return Err(CpuException::DivideError);
    }
    let ax = cpu.get_reg16(AX);
    let dx = cpu.get_reg16(DX);
    let u: u32 = ax + dx * 0x10000;
    let n: i64 = if u >= 0x8000_0000 {
        u as i64 - 0x1_0000_0000
    } else {
        u as i64
    };
    let (q, m) = signed_divide(n as i128, source_operand as i128);
    if q >= 0x8000 || q <= -0x8001 {
        return Err(CpuException::DivideError);
    }
    assert(-0x8000 < m < 0x8000);
    cpu.set_reg16(AX, ((q + 0x10000) % 0x10000) as u32);
    cpu.set_reg16(DX, ((m + 0x10000) % 0x10000) as u32);
    Ok(())
}

/// Unsigned divide of EDX:EAX: quotient to EAX, remainder to EDX.
pub fn div32(cpu: &mut Cpu, source_operand: u32) -> (r: Result<(), CpuException>)
    ensures
        ({
            let n = old(cpu).reg(EAX as int) + old(cpu).reg(EDX as int) * 0x1_0000_0000;
            let fails = source_operand == 0 || n / source_operand as int > 0xFFFF_FFFF;
            &&& fails ==> r == Err::<(), CpuException>(CpuException::DivideError) && *final(cpu)
                == *old(cpu)
            &&& !fails ==> r is Ok && final(cpu).reg32@ == old(cpu).reg32@.update(
                EAX as int,
                (n / source_operand as int) as u32,
            ).update(EDX as int, (n % source_operand as int) as u32) && *final(cpu) == (Cpu {
                reg32: final(cpu).reg32,
                ..*old(cpu)
            })
        }),
{
    if source_operand == 0 {
        return Err(CpuException::DivideError);
    }
    let low = cpu.get_reg32(EAX) as u64;
    let high = cpu.get_reg32(EDX) as u64;
    let n: u64 = low + high * 0x1_0000_0000;
    let q = n / source_operand as u64;
    if q > 0xFFFF_FFFF {
        return Err(CpuException::DivideError);
    }
    let m = n % source_operand as u64;
    cpu.set_reg32(EAX, q as u32);
    cpu.set_reg32(EDX, m as u32);
    Ok(())
}

/// The signed 64-bit dividend held in EDX:EAX.
pub open spec fn edx_eax_signed(eax: u32, edx: u32) -> int {
    let u = eax + edx * 0x1_0000_0000;
    if u >= 0x8000_0000_0000_0000 {
        u - 0x1_0000_0000_0000_0000
    } else {
        u
    }
}

/// Signed divide of EDX:EAX: quotient to EAX, remainder to EDX. The most
/// negative dividend divided by -1 raises the divide error like any other
/// quotient that does not fit.
pub fn idiv32(cpu: &mut Cpu, source_operand: i32) -> (r: Result<(), CpuException>)
    ensures
        ({
            let n = edx_eax_signed(old(cpu).reg(EAX as int), old(cpu).reg(EDX as int));
            let q = trunc_div(n, source_operand as int);
            let m = trunc_rem(n, source_operand as int);
            let fails = source_operand == 0 || q < -0x8000_0000 || q > 0x7FFF_FFFF;
            &&& fails ==> r == Err::<(), CpuException>(CpuException::DivideError) && *final(cpu)
                == *old(cpu)
            &&& !fails ==> r is Ok && final(cpu).reg32@ == old(cpu).reg32@.update(
                EAX as int,
                (q % 0x1_0000_0000) as u32,
            ).update(EDX as int, (m % 0x1_0000_0000) as u32) && *final(cpu) == (Cpu {
                reg32: final(cpu).reg32,
                ..*old(cpu)
            })
        }),
{
    if source_operand == 0 {
        return Err(CpuException::DivideError);
    }
    let low = cpu.get_reg32(EAX) as i128;
    let high = cpu.get_reg32(EDX) as i128;
    let u: i128 = low + high * 0x1_0000_0000;
    let n: i128 = if u >= 0x8000_0000_0000_0000 {
        u - 0x1_0000_0000_0000_0000
    } else {
        u
    };
    if source_operand == -1 && n == -0x8000_0000_0000_0000 {
        assert(trunc_div(n as int, -1) == 0x8000_0000_0000_0000);
        return Err(CpuException::DivideError);
    }
    let (q, m) = signed_divide(n, source_operand as i128);
    if q < -0x8000_0000 || q > 0x7FFF_FFFF {
        return Err(CpuException::DivideError);
    }
    assert(abs(m as int) < abs(source_operand as int));
    cpu.set_reg32(EAX, ((q + 0x1_0000_0000) % 0x1_0000_0000) as u32);
    cpu.set_reg32(EDX, ((m + 0x1_0000_0000) % 0x1_0000_0000) as u32);
    Ok(())
}

/// Carry takes bit `bit_offset` of `bit_base`.
pub open spec fn with_tested_bit(c: Cpu, bit_base: i32, bit_offset: i32) -> Cpu {
    Cpu {
        flags: c.flags & !FLAG_CARRY | bit_base >> bit_offset & 1,
        flags_changed: c.flags_changed & !FLAG_CARRY,
        ..c
    }
}

pub fn bt_reg(cpu: &mut Cpu, bit_base: i32, bit_offset: i32)
    requires
        0 <= bit_offset < 32,
    ensures
        *final(cpu) == with_tested_bit(*old(cpu), bit_base, bit_offset),
{
    cpu.flags = cpu.flags & !FLAG_CARRY | bit_base >> bit_offset & 1;
    cpu.flags_changed = cpu.flags_changed & !FLAG_CARRY;
}

/// Tests a bit and returns the base with that bit complemented.
pub fn btc_reg(cpu: &mut Cpu, bit_base: i32, bit_offset: i32) -> (r: i32)
    requires
        0 <= bit_offset < 32,
    ensures
        r == bit_base ^ 1i32 << bit_offset,
        *final(cpu) == with_tested_bit(*old(cpu), bit_base, bit_offset),
{
    bt_reg(cpu, bit_base, bit_offset);
    bit_base ^ 1i32 << bit_offset
}

/// Tests a bit and returns the base with that bit set.
pub fn bts_reg(cpu: &mut Cpu, bit_base: i32, bit_offset: i32) -> (r: i32)
    requires
        0 <= bit_offset < 32,
    ensures
        r == bit_base | 1i32 << bit_offset,
        *final(cpu) == with_tested_bit(*old(cpu), bit_base, bit_offset),
{
    bt_reg(cpu, bit_base, bit_offset);
    bit_base | 1i32 << bit_offset
}

/// Tests a bit and returns the base with that bit cleared.
pub fn btr_reg(cpu: &mut Cpu, bit_base: i32, bit_offset: i32) -> (r: i32)
    requires
        0 <= bit_offset < 32,
    ensures
        r == bit_base & !(1i32 << bit_offset),
        *final(cpu) == with_tested_bit(*old(cpu), bit_base, bit_offset),
{
    bt_reg(cpu, bit_base, bit_offset);
    bit_base & !(1i32 << bit_offset)
}

/// Index of the highest set bit of `x` read as unsigned; -1 for zero.
pub fn int_log2(x: i32) -> (r: i32)
    ensures
        r == 31 - u32_leading_zeros(x as u32),
{
    let lz = (#[verifier::truncate] (x as u32)).leading_zeros();
    proof {
        axiom_u32_leading_zeros(x as u32);
    }
    31 - lz as i32
}

/// State after a bit scan: zero is written, the rest derived from `result`.
pub open spec fn after_scan(c: Cpu, result: i32, size: i32, found: bool) -> Cpu {
    Cpu {
        flags_changed: FLAGS_ALL & !FLAG_ZERO,
        last_op_size: size,
        last_result: result,
        flags: if found {
            c.flags & !FLAG_ZERO
        } else {
            c.flags | FLAG_ZERO
        },
        ..c
    }
}

/// Index of the lowest set bit. On a zero operand the zero flag is set and
/// the destination's previous value `previous` is returned unchanged.
pub fn bsf16(cpu: &mut Cpu, previous: i32, bit_base: i32) -> (r: i32)
    ensures
        bit_base == 0 ==> r == previous && *final(cpu) == after_scan(*old(cpu), 0, OPSIZE_16, false),
        bit_base != 0 ==> r == u32_trailing_zeros(bit_base as u32) && *final(cpu) == after_scan(
            *old(cpu),
            r,
            OPSIZE_16,
            true,
        ),
{
    scan_forward(cpu, previous, bit_base, OPSIZE_16)
}

pub fn bsf32(cpu: &mut Cpu, previous: i32, bit_base: i32) -> (r: i32)
    ensures
        bit_base == 0 ==> r == previous && *final(cpu) == after_scan(*old(cpu), 0, OPSIZE_32, false),
        bit_base != 0 ==> r == u32_trailing_zeros(bit_base as u32) && *final(cpu) == after_scan(
            *old(cpu),
            r,
            OPSIZE_32,
            true,
        ),
{
    scan_forward(cpu, previous, bit_base, OPSIZE_32)
}

fn scan_forward(cpu: &mut Cpu, previous: i32, bit_base: i32, op_size: i32) -> (r: i32)
    ensures
        bit_base == 0 ==> r == previous && *final(cpu) == after_scan(*old(cpu), 0, op_size, false),
        bit_base != 0 ==> r == u32_trailing_zeros(bit_base as u32) && *final(cpu) == after_scan(
            *old(cpu),
            r,
            op_size,
            true,
        ),
{
    cpu.flags_changed = FLAGS_ALL & !FLAG_ZERO;
    cpu.last_op_size = op_size;
    if bit_base == 0 {
        cpu.flags = cpu.flags | FLAG_ZERO;
        cpu.last_result = 0;
        previous
    } else {
        cpu.flags = cpu.flags & !FLAG_ZERO;
        let tz = (#[verifier::truncate] (bit_base as u32)).trailing_zeros();
        proof {
            axiom_u32_trailing_zeros(bit_base as u32);
        }
        cpu.last_result = tz as i32;
        tz as i32
    }
}

fn scan_reverse(cpu: &mut Cpu, previous: i32, bit_base: i32, op_size: i32) -> (r: i32)
    ensures
        bit_base == 0 ==> r == previous && *final(cpu) == after_scan(*old(cpu), 0, op_size, false),
        bit_base != 0 ==> r == 31 - u32_leading_zeros(bit_base as u32) && *final(cpu)
            == after_scan(*old(cpu), r, op_size, true),
{
    cpu.flags_changed = FLAGS_ALL & !FLAG_ZERO;
    cpu.last_op_size = op_size;
    if bit_base == 0 {
        cpu.flags = cpu.flags | FLAG_ZERO;
        cpu.last_result = 0;
        previous
    } else {
        cpu.flags = cpu.flags & !FLAG_ZERO;
        let r = int_log2(bit_base);
        cpu.last_result = r;
        r
    }
}

/// Index of the highest set bit. On a zero operand the zero flag is set and
/// the destination's previous value `previous` is returned unchanged.
pub fn bsr16(cpu: &mut Cpu, previous: i32, bit_base: i32) -> (r: i32)
    ensures
        bit_base == 0 ==> r == previous && *final(cpu) == after_scan(*old(cpu), 0, OPSIZE_16, false),
        bit_base != 0 ==> r == 31 - u32_leading_zeros(bit_base as u32) && *final(cpu)
            == after_scan(*old(cpu), r, OPSIZE_16, true),
{
    scan_reverse(cpu, previous, bit_base, OPSIZE_16)
}

pub fn bsr32(cpu: &mut Cpu, previous: i32, bit_base: i32) -> (r: i32)
    ensures
        bit_base == 0 ==> r == previous && *final(cpu) == after_scan(*old(cpu), 0, OPSIZE_32, false),
        bit_base != 0 ==> r == 31 - u32_leading_zeros(bit_base as u32) && *final(cpu)
            == after_scan(*old(cpu), r, OPSIZE_32, true),
{
    scan_reverse(cpu, previous, bit_base, OPSIZE_32)
}

/// Number of set bits.
pub open spec fn popcount(x: u32) -> nat
    decreases x,
{
    if x == 0 {
        0
    } else {
        (x % 2) as nat + popcount((x / 2) as u32)
    }
}

/// The largest value that fits in `k` bits.
pub open spec fn all_ones(k: nat) -> nat
    decreases k,
{
    if k == 0 {
        0
    } else {
        2 * all_ones((k - 1) as nat) + 1
    }
}

/// A value of at most `k` bits has at most `k` set bits.
pub proof fn lemma_popcount_bound(x: u32, k: nat)
    requires
        x <= all_ones(k) || k == 32,
    ensures
        popcount(x) <= k,
    decreases k,
{
    if k == 32 {
        reveal_with_fuel(all_ones, 33);
        assert(all_ones(32) == 0xFFFF_FFFF);
    }
    if x != 0 {
        assert(k > 0);
        lemma_popcount_bound((x / 2) as u32, (k - 1) as nat);
    }
}

/// Counts the set bits of `v`; every arithmetic flag is cleared but zero,
/// which is set for a zero operand.
pub fn popcnt(cpu: &mut Cpu, v: i32) -> (r: i32)
    ensures
        r == popcount(v as u32),
        *final(cpu) == (Cpu {
            flags_changed: 0,
            flags: if v == 0 {
                old(cpu).flags & !FLAGS_ALL | FLAG_ZERO
            } else {
                old(cpu).flags & !FLAGS_ALL
            },
            ..*old(cpu)
        }),
{
    cpu.flags_changed = 0;
    cpu.flags = cpu.flags & !FLAGS_ALL;
    if v != 0 {
        let mut x = #[verifier::truncate] (v as u32);
        let mut n: u32 = 0;
        proof {
            lemma_popcount_bound(x, 32);
        }
        while x != 0
            invariant
                n + popcount(x) == popcount(v as u32),
                popcount(v as u32) <= 32,
            decreases x,
        {
            n = n + x % 2;
            x = x / 2;
        }
        n as i32
    } else {
        cpu.flags = cpu.flags | FLAG_ZERO;
        0
    }
}

/// Signed 16-bit value (given as its 16-bit pattern) clamped to an unsigned byte.
pub fn saturate_sw_to_ub(v: u32) -> (r: u32)
    requires
        v < 0x10000,
    ensures
        r == if v >= 0x8000 {
            0
        } else if v > 0xFF {
            0xFF
        } else {
            v
        },
        r < 0x100,
{
    let mut ret = v;
    if ret >= 0x8000 {
        ret = 0;
    } else if ret > 0xFF {
        ret = 0xFF;
    }
    ret
}

/// Signed 16-bit value (given as its 16-bit pattern) clamped to a signed byte,
/// returned as its 8-bit pattern.
pub fn saturate_sw_to_sb(v: i32) -> (r: i32)
    requires
        0 <= v < 0x10000,
    ensures
        r == if v > 0xFF80 {
            v % 0x100
        } else if v > 0x7FFF {
            0x80
        } else if v > 0x7F {
            0x7F
        } else {
            v
        },
        0 <= r < 0x100,
{
    let mut ret = v;
    if ret > 0xFF80 {
        ret = ret % 0x100;
    } else if ret > 0x7FFF {
        ret = 0x80;
    } else if ret > 0x7F {
        ret = 0x7F;
    }
    ret
}

/// Signed 32-bit value (given as its pattern) clamped to a signed word,
/// returned as its 16-bit pattern.
pub fn saturate_sd_to_sw(v: u32) -> (r: u32)
    ensures
        r == if v > 0xFFFF_8000 {
            v % 0x10000
        } else if v > 0x7FFF_FFFF {
            0x8000
        } else if v > 0x7FFF {
            0x7FFF
        } else {
            v
        },
        r < 0x10000,
{
    let mut ret = v;
    if ret > 0xFFFF_8000 {
        ret = ret % 0x10000;
    } else if ret > 0x7FFF_FFFF {
        ret = 0x8000;
    } else if ret > 0x7FFF {
        ret = 0x7FFF;
    }
    ret
}

/// Signed 32-bit value (given as its pattern) clamped to a signed byte,
/// returned as its 8-bit pattern.
pub fn saturate_sd_to_sb(v: u32) -> (r: u32)
    ensures
        r == if v > 0xFFFF_FF80 {
            v % 0x100
        } else if v > 0x7FFF_FFFF {
            0x80
        } else if v > 0x7F {
            0x7F
        } else {
            v
        },
        r < 0x100,
{
    let mut ret = v;
    if ret > 0xFFFF_FF80 {
        ret = ret % 0x100;
    } else if ret > 0x7FFF_FFFF {
        ret = 0x80;
    } else if ret > 0x7F {
        ret = 0x7F;
    }
    ret
}

/// Negative values become zero; the value is at most one byte.
pub fn saturate_sd_to_ub(v: i32) -> (r: i32)
    requires
        v <= 0xFF,
    ensures
        r == if v < 0 {
            0
        } else {
            v
        },
        0 <= r < 0x100,
{
    let mut ret = v;
    if ret < 0 {
        ret = 0;
    }
    ret
}

/// Unsigned value clamped to a byte.
pub fn saturate_ud_to_ub(v: u32) -> (r: u32)
    ensures
        r == if v > 0xFF {
            0xFF
        } else {
            v
        },
        r < 0x100,
{
    let mut ret = v;
    if ret > 0xFF {
        ret = 0xFF;
    }
    ret
}

/// Signed 32-bit value (given as its pattern) clamped to an unsigned word.
pub fn saturate_uw(v: u32) -> (r: i32)
    ensures
        r == if v > 0x7FFF_FFFF {
            0
        } else if v > 0xFFFF {
            0xFFFF
        } else {
            v as i32
        },
        0 <= r < 0x10000,
{
    let mut ret = v;
    if ret > 0x7FFF_FFFF {
        ret = 0;
    } else if ret > 0xFFFF {
        ret = 0xFFFF;
    }
    ret as i32
}

/// Linear address of the byte that holds bit `bit_offset` counted from `virt_addr`.
pub open spec fn bit_byte_addr(virt_addr: i32, bit_offset: i32) -> u32 {
    virt_addr.wrapping_add(bit_offset >> 3i32) as u32
}

/// Position of the bit within its byte.
pub open spec fn bit_in_byte(bit_offset: i32) -> i32 {
    (bit_offset as u32 % 8) as i32
}

/// Tests a bit of memory: carry takes it. A byte that cannot be read gives
/// the page fault and changes nothing.
pub fn bt_mem(cpu: &mut Cpu, mem: &Memory, virt_addr: i32, bit_offset: i32) -> (r: Result<
    (),
    CpuException,
>)
    requires
        mem@.wf(),
    ensures
        ({
            let a = bit_byte_addr(virt_addr, bit_offset);
            &&& mem@.accessible(a, 1, false) ==> r is Ok && *final(cpu) == with_tested_bit(
                *old(cpu),
                mem@.read_value(a, 1) as i32,
                bit_in_byte(bit_offset),
            )
            &&& !mem@.accessible(a, 1, false) ==> r is Err && *final(cpu) == *old(cpu)
        }),
{
    let a = virt_addr.wrapping_add(bit_offset >> 3i32) as u32;
    let bit_base = match mem.safe_read(a, 1) {
        Ok(v) => v as i32,
        Err(e) => return Err(e),
    };
    let off = (#[verifier::truncate] (bit_offset as u32) % 8) as i32;
    bt_reg(cpu, bit_base, off);
    Ok(())
}

/// Tests a bit of memory and writes the byte back with that bit changed by
/// `op` (0: complement, 1: reset, 2: set).
fn bit_change_mem(cpu: &mut Cpu, mem: &mut Memory, virt_addr: i32, bit_offset: i32, op: u8) -> (r:
    Result<(), CpuException>)
    requires
        old(mem)@.wf(),
        op < 3,
    ensures
        ({
            let a = bit_byte_addr(virt_addr, bit_offset);
            let p = old(mem)@.translate(a, true)->Some_0;
            let b = old(mem)@.bytes[p as int] as i32;
            let o = bit_in_byte(bit_offset);
            &&& old(mem)@.translate(a, true) is Some ==> r is Ok && *final(cpu)
                == with_tested_bit(*old(cpu), b, o) && final(mem)@ == old(mem)@.write_phys_byte(
                p,
                (if op == 0 {
                    b ^ 1i32 << o
                } else if op == 1 {
                    b & !(1i32 << o)
                } else {
                    b | 1i32 << o
                }) as u8,
            )
            &&& old(mem)@.translate(a, true) is None ==> r is Err && *final(cpu) == *old(cpu)
                && final(mem)@ == old(mem)@
        }),
        final(mem)@.wf(),
{
    let a = virt_addr.wrapping_add(bit_offset >> 3i32) as u32;
    let p = match mem.translate_address_write(a) {
        Ok(p) => p,
        Err(e) => return Err(e),
    };
    proof {
        lemma_translate_range(mem@, a, true);
    }
    let bit_base = mem.read8(p) as i32;
    let off = (#[verifier::truncate] (bit_offset as u32) % 8) as i32;
    bt_reg(cpu, bit_base, off);
    let v = if op == 0 {
        bit_base ^ 1i32 << off
    } else if op == 1 {
        bit_base & !(1i32 << off)
    } else {
        bit_base | 1i32 << off
    };
    mem.write8(p, #[verifier::truncate] (v as u32));
    proof {
        assert(v as u32 as u8 == v as u8) by (bit_vector);
    }
    Ok(())
}

/// Tests a bit of memory and complements it.
pub fn btc_mem(cpu: &mut Cpu, mem: &mut Memory, virt_addr: i32, bit_offset: i32) -> (r: Result<
    (),
    CpuException,
>)
    requires
        old(mem)@.wf(),
    ensures
        ({
            let a = bit_byte_addr(virt_addr, bit_offset);
            let p = old(mem)@.translate(a, true)->Some_0;
            let b = old(mem)@.bytes[p as int] as i32;
            let o = bit_in_byte(bit_offset);
            &&& old(mem)@.translate(a, true) is Some ==> r is Ok && *final(cpu)
                == with_tested_bit(*old(cpu), b, o) && final(mem)@ == old(mem)@.write_phys_byte(
                p,
                (b ^ 1i32 << o) as u8,
            )
            &&& old(mem)@.translate(a, true) is None ==> r is Err && *final(cpu) == *old(cpu)
                && final(mem)@ == old(mem)@
        }),
        final(mem)@.wf(),
{
    bit_change_mem(cpu, mem, virt_addr, bit_offset, 0)
}

/// Tests a bit of memory and clears it.
pub fn btr_mem(cpu: &mut Cpu, mem: &mut Memory, virt_addr: i32, bit_offset: i32) -> (r: Result<
    (),
    CpuException,
>)
    requires
        old(mem)@.wf(),
    ensures
        ({
            let a = bit_byte_addr(virt_addr, bit_offset);
            let p = old(mem)@.translate(a, true)->Some_0;
            let b = old(mem)@.bytes[p as int] as i32;
            let o = bit_in_byte(bit_offset);
            &&& old(mem)@.translate(a, true) is Some ==> r is Ok && *final(cpu)
                == with_tested_bit(*old(cpu), b, o) && final(mem)@ == old(mem)@.write_phys_byte(
                p,
                (b & !(1i32 << o)) as u8,
            )
            &&& old(mem)@.translate(a, true) is None ==> r is Err && *final(cpu) == *old(cpu)
                && final(mem)@ == old(mem)@
        }),
        final(mem)@.wf(),
{
    bit_change_mem(cpu, mem, virt_addr, bit_offset, 1)
}

/// Tests a bit of memory and sets it.
pub fn bts_mem(cpu: &mut Cpu, mem: &mut Memory, virt_addr: i32, bit_offset: i32) -> (r: Result<
    (),
    CpuException,
>)
    requires
        old(mem)@.wf(),
    ensures
        ({
            let a = bit_byte_addr(virt_addr, bit_offset);
            let p = old(mem)@.translate(a, true)->Some_0;
            let b = old(mem)@.bytes[p as int] as i32;
            let o = bit_in_byte(bit_offset);
            &&& old(mem)@.translate(a, true) is Some ==> r is Ok && *final(cpu)
                == with_tested_bit(*old(cpu), b, o) && final(mem)@ == old(mem)@.write_phys_byte(
                p,
                (b | 1i32 << o) as u8,
            )
            &&& old(mem)@.translate(a, true) is None ==> r is Err && *final(cpu) == *old(cpu)
                && final(mem)@ == old(mem)@
        }),
        final(mem)@.wf(),
{
    bit_change_mem(cpu, mem, virt_addr, bit_offset, 2)
}

/// Adding `b` to `a` and then subtracting `b` from the sum gives back `a`,
/// and both operations derive the same carry and overflow flags, for every
/// operand width; zero and sign follow the value each one produced.
pub proof fn law_add_sub_flag_symmetry(c: Cpu, a: i32, b: i32, size: i32)
    requires
        valid_opsize(size),
    ensures
        ({
            let s = a.wrapping_add(b);
            let added = after_additive(c, a, b, s, s, size, FLAGS_ALL);
            let back = s.wrapping_sub(b);
            let subtracted = after_additive(c, back, b, s, back, size, FLAGS_ALL);
            &&& back == a
            &&& added.cf() == subtracted.cf()
            &&& added.of() == subtracted.of()
            &&& added.zf() == derived_zf(s, size)
            &&& subtracted.zf() == derived_zf(a, size)
            &&& added.sf() == derived_sf(s, size)
            &&& subtracted.sf() == derived_sf(a, size)
        }),
{
    assert(FLAGS_ALL & FLAG_CARRY != 0 && FLAGS_ALL & FLAG_OVERFLOW != 0 && FLAGS_ALL & FLAG_ZERO
        != 0 && FLAGS_ALL & FLAG_SIGN != 0) by (bit_vector);
}

/// A rotation by the full width gives the value back.
pub proof fn law_rotate_full_turn(x8: i32, x16: i32)
    requires
        0 <= x8 < 0x100,
        0 <= x16 < 0x1_0000,
    ensures
        rol8_value(x8, 8) == x8,
        rol16_value(x16, 16) == x16,
{
    assert(x8 << 0i32 | x8 >> 8i32 == x8) by (bit_vector)
        requires
            0 <= x8 < 0x100,
    ;
    assert(x16 << 0i32 | x16 >> 16i32 == x16) by (bit_vector)
        requires
            0 <= x16 < 0x1_0000,
    ;
}

/// The most negative 64-bit dividend divided by -1 has a quotient that does
/// not fit in 32 bits, so that signed division raises the divide error.
pub proof fn law_idiv32_most_negative(c: Cpu)
    requires
        c.reg(EAX as int) == 0,
        c.reg(EDX as int) == 0x8000_0000,
    ensures
        edx_eax_signed(c.reg(EAX as int), c.reg(EDX as int)) == -0x8000_0000_0000_0000,
        trunc_div(edx_eax_signed(c.reg(EAX as int), c.reg(EDX as int)), -1) > 0x7FFF_FFFF,
{
}

/// The bit scans find the right bit: forward, the lowest set bit, with all
/// bits below it clear; reverse, the highest set bit, with all bits above it
/// clear.
pub proof fn law_bit_scan_index(x: u32)
    requires
        x != 0,
    ensures
        ({
            let f = u32_trailing_zeros(x);
            let r = 31 - u32_leading_zeros(x);
            &&& 0 <= f < 32
            &&& (x >> f) & 1 == 1
            &&& forall|j: u32| j < f ==> #[trigger] (x >> j) & 1 == 0
            &&& 0 <= r < 32
            &&& (x >> r as u32) & 1 == 1
            &&& forall|j: u32| r < j < 32 ==> #[trigger] (x >> j) & 1 == 0
            &&& x >> r as u32 == 1
            &&& f <= r
            &&& x < 0x1_0000 ==> r < 16 && f < 16
        }),
{
    axiom_u32_trailing_zeros(x);
    axiom_u32_leading_zeros(x);
    let r = (31 - u32_leading_zeros(x)) as u32;
    assert((x >> r) & 1 != 0);
    assert((x >> r) & 1 == 1) by (bit_vector)
        requires
            (x >> r) & 1 != 0,
    ;
    if r < 31 {
        let above = (32 - u32_leading_zeros(x)) as u32;
        assert(x >> above == 0);
        assert(above == r + 1);
        assert(x >> r == 1) by (bit_vector)
            requires
                r < 31,
                above == r + 1,
                (x >> r) & 1 == 1,
                x >> above == 0,
        ;
    } else {
        assert(x >> r == 1) by (bit_vector)
            requires
                r == 31,
                (x >> r) & 1 == 1,
        ;
    }
    let f = u32_trailing_zeros(x);
    if f > r {
        assert((x >> f) & 1 == 0);
    }
    if x < 0x1_0000 && r >= 16 {
        assert((x >> r) & 1 == 0) by (bit_vector)
            requires
                x < 0x1_0000,
                16 <= r < 32,
        ;
    }
}


/// For an 8-bit or 16-bit addition of operands of that width, the derived
/// carry is the unsigned carry out of the width, and the derived overflow
/// says that the signed sum does not fit in the width.
pub proof fn law_add_carry_overflow(a8: i32, b8: i32, a16: i32, b16: i32)
    requires
        0 <= a8 < 0x100,
        0 <= b8 < 0x100,
        0 <= a16 < 0x1_0000,
        0 <= b16 < 0x1_0000,
    ensures
        derived_cf(a8, b8, a8.wrapping_add(b8), OPSIZE_8) == (a8 + b8 >= 0x100),
        derived_of(a8, b8, a8.wrapping_add(b8), OPSIZE_8) == !(-0x80 <= signed8(a8 as u32)
            + signed8(b8 as u32) < 0x80),
        derived_cf(a16, b16, a16.wrapping_add(b16), OPSIZE_16) == (a16 + b16 >= 0x1_0000),
        derived_of(a16, b16, a16.wrapping_add(b16), OPSIZE_16) == !(-0x8000 <= signed16(
            a16 as u32,
        ) + signed16(b16 as u32) < 0x8000),
{
    let s8 = a8.wrapping_add(b8);
    let s16 = a16.wrapping_add(b16);
    assert(s8 == a8 + b8);
    assert(s16 == a16 + b16);
    assert((a8 ^ ((a8 ^ b8) & (b8 ^ s8))) >> 7i32 & 1 != 0 <==> s8 >= 0x100) by (bit_vector)
        requires
            0 <= a8 < 0x100,
            0 <= b8 < 0x100,
            s8 == a8 + b8,
    ;
    assert(((a8 ^ s8) & (b8 ^ s8)) >> 7i32 & 1 != 0 <==> ((a8 < 0x80) == (b8 < 0x80) && (s8 & 0x80
        != 0) != (a8 >= 0x80))) by (bit_vector)
        requires
            0 <= a8 < 0x100,
            0 <= b8 < 0x100,
            s8 == a8 + b8,
    ;
    assert((s8 & 0x80 != 0) == (s8 % 0x100 >= 0x80)) by (bit_vector)
        requires
            0 <= s8 < 0x200,
    ;
    assert((a16 ^ ((a16 ^ b16) & (b16 ^ s16))) >> 15i32 & 1 != 0 <==> s16 >= 0x1_0000)
        by (bit_vector)
        requires
            0 <= a16 < 0x1_0000,
            0 <= b16 < 0x1_0000,
            s16 == a16 + b16,
    ;
    assert(((a16 ^ s16) & (b16 ^ s16)) >> 15i32 & 1 != 0 <==> ((a16 < 0x8000) == (b16 < 0x8000)
        && (s16 & 0x8000 != 0) != (a16 >= 0x8000))) by (bit_vector)
        requires
            0 <= a16 < 0x1_0000,
            0 <= b16 < 0x1_0000,
            s16 == a16 + b16,
    ;
    assert((s16 & 0x8000 != 0) == (s16 % 0x1_0000 >= 0x8000)) by (bit_vector)
        requires
            0 <= s16 < 0x2_0000,
    ;
}


/// For a 32-bit addition, the derived carry is the unsigned carry out of 32
/// bits, and the derived overflow says that the signed sum does not fit in 32
/// bits.
pub proof fn law_add_carry_overflow_32(a: i32, b: i32)
    ensures
        derived_cf(a, b, a.wrapping_add(b), OPSIZE_32) == ((a as u32) + (b as u32)
            >= 0x1_0000_0000),
        derived_of(a, b, a.wrapping_add(b), OPSIZE_32) == !(-0x8000_0000 <= a + b < 0x8000_0000),
{
    let s = a.wrapping_add(b);
    assert((a ^ ((a ^ b) & (b ^ s))) >> 31i32 & 1 != 0 <==> (a as u32) + (b as u32)
        >= 0x1_0000_0000) by (bit_vector)
        requires
            s == a.wrapping_add(b),
    ;
    assert(((a ^ s) & (b ^ s)) >> 31i32 & 1 != 0 <==> !(-0x8000_0000 <= a + b < 0x8000_0000))
        by (bit_vector)
        requires
            s == a.wrapping_add(b),
    ;
}


/// The derived zero flag says that the bits of the operand width are all
/// clear, and the derived sign flag is the top bit of the width.
pub proof fn law_zero_sign_meaning(x: i32)
    ensures
        derived_zf(x, OPSIZE_8) == (x & 0xFF == 0),
        derived_sf(x, OPSIZE_8) == (x & 0x80 != 0),
        derived_zf(x, OPSIZE_16) == (x & 0xFFFF == 0),
        derived_sf(x, OPSIZE_16) == (x & 0x8000 != 0),
        derived_zf(x, OPSIZE_32) == (x == 0),
        derived_sf(x, OPSIZE_32) == (x < 0),
{
    let y = x.wrapping_sub(1);
    assert((!x & y) >> 7i32 & 1 != 0 <==> x & 0xFF == 0) by (bit_vector)
        requires
            y == x.wrapping_sub(1),
    ;
    assert((!x & y) >> 15i32 & 1 != 0 <==> x & 0xFFFF == 0) by (bit_vector)
        requires
            y == x.wrapping_sub(1),
    ;
    assert((!x & y) >> 31i32 & 1 != 0 <==> x == 0) by (bit_vector)
        requires
            y == x.wrapping_sub(1),
    ;
    assert(x >> 7i32 & 1 != 0 <==> x & 0x80 != 0) by (bit_vector);
    assert(x >> 15i32 & 1 != 0 <==> x & 0x8000 != 0) by (bit_vector);
    assert(x >> 31i32 & 1 != 0 <==> x < 0) by (bit_vector);
}

} // verus!
