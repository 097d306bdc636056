use v86_cpu::arith::{
    add, adc8, bcd_aaa, bcd_aad, bcd_aam, bcd_daa, bcd_das, bsf16, bsf32, bsr16, bsr32, bt_mem,
    bt_reg, btc_mem, btc_reg, btr_reg, bts_reg, cmp8, dec8, div16, div32, div8, idiv16, idiv32,
    idiv8, imul16, imul32, imul8, imul_reg16, imul_reg32, inc8, int_log2, mul16, mul32, mul8,
    neg8, popcnt, rcl8, rcr8, rol16, rol32, rol8, ror8, sar8, saturate_sd_to_sb, saturate_sd_to_sw,
    saturate_sd_to_ub, saturate_sw_to_sb, saturate_sw_to_ub, saturate_ud_to_ub, saturate_uw, sbb8,
    shl32, shl8, shld16, shr8, shrd32, sub, test8, xadd8, xor32, CpuException,
};
use v86_cpu::cpu::{Cpu, AH, AL, EAX, EDX, OPSIZE_16, OPSIZE_32, OPSIZE_8};
use v86_cpu::memory::Memory;

#[test]
fn add8_signed_overflow_into_sign() {
    let mut cpu = Cpu::new();
    let r = add(&mut cpu, 0x7F, 0x01, OPSIZE_8);
    assert_eq!(r, 0x80);
    assert!(cpu.getof());
    assert!(!cpu.getcf());
    assert!(cpu.getsf());
    assert!(!cpu.getzf());
}

#[test]
fn sub8_borrow() {
    let mut cpu = Cpu::new();
    let r = sub(&mut cpu, 0x00, 0x01, OPSIZE_8);
    assert_eq!(r & 0xFF, 0xFF);
    assert!(cpu.getcf());
    assert!(!cpu.getzf());
}

#[test]
fn add_then_sub_carry_overflow_agree() {
    for &(a, b, size) in &[
        (0x7Fi32, 0x01i32, OPSIZE_8),
        (0xFF, 0x01, OPSIZE_8),
        (0x80, 0x80, OPSIZE_8),
        (0x7FFF, 0x7FFF, OPSIZE_16),
        (0xFFFF, 0x0002, OPSIZE_16),
        (0x7FFF_FFFF, 1, OPSIZE_32),
        (-1, -1, OPSIZE_32),
        (0x1234_5678, 0x7654_3210, OPSIZE_32),
    ] {
        let mut c1 = Cpu::new();
        let s = add(&mut c1, a, b, size);
        let mut c2 = Cpu::new();
        let back = sub(&mut c2, s, b, size);
        assert_eq!(back, a);
        assert_eq!(c1.getcf(), c2.getcf());
        assert_eq!(c1.getof(), c2.getof());
    }
}

#[test]
fn add8_carry_and_zero() {
    let mut cpu = Cpu::new();
    let r = add(&mut cpu, 0xFF, 0x01, OPSIZE_8);
    assert_eq!(r & 0xFF, 0);
    assert!(cpu.getcf());
    assert!(cpu.getzf());
    assert!(cpu.getaf());
    assert!(cpu.getpf());
}

#[test]
fn adc_and_sbb_use_carry() {
    let mut cpu = Cpu::new();
    add(&mut cpu, 0xFF, 0x01, OPSIZE_8);
    assert_eq!(adc8(&mut cpu, 1, 1), 3);
    let mut cpu = Cpu::new();
    sub(&mut cpu, 0, 1, OPSIZE_8);
    assert_eq!(sbb8(&mut cpu, 5, 1), 3);
}

#[test]
fn inc_dec_keep_carry() {
    let mut cpu = Cpu::new();
    sub(&mut cpu, 0, 1, OPSIZE_8);
    assert!(cpu.getcf());
    assert_eq!(inc8(&mut cpu, 0xFF) & 0xFF, 0);
    assert!(cpu.getcf());
    assert!(cpu.getzf());
    assert_eq!(dec8(&mut cpu, 1), 0);
    assert!(cpu.getcf());
}

#[test]
fn neg_of_zero_clears_carry() {
    let mut cpu = Cpu::new();
    assert_eq!(neg8(&mut cpu, 0), 0);
    assert!(!cpu.getcf());
    assert_eq!(neg8(&mut cpu, 1) & 0xFF, 0xFF);
    assert!(cpu.getcf());
}

#[test]
fn compare_sets_flags_only() {
    let mut cpu = Cpu::new();
    cmp8(&mut cpu, 5, 5);
    assert!(cpu.getzf());
    cmp8(&mut cpu, 4, 5);
    assert!(cpu.getcf());
    assert!(cpu.getsf());
}

#[test]
fn logic_clears_carry_overflow() {
    let mut cpu = Cpu::new();
    add(&mut cpu, 0x7F, 1, OPSIZE_8);
    assert_eq!(xor32(&mut cpu, 0x0F0F, 0x00FF), 0x0FF0);
    assert!(!cpu.getcf());
    assert!(!cpu.getof());
    test8(&mut cpu, 0x80, 0x80);
    assert!(cpu.getsf());
    assert!(!cpu.getzf());
}

#[test]
fn mul8_sets_ax_and_flags() {
    let mut cpu = Cpu::new();
    cpu.reg32[EAX as usize] = 0xFFFF_0010;
    mul8(&mut cpu, 0x20);
    assert_eq!(cpu.reg32[EAX as usize], 0xFFFF_0200);
    assert!(cpu.getcf());
    assert!(cpu.getof());
    cpu.reg32[EAX as usize] = 3;
    mul8(&mut cpu, 5);
    assert_eq!(cpu.reg32[EAX as usize] & 0xFFFF, 15);
    assert!(!cpu.getcf());
}

#[test]
fn imul8_negative_product() {
    let mut cpu = Cpu::new();
    cpu.reg32[EAX as usize] = 0xFE; // -2
    imul8(&mut cpu, 3);
    assert_eq!(cpu.reg32[EAX as usize] & 0xFFFF, 0xFFFA);
    assert!(!cpu.getcf());
}

#[test]
fn mul16_and_imul16_split_halves() {
    let mut cpu = Cpu::new();
    cpu.reg32[EAX as usize] = 0x1234;
    mul16(&mut cpu, 0x100);
    assert_eq!(cpu.reg32[EAX as usize] & 0xFFFF, 0x3400);
    assert_eq!(cpu.reg32[EDX as usize] & 0xFFFF, 0x0012);
    assert!(cpu.getcf());
    cpu.reg32[EAX as usize] = 0xFFFF; // -1
    imul16(&mut cpu, 2);
    assert_eq!(cpu.reg32[EAX as usize] & 0xFFFF, 0xFFFE);
    assert_eq!(cpu.reg32[EDX as usize] & 0xFFFF, 0xFFFF);
    assert!(!cpu.getof());
}

#[test]
fn mul32_and_imul32_wide_products() {
    let mut cpu = Cpu::new();
    cpu.reg32[EAX as usize] = 0x8000_0000;
    mul32(&mut cpu, 4);
    assert_eq!(cpu.reg32[EAX as usize], 0);
    assert_eq!(cpu.reg32[EDX as usize], 2);
    assert!(cpu.getcf());
    cpu.reg32[EAX as usize] = 0xFFFF_FFFF; // -1
    imul32(&mut cpu, -5);
    assert_eq!(cpu.reg32[EAX as usize], 5);
    assert_eq!(cpu.reg32[EDX as usize], 0);
    assert!(!cpu.getof());
}

#[test]
fn imul_reg_truncation_flags() {
    let mut cpu = Cpu::new();
    assert_eq!(imul_reg16(&mut cpu, 0x100, 0x100), 0x10000);
    assert!(cpu.getof());
    assert_eq!(imul_reg32(&mut cpu, 0x10000, 0x10000), 0);
    assert!(cpu.getcf());
    assert_eq!(imul_reg32(&mut cpu, -3, 7), -21);
    assert!(!cpu.getcf());
}

#[test]
fn xadd_exchanges_and_adds() {
    let mut cpu = Cpu::new();
    cpu.reg32[EAX as usize] = 0x1234;
    let r = xadd8(&mut cpu, 0x10, AH);
    assert_eq!(r, 0x10 + 0x12);
    assert_eq!(cpu.reg32[EAX as usize], 0x1034);
}

#[test]
fn div8_by_zero_changes_nothing() {
    let mut cpu = Cpu::new();
    cpu.reg32[EAX as usize] = 0xDEAD_BEEF;
    let before = cpu.reg32;
    assert_eq!(div8(&mut cpu, 0), Err(CpuException::DivideError));
    assert_eq!(cpu.reg32, before);
}

#[test]
fn divide_by_zero_every_width() {
    let mut cpu = Cpu::new();
    cpu.reg32[EAX as usize] = 0x1111_2222;
    cpu.reg32[EDX as usize] = 0x3333_4444;
    let before = cpu.reg32;
    assert_eq!(idiv8(&mut cpu, 0), Err(CpuException::DivideError));
    assert_eq!(div16(&mut cpu, 0), Err(CpuException::DivideError));
    assert_eq!(idiv16(&mut cpu, 0), Err(CpuException::DivideError));
    assert_eq!(div32(&mut cpu, 0), Err(CpuException::DivideError));
    assert_eq!(idiv32(&mut cpu, 0), Err(CpuException::DivideError));
    assert_eq!(cpu.reg32, before);
}

#[test]
fn idiv32_most_negative_by_minus_one() {
    let mut cpu = Cpu::new();
    cpu.reg32[EAX as usize] = 0;
    cpu.reg32[EDX as usize] = 0x8000_0000;
    let before = cpu.reg32;
    assert_eq!(idiv32(&mut cpu, -1), Err(CpuException::DivideError));
    assert_eq!(cpu.reg32, before);
}

#[test]
fn divisions_store_quotient_and_remainder() {
    let mut cpu = Cpu::new();
    cpu.reg32[EAX as usize] = 100;
    assert_eq!(div8(&mut cpu, 7), Ok(()));
    assert_eq!(cpu.reg32[EAX as usize] & 0xFFFF, 14 | (2 << 8));
    cpu.reg32[EAX as usize] = 0xFFF9; // -7
    assert_eq!(idiv8(&mut cpu, 2), Ok(()));
    assert_eq!(cpu.reg32[EAX as usize] & 0xFF, 0xFD); // -3
    assert_eq!((cpu.reg32[EAX as usize] >> 8) & 0xFF, 0xFF); // -1
    cpu.reg32[EAX as usize] = 0;
    cpu.reg32[EDX as usize] = 1;
    assert_eq!(div32(&mut cpu, 2), Ok(()));
    assert_eq!(cpu.reg32[EAX as usize], 0x8000_0000);
    assert_eq!(cpu.reg32[EDX as usize], 0);
    cpu.reg32[EAX as usize] = 0xFFFF_FFF9; // -7
    cpu.reg32[EDX as usize] = 0xFFFF_FFFF;
    assert_eq!(idiv32(&mut cpu, 2), Ok(()));
    assert_eq!(cpu.reg32[EAX as usize], 0xFFFF_FFFD);
    assert_eq!(cpu.reg32[EDX as usize], 0xFFFF_FFFF);
    cpu.reg32[EAX as usize] = 0;
    cpu.reg32[EDX as usize] = 0x10;
    assert_eq!(div16(&mut cpu, 0x10), Err(CpuException::DivideError));
}

#[test]
fn rotate_by_zero_is_identity() {
    let mut cpu = Cpu::new();
    add(&mut cpu, 0x7F, 1, OPSIZE_8);
    let flags = cpu.flags;
    let changed = cpu.flags_changed;
    assert_eq!(rol8(&mut cpu, 0x5A, 0), 0x5A);
    assert_eq!(rol16(&mut cpu, 0x5A5A, 0), 0x5A5A);
    assert_eq!(rol32(&mut cpu, 0x5A5A_5A5A, 0), 0x5A5A_5A5A);
    assert_eq!(cpu.flags, flags);
    assert_eq!(cpu.flags_changed, changed);
}

#[test]
fn rotate_by_width_keeps_value() {
    let mut cpu = Cpu::new();
    for x in [0i32, 1, 0x80, 0xA5, 0xFF] {
        assert_eq!(rol8(&mut cpu, x, 8), x);
    }
    assert_eq!(rol16(&mut cpu, 0xBEEF, 16), 0xBEEF);
    assert_eq!(rcl8(&mut cpu, 0x42, 9), 0x42);
}

#[test]
fn rotates_move_bits() {
    let mut cpu = Cpu::new();
    assert_eq!(rol8(&mut cpu, 0x81, 1) & 0xFF, 0x03);
    assert!(cpu.getcf());
    assert_eq!(ror8(&mut cpu, 0x01, 1) & 0xFF, 0x80);
    assert!(cpu.getcf());
    sub(&mut cpu, 0, 1, OPSIZE_8);
    assert_eq!(rcl8(&mut cpu, 0x80, 1) & 0xFF, 0x01);
    assert!(cpu.getcf());
    assert_eq!(rcr8(&mut cpu, 0x00, 1) & 0xFF, 0x80);
    assert!(!cpu.getcf());
}

#[test]
fn shifts_set_carry_from_last_bit() {
    let mut cpu = Cpu::new();
    assert_eq!(shl8(&mut cpu, 0x81, 1) & 0xFF, 0x02);
    assert!(cpu.getcf());
    assert_eq!(shr8(&mut cpu, 0x03, 1), 0x01);
    assert!(cpu.getcf());
    assert_eq!(sar8(&mut cpu, 0x80, 3) & 0xFF, 0xF0);
    assert_eq!(shl32(&mut cpu, 1, 31), i32::MIN);
    assert!(!cpu.getcf());
    assert_eq!(shrd32(&mut cpu, 0x0000_00F0, 0x0000_000F, 4), (0xF000_000Fu32) as i32);
    assert_eq!(shld16(&mut cpu, 0x00F0, 0xF000, 4) & 0xFFFF, 0x0F0F);
}

#[test]
fn bit_tests_on_registers() {
    let mut cpu = Cpu::new();
    bt_reg(&mut cpu, 0b100, 2);
    assert!(cpu.getcf());
    assert_eq!(btc_reg(&mut cpu, 0b100, 2), 0);
    assert_eq!(bts_reg(&mut cpu, 0, 5), 32);
    assert!(!cpu.getcf());
    assert_eq!(btr_reg(&mut cpu, 0xFF, 0), 0xFE);
    assert!(cpu.getcf());
}

#[test]
fn bit_tests_on_memory() {
    let mut cpu = Cpu::new();
    let mut mem = Memory::identity(2);
    mem.bytes[0x101] = 0b0000_0100;
    assert_eq!(bt_mem(&mut cpu, &mem, 0x100, 10), Ok(()));
    assert!(cpu.getcf());
    assert_eq!(btc_mem(&mut cpu, &mut mem, 0x100, 10), Ok(()));
    assert_eq!(mem.bytes[0x101], 0);
    assert!(mem.dirty[0]);
    assert!(matches!(bt_mem(&mut cpu, &mem, 0x3000, 0), Err(CpuException::PageFault { .. })));
}

#[test]
fn bit_scans() {
    let mut cpu = Cpu::new();
    assert_eq!(bsf16(&mut cpu, 77, 0), 77);
    assert!(cpu.getzf());
    assert_eq!(bsr32(&mut cpu, 88, 0), 88);
    assert!(cpu.getzf());
    assert_eq!(bsf16(&mut cpu, 0, 0b1010_0000), 5);
    assert!(!cpu.getzf());
    assert_eq!(bsf32(&mut cpu, 0, i32::MIN), 31);
    assert_eq!(bsr16(&mut cpu, 0, 0x0F00), 11);
    assert_eq!(bsr32(&mut cpu, 0, -1), 31);
    assert_eq!(int_log2(1), 0);
    assert_eq!(int_log2(0), -1);
}

#[test]
fn popcnt_counts_and_flags() {
    let mut cpu = Cpu::new();
    assert_eq!(popcnt(&mut cpu, 0), 0);
    assert!(cpu.getzf());
    assert_eq!(popcnt(&mut cpu, -1), 32);
    assert!(!cpu.getzf());
    assert_eq!(popcnt(&mut cpu, 0b1011), 3);
}

#[test]
fn decimal_adjustments() {
    let mut cpu = Cpu::new();
    let s = add(&mut cpu, 0x15, 0x27, OPSIZE_8);
    cpu.reg32[EAX as usize] = s as u32;
    bcd_daa(&mut cpu);
    assert_eq!(cpu.reg32[EAX as usize] & 0xFF, 0x42);
    let d = sub(&mut cpu, 0x42, 0x15, OPSIZE_8);
    cpu.reg32[EAX as usize] = (d as u32) & 0xFF;
    bcd_das(&mut cpu);
    assert_eq!(cpu.reg32[EAX as usize] & 0xFF, 0x27);
    cpu.reg32[EAX as usize] = 0x0207;
    bcd_aad(&mut cpu, 10);
    assert_eq!(cpu.reg32[EAX as usize] & 0xFFFF, 27);
    cpu.reg32[EAX as usize] = 27;
    assert_eq!(bcd_aam(&mut cpu, 10), Ok(()));
    assert_eq!(cpu.reg32[EAX as usize] & 0xFFFF, 0x0207);
    let before = cpu.reg32;
    assert_eq!(bcd_aam(&mut cpu, 0), Err(CpuException::DivideError));
    assert_eq!(cpu.reg32, before);
    let mut cpu = Cpu::new();
    cpu.reg32[EAX as usize] = 0x000F;
    bcd_aaa(&mut cpu);
    assert_eq!(cpu.reg32[EAX as usize] & 0xFFFF, 0x0105);
    assert!(cpu.getcf());
    let _ = AL;
}

#[test]
fn saturations() {
    assert_eq!(saturate_sw_to_ub(0x8000), 0);
    assert_eq!(saturate_sw_to_ub(0x0100), 0xFF);
    assert_eq!(saturate_sw_to_ub(0x0042), 0x42);
    assert_eq!(saturate_sw_to_sb(0xFFF0), 0xF0);
    assert_eq!(saturate_sw_to_sb(0x9000), 0x80);
    assert_eq!(saturate_sw_to_sb(0x0100), 0x7F);
    assert_eq!(saturate_sd_to_sw(0xFFFF_FFFF), 0xFFFF);
    assert_eq!(saturate_sd_to_sw(0x8000_0000), 0x8000);
    assert_eq!(saturate_sd_to_sw(0x0001_0000), 0x7FFF);
    assert_eq!(saturate_sd_to_sb(0xFFFF_FF00), 0x80);
    assert_eq!(saturate_sd_to_sb(0x0000_0100), 0x7F);
    assert_eq!(saturate_sd_to_ub(-5), 0);
    assert_eq!(saturate_sd_to_ub(200), 200);
    assert_eq!(saturate_ud_to_ub(300), 0xFF);
    assert_eq!(saturate_uw(0x8000_0000), 0);
    assert_eq!(saturate_uw(0x0002_0000), 0xFFFF);
    assert_eq!(saturate_uw(0x1234), 0x1234);
}
