use v86_cpu::arith::CpuException;
use v86_cpu::cpu::{Cpu, EAX, ECX, EDI, EDX, ESI, FLAG_DIRECTION};
use v86_cpu::memory::{Memory, PageEntry};
use v86_cpu::string::{
    cmpsb_no_rep, cmpsb_rep, cmpsd_rep, cmpsw_rep, insb_no_rep, insb_rep, insw_rep, lodsb_no_rep,
    lodsb_rep, lodsd_rep, lodsw_rep, movsb_no_rep, movsb_rep, movsd_rep, movsw_no_rep, movsw_rep,
    outsb_rep, outsd_no_rep, outsw_rep, scasb_no_rep, scasb_rep, scasd_rep, scasw_rep,
    stosb_no_rep, stosb_rep, stosd_rep, stosw_rep, string_get_cycle_count,
    string_get_cycle_count2, IoPorts, PortIo, StringContext, PREFIX_REPNZ, PREFIX_REPZ,
};

struct Ports {
    allowed: bool,
    input: Vec<u32>,
    output: Vec<(u32, u32, u32)>,
}

impl PortIo for Ports {
    fn io_allowed(&self, _port: u32, _size: u32) -> bool {
        self.allowed
    }

    fn io_port_read(&mut self, _port: u32, _size: u32) -> u32 {
        if self.input.is_empty() {
            0xFFFF_FFFF
        } else {
            self.input.remove(0)
        }
    }

    fn io_port_write(&mut self, port: u32, size: u32, value: u32) {
        self.output.push((port, size, value));
    }
}

fn flat() -> StringContext {
    StringContext { address_size_32: true, source_base: 0, dest_base: 0 }
}

fn setup(count: u32, si: u32, di: u32) -> (Cpu, Memory) {
    let mut cpu = Cpu::new();
    cpu.reg32[ECX as usize] = count;
    cpu.reg32[ESI as usize] = si;
    cpu.reg32[EDI as usize] = di;
    cpu.instruction_pointer = 0x105;
    cpu.previous_ip = 0x100;
    (cpu, Memory::identity(32))
}

#[test]
fn cycle_counts() {
    assert_eq!(string_get_cycle_count(1, 0x1000), 4096);
    assert_eq!(string_get_cycle_count(1, 0x1FFF), 1);
    assert_eq!(string_get_cycle_count(-1, 0x1000), 1);
    assert_eq!(string_get_cycle_count(-4, 0x1FFC), 1024);
    assert_eq!(string_get_cycle_count(2, 0x1FFE), 1);
    assert_eq!(string_get_cycle_count2(4, 0x1000, 0x2FF0), 4);
}

#[test]
fn stosb_ten_thousand_takes_three_dispatches() {
    let (mut cpu, mut mem) = setup(10000, 0, 0x1000);
    cpu.reg32[EAX as usize] = 0xAB;
    let mut chunks = Vec::new();
    let mut dispatches = 0;
    loop {
        let before = cpu.reg32[ECX as usize];
        cpu.instruction_pointer = 0x105;
        assert_eq!(stosb_rep(&mut cpu, &mut mem, flat()), Ok(()));
        dispatches += 1;
        chunks.push(before - cpu.reg32[ECX as usize]);
        if cpu.reg32[ECX as usize] == 0 {
            assert_eq!(cpu.instruction_pointer, 0x105);
            break;
        }
        assert_eq!(cpu.instruction_pointer, 0x100);
    }
    assert_eq!(dispatches, 3);
    assert_eq!(chunks, vec![4096, 4096, 1808]);
    assert_eq!(cpu.reg32[EDI as usize], 0x1000 + 10000);
    assert_eq!(cpu.timestamp_counter, 10000);
    assert!(mem.bytes[0x1000..0x1000 + 10000].iter().all(|&b| b == 0xAB));
    assert_eq!(mem.bytes[0x1000 + 10000], 0);
    assert!(mem.dirty[1] && mem.dirty[2] && mem.dirty[3]);
}

#[test]
fn movsb_round_trip_over_several_dispatches() {
    let n: u32 = 5000;
    let (mut cpu, mut mem) = setup(n, 0x2000, 0x8000);
    for i in 0..n as usize {
        mem.bytes[0x2000 + i] = (i % 251) as u8;
    }
    let mut dispatches = 0;
    loop {
        assert_eq!(movsb_rep(&mut cpu, &mut mem, flat()), Ok(()));
        dispatches += 1;
        if cpu.reg32[ECX as usize] == 0 {
            break;
        }
        assert_eq!(cpu.instruction_pointer, cpu.previous_ip);
        cpu.instruction_pointer = 0x105;
    }
    assert_eq!(dispatches, 2);
    assert_eq!(cpu.reg32[ESI as usize], 0x2000 + n);
    assert_eq!(cpu.reg32[EDI as usize], 0x8000 + n);
    for i in 0..n as usize {
        assert_eq!(mem.bytes[0x8000 + i], (i % 251) as u8);
    }
}

#[test]
fn movsw_unaligned_and_backward() {
    let (mut cpu, mut mem) = setup(3, 0x101, 0x201);
    for i in 0..6 {
        mem.bytes[0x101 + i] = 1 + i as u8;
    }
    assert_eq!(movsw_rep(&mut cpu, &mut mem, flat()), Ok(()));
    assert_eq!(&mem.bytes[0x201..0x207], &[1, 2, 3, 4, 5, 6]);
    assert_eq!(cpu.reg32[ECX as usize], 0);
    assert_eq!(cpu.reg32[ESI as usize], 0x107);

    let (mut cpu, mut mem) = setup(2, 0x104, 0x204);
    cpu.flags |= FLAG_DIRECTION;
    for i in 0..8 {
        mem.bytes[0x100 + i] = 0x10 + i as u8;
    }
    assert_eq!(movsd_rep(&mut cpu, &mut mem, flat()), Ok(()));
    assert_eq!(&mem.bytes[0x200..0x208], &[0x10, 0x11, 0x12, 0x13, 0x14, 0x15, 0x16, 0x17]);
    assert_eq!(cpu.reg32[ESI as usize], 0xFC);
    assert_eq!(cpu.reg32[EDI as usize], 0x1FC);
}

#[test]
fn movs_zero_count_changes_nothing() {
    let (mut cpu, mut mem) = setup(0, 0x100, 0x200);
    mem.bytes[0x100] = 7;
    let before = cpu;
    assert_eq!(movsb_rep(&mut cpu, &mut mem, flat()), Ok(()));
    assert_eq!(cpu.reg32, before.reg32);
    assert_eq!(mem.bytes[0x200], 0);
}

#[test]
fn movs_faults_on_unmapped_page() {
    let (mut cpu, mut mem) = setup(4, 0x100, 0x1000);
    mem.set_page(1, None);
    let before = cpu.reg32;
    let r = movsb_rep(&mut cpu, &mut mem, flat());
    assert_eq!(r, Err(CpuException::PageFault { address: 0x1000, write: true }));
    assert_eq!(cpu.reg32, before);
}

#[test]
fn movsw_unaligned_fault_keeps_progress() {
    let (mut cpu, mut mem) = setup(4, 0x0FFB, 0x3001);
    mem.set_page(1, None);
    let r = movsw_rep(&mut cpu, &mut mem, flat());
    assert!(matches!(r, Err(CpuException::PageFault { .. })));
    assert_eq!(cpu.reg32[ECX as usize], 2);
    assert_eq!(cpu.reg32[ESI as usize], 0x0FFF);
    assert_eq!(cpu.reg32[EDI as usize], 0x3005);
}

#[test]
fn movs_respects_read_only_pages() {
    let (mut cpu, mut mem) = setup(1, 0x100, 0x1000);
    mem.set_page(1, Some(PageEntry { frame: 1, writable: false }));
    assert!(matches!(
        movsb_no_rep(&mut cpu, &mut mem, flat()),
        Err(CpuException::PageFault { write: true, .. })
    ));
    assert_eq!(cpu.reg32[ESI as usize], 0x100);
}

#[test]
fn single_moves_and_stores() {
    let (mut cpu, mut mem) = setup(0, 0x100, 0x200);
    mem.bytes[0x100] = 0x11;
    mem.bytes[0x101] = 0x22;
    assert_eq!(movsw_no_rep(&mut cpu, &mut mem, flat()), Ok(()));
    assert_eq!(&mem.bytes[0x200..0x202], &[0x11, 0x22]);
    assert_eq!(cpu.reg32[ESI as usize], 0x102);
    assert_eq!(cpu.reg32[EDI as usize], 0x202);
    cpu.reg32[EAX as usize] = 0x99;
    assert_eq!(stosb_no_rep(&mut cpu, &mut mem, flat()), Ok(()));
    assert_eq!(mem.bytes[0x202], 0x99);
    assert_eq!(cpu.reg32[EDI as usize], 0x203);
    assert_eq!(cpu.reg32[ECX as usize], 0);
}

#[test]
fn wide_stores() {
    let (mut cpu, mut mem) = setup(2, 0, 0x300);
    cpu.reg32[EAX as usize] = 0xA1B2_C3D4;
    assert_eq!(stosd_rep(&mut cpu, &mut mem, flat()), Ok(()));
    assert_eq!(&mem.bytes[0x300..0x308], &[0xD4, 0xC3, 0xB2, 0xA1, 0xD4, 0xC3, 0xB2, 0xA1]);
    let (mut cpu, mut mem) = setup(2, 0, 0x301);
    cpu.reg32[EAX as usize] = 0xBEEF;
    assert_eq!(stosw_rep(&mut cpu, &mut mem, flat()), Ok(()));
    assert_eq!(&mem.bytes[0x301..0x305], &[0xEF, 0xBE, 0xEF, 0xBE]);
}

#[test]
fn sixteen_bit_index_wraps() {
    let ctx = StringContext { address_size_32: false, source_base: 0x1_0000, dest_base: 0x2_0000 };
    let mut cpu = Cpu::new();
    cpu.reg32[ECX as usize] = 0xABCD_0002;
    cpu.reg32[ESI as usize] = 0x1234_FFFF;
    cpu.reg32[EDI as usize] = 0x0000_FFFF;
    let mut mem = Memory::identity(64);
    mem.bytes[0x1_FFFF] = 0x5A;
    mem.bytes[0x1_0000] = 0x6B;
    assert_eq!(movsb_rep(&mut cpu, &mut mem, ctx), Ok(()));
    if cpu.reg32[ECX as usize] & 0xFFFF != 0 {
        assert_eq!(movsb_rep(&mut cpu, &mut mem, ctx), Ok(()));
    }
    assert_eq!(mem.bytes[0x2_FFFF], 0x5A);
    assert_eq!(mem.bytes[0x2_0000], 0x6B);
    assert_eq!(cpu.reg32[ECX as usize], 0xABCD_0000);
    assert_eq!(cpu.reg32[ESI as usize], 0x1234_0001);
    assert_eq!(cpu.reg32[EDI as usize], 0x0000_0001);
}

#[test]
fn repe_cmpsb_stops_at_first_mismatch() {
    let (mut cpu, mut mem) = setup(10, 0x100, 0x200);
    for i in 0..10 {
        mem.bytes[0x100 + i] = i as u8;
        mem.bytes[0x200 + i] = i as u8;
    }
    mem.bytes[0x204] = 0x40;
    assert_eq!(cmpsb_rep(&mut cpu, &mem, flat(), PREFIX_REPZ), Ok(()));
    assert_eq!(cpu.reg32[ECX as usize], 5);
    assert_eq!(cpu.reg32[ESI as usize], 0x105);
    assert_eq!(cpu.reg32[EDI as usize], 0x205);
    assert!(!cpu.getzf());
    assert!(cpu.getcf());
    assert_eq!(cpu.instruction_pointer, 0x105);
}

#[test]
fn repe_cmps_equal_strings_exhaust_count() {
    let (mut cpu, mem) = setup(4, 0x100, 0x200);
    assert_eq!(cmpsw_rep(&mut cpu, &mem, flat(), PREFIX_REPZ), Ok(()));
    assert_eq!(cpu.reg32[ECX as usize], 0);
    assert!(cpu.getzf());
    let (mut cpu, mem) = setup(4, 0x101, 0x201);
    assert_eq!(cmpsd_rep(&mut cpu, &mem, flat(), PREFIX_REPZ), Ok(()));
    assert_eq!(cpu.reg32[ECX as usize], 0);
    assert_eq!(cpu.reg32[ESI as usize], 0x111);
}

#[test]
fn repne_scasb_finds_byte() {
    let (mut cpu, mut mem) = setup(100, 0, 0x400);
    mem.bytes[0x400 + 17] = 0x2A;
    cpu.reg32[EAX as usize] = 0x2A;
    assert_eq!(scasb_rep(&mut cpu, &mem, flat(), PREFIX_REPNZ), Ok(()));
    assert_eq!(cpu.reg32[EDI as usize], 0x400 + 18);
    assert_eq!(cpu.reg32[ECX as usize], 100 - 18);
    assert!(cpu.getzf());
}

#[test]
fn repe_scas_wide() {
    let (mut cpu, mut mem) = setup(8, 0, 0x500);
    for i in 0..16 {
        mem.bytes[0x500 + i] = 0x77;
    }
    mem.bytes[0x506] = 0;
    cpu.reg32[EAX as usize] = 0x7777;
    assert_eq!(scasw_rep(&mut cpu, &mem, flat(), PREFIX_REPZ), Ok(()));
    assert_eq!(cpu.reg32[ECX as usize], 4);
    assert!(!cpu.getzf());
    let (mut cpu, mem) = setup(3, 0, 0x600);
    cpu.reg32[EAX as usize] = 1;
    assert_eq!(scasd_rep(&mut cpu, &mem, flat(), PREFIX_REPZ), Ok(()));
    assert_eq!(cpu.reg32[ECX as usize], 2);
    assert!(!cpu.getzf());
}

#[test]
fn single_compares() {
    let (mut cpu, mut mem) = setup(0, 0x100, 0x200);
    mem.bytes[0x100] = 3;
    mem.bytes[0x200] = 5;
    assert_eq!(cmpsb_no_rep(&mut cpu, &mem, flat()), Ok(()));
    assert!(cpu.getcf());
    assert_eq!(cpu.reg32[ESI as usize], 0x101);
    cpu.reg32[EAX as usize] = 0;
    assert_eq!(scasb_no_rep(&mut cpu, &mem, flat()), Ok(()));
    assert!(cpu.getzf());
    assert_eq!(cpu.reg32[EDI as usize], 0x202);
}

#[test]
fn loads_keep_last_unit() {
    let (mut cpu, mut mem) = setup(3, 0x100, 0);
    mem.bytes[0x100] = 1;
    mem.bytes[0x101] = 2;
    mem.bytes[0x102] = 3;
    cpu.reg32[EAX as usize] = 0xFFFF_FF00;
    assert_eq!(lodsb_rep(&mut cpu, &mem, flat()), Ok(()));
    assert_eq!(cpu.reg32[EAX as usize], 0xFFFF_FF03);
    assert_eq!(cpu.reg32[ESI as usize], 0x103);
    let (mut cpu, mut mem) = setup(2, 0x101, 0);
    mem.bytes[0x103] = 0x34;
    mem.bytes[0x104] = 0x12;
    assert_eq!(lodsw_rep(&mut cpu, &mem, flat()), Ok(()));
    assert_eq!(cpu.reg32[EAX as usize] & 0xFFFF, 0x1234);
    let (mut cpu, mut mem) = setup(1, 0x100, 0);
    mem.bytes[0x100] = 0x78;
    mem.bytes[0x101] = 0x56;
    mem.bytes[0x102] = 0x34;
    mem.bytes[0x103] = 0x12;
    assert_eq!(lodsd_rep(&mut cpu, &mem, flat()), Ok(()));
    assert_eq!(cpu.reg32[EAX as usize], 0x1234_5678);
    let (mut cpu, mut mem) = setup(0, 0x100, 0);
    mem.bytes[0x100] = 9;
    assert_eq!(lodsb_no_rep(&mut cpu, &mem, flat()), Ok(()));
    assert_eq!(cpu.reg32[EAX as usize] & 0xFF, 9);
}

#[test]
fn port_input_and_output() {
    let (mut cpu, mut mem) = setup(3, 0x100, 0x200);
    cpu.reg32[EDX as usize] = 0x3F8;
    let mut ports =
        IoPorts::new(Ports { allowed: true, input: vec![0x41, 0x142, 0x43], output: Vec::new() });
    assert_eq!(insb_rep(&mut cpu, &mut mem, &mut ports, flat()), Ok(()));
    assert_eq!(&mem.bytes[0x200..0x203], &[0x41, 0x42, 0x43]);
    assert_eq!(cpu.reg32[EDI as usize], 0x203);
    assert_eq!(cpu.reg32[ECX as usize], 0);
    let (mut cpu, mut mem) = setup(2, 0x100, 0x201);
    cpu.reg32[EDX as usize] = 0x60;
    ports.device.input = vec![0xAABB, 0xCCDD];
    assert_eq!(insw_rep(&mut cpu, &mut mem, &mut ports, flat()), Ok(()));
    assert_eq!(&mem.bytes[0x201..0x205], &[0xBB, 0xAA, 0xDD, 0xCC]);
    mem.bytes[0x100] = 0x10;
    mem.bytes[0x101] = 0x20;
    mem.bytes[0x102] = 0x30;
    mem.bytes[0x103] = 0x40;
    cpu.reg32[ECX as usize] = 2;
    assert_eq!(outsw_rep(&mut cpu, &mem, &mut ports, flat()), Ok(()));
    assert_eq!(ports.device.output, vec![(0x60, 2, 0x2010), (0x60, 2, 0x4030)]);
    assert_eq!(cpu.reg32[ESI as usize], 0x104);
    cpu.reg32[ECX as usize] = 1;
    assert_eq!(outsb_rep(&mut cpu, &mem, &mut ports, flat()), Ok(()));
    assert_eq!(outsd_no_rep(&mut cpu, &mem, &mut ports, flat()), Ok(()));
    assert_eq!(ports.device.output.len(), 4);
    ports.device.input = vec![0x55];
    assert_eq!(insb_no_rep(&mut cpu, &mut mem, &mut ports, flat()), Ok(()));
}

#[test]
fn port_access_refused_changes_nothing() {
    let (mut cpu, mut mem) = setup(3, 0x100, 0x200);
    let mut ports = IoPorts::new(Ports { allowed: false, input: vec![1, 2, 3], output: Vec::new() });
    let before = cpu.reg32;
    assert_eq!(insb_rep(&mut cpu, &mut mem, &mut ports, flat()), Err(CpuException::GeneralProtection));
    assert_eq!(cpu.reg32, before);
    assert_eq!(ports.device.input.len(), 3);
    assert_eq!(mem.bytes[0x200], 0);
    assert_eq!(outsb_rep(&mut cpu, &mem, &mut ports, flat()), Err(CpuException::GeneralProtection));
    assert!(ports.device.output.is_empty());
}
