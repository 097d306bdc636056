//! Repeated string instructions: move, store, load, compare, scan and port
//! transfers of bytes, words and dwords. One dispatch performs a bounded
//! number of iterations and asks to be dispatched again while work is left.
use vstd::prelude::*;
use crate::arith::{after_additive, cmp16, cmp32, cmp8, CpuException};
use crate::cpu::{
    low16, with_low16, with_low8, Cpu, AL, AX, DX, EAX, ECX, EDI, ESI, FLAGS_ALL, FLAG_DIRECTION,
    OPSIZE_16,
    OPSIZE_32, OPSIZE_8,
};
use crate::memory::{
    lemma_contiguous_unit, lemma_mark_and_write, lemma_same_pages, lemma_write_value_shape, lemma_translate_range,
    unit_max, valid_unit,
    MemView, Memory, PAGE_SIZE,
};

verus! {

/// Iterations one dispatch performs at most when each unit is checked on its own.
pub const MAX_COUNT_PER_CYCLE: u32 = 4096;

pub const PREFIX_REPZ: i32 = 8;
pub const PREFIX_REPNZ: i32 = 16;

/// What the decoder hands a string instruction: the address size and the
/// segment bases of source and destination.
#[derive(Clone, Copy, PartialEq, Eq, Structural, Debug)]
pub struct StringContext {
    /// Index registers count modulo 2^32 rather than modulo 2^16.
    pub address_size_32: bool,
    /// Base of the source segment (DS or its override).
    pub source_base: u32,
    /// Base of the destination segment (ES).
    pub dest_base: u32,
}

pub open spec fn asize_modulus(a32: bool) -> int {
    if a32 {
        0x1_0000_0000
    } else {
        0x1_0000
    }
}

/// The part of a register that the address size uses.
pub open spec fn asize_value(x: u32, a32: bool) -> u32 {
    if a32 {
        x
    } else {
        low16(x)
    }
}

/// A register whose used part becomes `v`, modulo the address size.
pub open spec fn asize_update(x: u32, a32: bool, v: int) -> u32 {
    let w = (v % asize_modulus(a32)) as u32;
    if a32 {
        w
    } else {
        with_low16(x, w)
    }
}

pub open spec fn backward(c: Cpu) -> bool {
    c.flags & FLAG_DIRECTION != 0
}

/// Signed distance between consecutive units.
pub open spec fn step_of(c: Cpu, size: u32) -> int {
    if backward(c) {
        -(size as int)
    } else {
        size as int
    }
}

/// Linear address of unit `i` of a string that starts at index `idx`.
#[verifier::opaque]
pub open spec fn unit_addr(base: u32, idx: u32, a32: bool, step: int, i: int) -> u32 {
    ((base + (idx + i * step) % asize_modulus(a32)) % 0x1_0000_0000) as u32
}

pub open spec fn src_unit(c: Cpu, ctx: StringContext, size: u32, i: int) -> u32 {
    unit_addr(
        ctx.source_base,
        asize_value(c.reg(ESI as int), ctx.address_size_32),
        ctx.address_size_32,
        step_of(c, size),
        i,
    )
}

pub open spec fn dst_unit(c: Cpu, ctx: StringContext, size: u32, i: int) -> u32 {
    unit_addr(
        ctx.dest_base,
        asize_value(c.reg(EDI as int), ctx.address_size_32),
        ctx.address_size_32,
        step_of(c, size),
        i,
    )
}

/// The repeat count.
pub open spec fn count_of(c: Cpu, ctx: StringContext) -> u32 {
    asize_value(c.reg(ECX as int), ctx.address_size_32)
}

/// Registers after `n` iterations: the counter is down by `n`, and the index
/// registers in use have moved by `n` steps.
pub open spec fn regs_after(
    c: Cpu,
    ctx: StringContext,
    size: u32,
    n: int,
    uses_si: bool,
    uses_di: bool,
) -> Seq<u32> {
    let a32 = ctx.address_size_32;
    let d = n * step_of(c, size);
    let r1 = c.reg32@.update(
        ECX as int,
        asize_update(c.reg(ECX as int), a32, count_of(c, ctx) - n),
    );
    let r2 = if uses_si {
        r1.update(
            ESI as int,
            asize_update(c.reg(ESI as int), a32, asize_value(c.reg(ESI as int), a32) + d),
        )
    } else {
        r1
    };
    if uses_di {
        r2.update(
            EDI as int,
            asize_update(c.reg(EDI as int), a32, asize_value(c.reg(EDI as int), a32) + d),
        )
    } else {
        r2
    }
}

/// `c1` is `c0` after `n` iterations, with the cycle counter advanced by `n`;
/// `restart` rewinds the instruction pointer so that the instruction is
/// dispatched again.
#[verifier::opaque]
pub open spec fn progressed(
    c0: Cpu,
    c1: Cpu,
    ctx: StringContext,
    size: u32,
    n: int,
    uses_si: bool,
    uses_di: bool,
    restart: bool,
) -> bool {
    &&& c1.reg32@ == regs_after(c0, ctx, size, n, uses_si, uses_di)
    &&& c1 == (Cpu {
        reg32: c1.reg32,
        timestamp_counter: c0.timestamp_counter.wrapping_add(n as u32),
        instruction_pointer: if restart {
            c0.previous_ip
        } else {
            c0.instruction_pointer
        },
        ..c0
    })
}

pub open spec fn lesser(a: int, b: int) -> int {
    if a < b {
        a
    } else {
        b
    }
}

/// Units from `addr` to the end of its page, in the direction of travel.
pub open spec fn page_room(addr: u32, size: u32, back: bool) -> int {
    if back {
        (addr % PAGE_SIZE) as int / (size as int) + 1
    } else {
        (PAGE_SIZE - addr % PAGE_SIZE) as int / (size as int)
    }
}

/// Units before a 16-bit index register would wrap around.
pub open spec fn index_room(idx: u32, size: u32, back: bool, a32: bool) -> int {
    if a32 {
        0x1000
    } else if back {
        idx as int / (size as int) + 1
    } else {
        (0xFFFF - idx) as int / (size as int) + 1
    }
}

/// Iterations until the first of the two addresses leaves its page, for
/// units of `|size|` bytes travelling up (`size > 0`) or down.
pub fn string_get_cycle_count(size: i32, address: i32) -> (r: i32)
    requires
        size == 1 || size == 2 || size == 4 || size == -1 || size == -2 || size == -4,
        (address as u32) % (if size < 0 {
            -size
        } else {
            size as int
        }) as u32 == 0,
    ensures
        r == page_room(
            address as u32,
            (if size < 0 {
                -size
            } else {
                size as int
            }) as u32,
            size < 0,
        ),
        1 <= r <= 4096,
{
    let s: u32 = if size < 0 {
        (-size) as u32
    } else {
        size as u32
    };
    let off = (#[verifier::truncate] (address as u32)) % PAGE_SIZE;
    assert(off % s == 0) by (nonlinear_arith)
        requires
            (address as u32) % s == 0,
            off == (address as u32) % 4096,
            s == 1 || s == 2 || s == 4,
    ;
    if size < 0 {
        (off / s + 1) as i32
    } else {
        assert((4096 - off) as int / s as int >= 1) by (nonlinear_arith)
            requires
                off % s == 0,
                off < 4096,
                s == 1 || s == 2 || s == 4,
        ;
        ((PAGE_SIZE - off) / s) as i32
    }
}

/// The smaller of the page rooms of two addresses.
pub fn string_get_cycle_count2(size: i32, addr1: i32, addr2: i32) -> (r: i32)
    requires
        size == 1 || size == 2 || size == 4 || size == -1 || size == -2 || size == -4,
        (addr1 as u32) % (if size < 0 {
            -size
        } else {
            size as int
        }) as u32 == 0,
        (addr2 as u32) % (if size < 0 {
            -size
        } else {
            size as int
        }) as u32 == 0,
    ensures
        ({
            let s = (if size < 0 {
                -size
            } else {
                size as int
            }) as u32;
            r == lesser(page_room(addr1 as u32, s, size < 0), page_room(addr2 as u32, s, size < 0))
        }),
        1 <= r <= 4096,
{
    let c1 = string_get_cycle_count(size, addr1);
    let c2 = string_get_cycle_count(size, addr2);
    if c1 < c2 {
        c1
    } else {
        c2
    }
}

/// Within the budget of the per-page path, unit `i` lies `i` steps from unit 0
/// and inside the page of unit 0.
#[verifier::rlimit(100)]
pub proof fn lemma_unit_in_page(
    base: u32,
    idx: u32,
    a32: bool,
    size: u32,
    back: bool,
    i: int,
    k: int,
)
    requires
        valid_unit(size),
        0 <= i < k,
        idx < asize_modulus(a32),
        unit_addr(base, idx, a32, if back { -(size as int) } else { size as int }, 0) % size
            == 0,
        k <= page_room(
            unit_addr(base, idx, a32, if back { -(size as int) } else { size as int }, 0),
            size,
            back,
        ),
        k <= index_room(idx, size, back, a32),
    ensures
        ({
            let step = if back {
                -(size as int)
            } else {
                size as int
            };
            let l0 = unit_addr(base, idx, a32, step, 0) as int;
            &&& unit_addr(base, idx, a32, step, i) == l0 + i * step
            &&& 0 <= l0 % 4096 + i * step
            &&& l0 % 4096 + i * step + size <= 4096
        }),
{
    reveal(unit_addr);
    let step = if back {
        -(size as int)
    } else {
        size as int
    };
    let mm = asize_modulus(a32);
    let n: int = 0x1_0000_0000;
    let l0 = unit_addr(base, idx, a32, step, 0) as int;
    let x = idx as int;
    let o = l0 % 4096;
    let s = size as int;
    assert(o % s == 0) by (nonlinear_arith)
        requires
            l0 % s == 0,
            o == l0 % 4096,
            s == 1 || s == 2 || s == 4,
    ;
    assert(i * step == if back {
        -(i * s)
    } else {
        i * s
    }) by (nonlinear_arith)
        requires
            step == if back {
                -s
            } else {
                s
            },
    ;
    if !a32 {
        if back {
            assert(i * s <= x) by (nonlinear_arith)
                requires
                    i < k,
                    k <= x / s + 1,
                    s > 0,
                    i >= 0,
            ;
        } else {
            assert(i * s <= 0xFFFF - x) by (nonlinear_arith)
                requires
                    i < k,
                    k <= (0xFFFF - x) / s + 1,
                    s > 0,
                    i >= 0,
            ;
        }
        vstd::arithmetic::div_mod::lemma_small_mod((x + i * step) as nat, mm as nat);
    } else {
        vstd::arithmetic::div_mod::lemma_add_mod_noop_right(base as int, x + i * step, mm);
    }
    vstd::arithmetic::div_mod::lemma_small_mod(x as nat, mm as nat);
    if back {
        assert(i * s <= o) by (nonlinear_arith)
            requires
                i < k,
                k <= o / s + 1,
                o % s == 0,
                s > 0,
                i >= 0,
        ;
        assert(o + s <= 4096) by (nonlinear_arith)
            requires
                o % s == 0,
                0 <= o < 4096,
                s == 1 || s == 2 || s == 4,
        ;
    } else {
        assert(o + i * s + s <= 4096) by (nonlinear_arith)
            requires
                i < k,
                k <= (4096 - o) / s,
                s > 0,
                i >= 0,
                0 <= o < 4096,
        ;
    }
    vstd::arithmetic::div_mod::lemma_add_mod_noop(base as int + x, i * step, n);
    vstd::arithmetic::div_mod::lemma_fundamental_div_mod(l0, 4096);
    assert(l0 - o + 4096 <= n);
    vstd::arithmetic::div_mod::lemma_small_mod((l0 + i * step) as nat, n as nat);
}

/// The bytes of a unit that stays inside the page of a translated address
/// sit at the same distance in physical memory.
pub proof fn lemma_unit_translate(m: MemView, l0: u32, d: int, size: u32, write: bool)
    requires
        m.wf(),
        valid_unit(size),
        m.translate(l0, write) is Some,
        0 <= l0 % 4096 + d,
        l0 % 4096 + d + size <= 4096,
    ensures
        ({
            let p0 = m.translate(l0, write)->Some_0 as int;
            let li = (l0 + d) as u32;
            &&& li == l0 + d
            &&& p0 + d + size <= m.bytes.len()
            &&& (p0 + d) / 4096 == p0 / 4096
            &&& (p0 + d + size - 1) / 4096 == p0 / 4096
            &&& m.contiguous(li, size, write, (p0 + d) as u32)
            &&& m.accessible(li, size, write)
        }),
{
    reveal(MemView::contiguous);
    reveal(MemView::accessible);
    let l = l0 as int;
    let o = l % 4096;
    let q = l / 4096;
    let p0 = m.translate(l0, write)->Some_0 as int;
    let li = l + d;
    vstd::arithmetic::div_mod::lemma_fundamental_div_mod(l, 4096);
    assert(l == q * 4096 + o);
    assert(l - o + 4096 <= 0x1_0000_0000);
    let e = m.pages[q]->Some_0;
    assert(e.frame < m.dirty.len());
    assert(p0 == e.frame * 4096 + o);
    assert((e.frame + 1) * 4096 <= m.bytes.len()) by (nonlinear_arith)
        requires
            e.frame < m.dirty.len(),
            m.bytes.len() == m.dirty.len() * 4096,
    ;
    vstd::arithmetic::div_mod::lemma_fundamental_div_mod_converse(p0 + d, 4096, e.frame as int, o + d);
    vstd::arithmetic::div_mod::lemma_fundamental_div_mod_converse(p0, 4096, e.frame as int, o);
    vstd::arithmetic::div_mod::lemma_fundamental_div_mod_converse(
        p0 + d + size - 1,
        4096,
        e.frame as int,
        o + d + size - 1,
    );
    assert forall|j: int| 0 <= j < size implies #[trigger] m.translate((li + j) as u32, write)
        == Some((p0 + d + j) as u32) by {
        vstd::arithmetic::div_mod::lemma_fundamental_div_mod_converse(li + j, 4096, q, o + d + j);
    }
    let liu = li as u32;
    assert(liu == li);
    assert(size >= 2 ==> liu.wrapping_add(1) == (li + 1) as u32);
    assert(size >= 4 ==> liu.wrapping_add(2) == (li + 2) as u32);
    assert(size >= 4 ==> liu.wrapping_add(3) == (li + 3) as u32);
    assert(m.translate((li + 0) as u32, write) == Some((p0 + d + 0) as u32));
    if size >= 2 {
        assert(m.translate((li + 1) as u32, write) == Some((p0 + d + 1) as u32));
    }
    if size >= 4 {
        assert(m.translate((li + 2) as u32, write) == Some((p0 + d + 2) as u32));
        assert(m.translate((li + 3) as u32, write) == Some((p0 + d + 3) as u32));
    }
}

/// `v` moved by `delta` up or down, modulo the address size.
fn moved_value(v: u32, a32: bool, forward: bool, delta: u32) -> (r: u32)
    requires
        v < asize_modulus(a32),
        delta <= 0x1_0000,
    ensures
        r == (v + (if forward {
            delta as int
        } else {
            -(delta as int)
        })) % asize_modulus(a32),
        r < asize_modulus(a32),
{
    let m: u64 = if a32 {
        0x1_0000_0000
    } else {
        0x1_0000
    };
    if forward {
        ((v as u64 + delta as u64) % m) as u32
    } else {
        proof {
            vstd::arithmetic::div_mod::lemma_mod_add_multiples_vanish(v - delta, m as int);
        }
        ((v as u64 + m - delta as u64) % m) as u32
    }
}

fn asize_get(x: u32, a32: bool) -> (r: u32)
    ensures
        r == asize_value(x, a32),
        r < asize_modulus(a32),
{
    if a32 {
        x
    } else {
        x % 0x1_0000
    }
}

/// The register `x` with its used part replaced by `w`.
fn asize_set(x: u32, a32: bool, w: u32) -> (r: u32)
    requires
        w < asize_modulus(a32),
    ensures
        r == asize_update(x, a32, w as int),
{
    if a32 {
        w
    } else {
        x - x % 0x1_0000 + w
    }
}

/// Linear address of unit `i` of a string.
fn unit_address(base: u32, idx: u32, a32: bool, forward: bool, i: u32, size: u32) -> (r: u32)
    requires
        idx < asize_modulus(a32),
        valid_unit(size),
        i <= MAX_COUNT_PER_CYCLE,
    ensures
        r == unit_addr(base, idx, a32, if forward {
            size as int
        } else {
            -(size as int)
        }, i as int),
{
    reveal(unit_addr);
    assert(i * size <= 0x4000) by (nonlinear_arith)
        requires
            i <= 4096,
            size <= 4,
    ;
    let w = moved_value(idx, a32, forward, i * size);
    let ghost step: int = if forward {
        size as int
    } else {
        -(size as int)
    };
    assert(i * step == if forward {
        (i * size) as int
    } else {
        -((i * size) as int)
    }) by (nonlinear_arith)
        requires
            step == if forward {
                size as int
            } else {
                -(size as int)
            },
    ;
    base.wrapping_add(w)
}

/// An index register moved by `delta` up or down, modulo the address size.
fn index_after(x: u32, a32: bool, forward: bool, delta: u32) -> (r: u32)
    requires
        delta <= 0x1_0000,
    ensures
        r == asize_update(x, a32, asize_value(x, a32) + (if forward {
            delta as int
        } else {
            -(delta as int)
        })),
{
    let w = moved_value(asize_get(x, a32), a32, forward, delta);
    asize_set(x, a32, w)
}

/// Sets the counter and the index registers in use to their values after `n`
/// iterations from `c0`, and advances the cycle counter.
#[verifier::rlimit(40)]
fn commit(
    cpu: &mut Cpu,
    c0: &Cpu,
    ctx: &StringContext,
    size: u32,
    prev: Ghost<u32>,
    n: u32,
    uses_si: bool,
    uses_di: bool,
)
    requires
        valid_unit(size),
        n <= count_of(*c0, *ctx),
        n <= MAX_COUNT_PER_CYCLE,
        prev@ <= count_of(*c0, *ctx),
        progressed(*c0, *old(cpu), *ctx, size, prev@ as int, uses_si, uses_di, false),
    ensures
        progressed(*c0, *final(cpu), *ctx, size, n as int, uses_si, uses_di, false),
{
    reveal(progressed);
    let a32 = ctx.address_size_32;
    let forward = c0.flags & FLAG_DIRECTION == 0;
    assert(n * size <= 0x4000) by (nonlinear_arith)
        requires
            n <= 4096,
            size <= 4,
    ;
    let ghost step: int = step_of(*c0, size);
    assert(n * step == if forward {
        (n * size) as int
    } else {
        -((n * size) as int)
    }) by (nonlinear_arith)
        requires
            step == if forward {
                size as int
            } else {
                -(size as int)
            },
    ;
    let ecx0 = c0.reg32[ECX as usize];
    let count = asize_get(ecx0, a32);
    cpu.set_reg32(ECX, asize_set(ecx0, a32, count - n));
    if uses_si {
        cpu.set_reg32(ESI, index_after(c0.reg32[ESI as usize], a32, forward, n * size));
    }
    if uses_di {
        cpu.set_reg32(EDI, index_after(c0.reg32[EDI as usize], a32, forward, n * size));
    }
    cpu.timestamp_counter = c0.timestamp_counter.wrapping_add(n);
    assert(final(cpu).reg32@ =~= regs_after(*c0, *ctx, size, n as int, uses_si, uses_di));
}

/// Units from `addr` to the end of its page, in the direction of travel.
fn page_room_of(addr: u32, size: u32, back: bool) -> (r: u32)
    requires
        valid_unit(size),
        addr % size == 0,
    ensures
        r == page_room(addr, size, back),
        1 <= r <= 4096,
{
    let off = addr % PAGE_SIZE;
    assert(off % size == 0) by (nonlinear_arith)
        requires
            addr % size == 0,
            off == addr % 4096,
            size == 1 || size == 2 || size == 4,
    ;
    if back {
        off / size + 1
    } else {
        assert((4096 - off) as int / size as int >= 1) by (nonlinear_arith)
            requires
                off % size == 0,
                off < 4096,
                size == 1 || size == 2 || size == 4,
        ;
        (PAGE_SIZE - off) / size
    }
}

fn index_room_of(idx: u32, size: u32, back: bool, a32: bool) -> (r: u32)
    requires
        valid_unit(size),
        idx < asize_modulus(a32),
    ensures
        r == index_room(idx, size, back, a32),
        r >= 1,
{
    if a32 {
        0x1000
    } else if back {
        idx / size + 1
    } else {
        (0xFFFF - idx) / size + 1
    }
}

/// The unit that iteration `j` writes: the source unit for a move, the given
/// value for a store.
pub open spec fn transfer_value(
    m: MemView,
    c: Cpu,
    ctx: StringContext,
    size: u32,
    store: Option<u32>,
    j: int,
) -> u32 {
    match store {
        Some(v) => v,
        None => m.read_value(src_unit(c, ctx, size, j), size),
    }
}

/// Memory after the first `n` iterations of a move (`store` is `None`) or a
/// store, one unit after the other.
pub open spec fn transfer_model(
    m: MemView,
    c: Cpu,
    ctx: StringContext,
    size: u32,
    store: Option<u32>,
    n: nat,
) -> MemView
    decreases n,
{
    if n == 0 {
        m
    } else {
        let prev = transfer_model(m, c, ctx, size, store, (n - 1) as nat);
        prev.write_value(
            dst_unit(c, ctx, size, n - 1),
            size,
            transfer_value(prev, c, ctx, size, store, n - 1),
        )
    }
}

/// The first `n` units can be read at the source (for a move) and written at
/// the destination.
pub open spec fn transfer_ok(
    m: MemView,
    c: Cpu,
    ctx: StringContext,
    size: u32,
    store: Option<u32>,
    n: int,
) -> bool {
    forall|j: int| 0 <= j < n ==> #[trigger] transfer_unit_ok(m, c, ctx, size, store, j)
}

/// Unit `j` can be read at the source (for a move) and written at the
/// destination.
pub open spec fn transfer_unit_ok(
    m: MemView,
    c: Cpu,
    ctx: StringContext,
    size: u32,
    store: Option<u32>,
    j: int,
) -> bool {
    (store is None ==> m.accessible(src_unit(c, ctx, size, j), size, false)) && m.accessible(
        dst_unit(c, ctx, size, j),
        size,
        true,
    )
}

/// The pointers in use start aligned to the unit: one translation per page
/// serves.
pub open spec fn transfer_fast(c: Cpu, ctx: StringContext, size: u32, store: Option<u32>) -> bool {
    (store is Some || src_unit(c, ctx, size, 0) % size == 0) && dst_unit(c, ctx, size, 0) % size
        == 0
}

/// Units until either pointer leaves its page or its index register wraps.
pub open spec fn two_pointer_room(c: Cpu, ctx: StringContext, size: u32) -> int {
    let back = backward(c);
    let a32 = ctx.address_size_32;
    lesser(
        lesser(
            page_room(src_unit(c, ctx, size, 0), size, back),
            page_room(dst_unit(c, ctx, size, 0), size, back),
        ),
        lesser(
            index_room(asize_value(c.reg(ESI as int), a32), size, back, a32),
            index_room(asize_value(c.reg(EDI as int), a32), size, back, a32),
        ),
    )
}

/// Units until the destination pointer leaves its page or EDI wraps.
pub open spec fn dest_room(c: Cpu, ctx: StringContext, size: u32) -> int {
    let back = backward(c);
    let a32 = ctx.address_size_32;
    lesser(
        page_room(dst_unit(c, ctx, size, 0), size, back),
        index_room(asize_value(c.reg(EDI as int), a32), size, back, a32),
    )
}

pub open spec fn transfer_room(c: Cpu, ctx: StringContext, size: u32, store: Option<u32>) -> int {
    if store is None {
        two_pointer_room(c, ctx, size)
    } else {
        dest_room(c, ctx, size)
    }
}

/// Iterations that one dispatch performs, faults aside: up to the end of the
/// page on the per-page path, up to the fixed cap on the per-unit path.
pub open spec fn transfer_chunk(c: Cpu, ctx: StringContext, size: u32, store: Option<u32>) -> int {
    if transfer_fast(c, ctx, size, store) {
        lesser(count_of(c, ctx) as int, transfer_room(c, ctx, size, store))
    } else {
        lesser(count_of(c, ctx) as int, MAX_COUNT_PER_CYCLE as int)
    }
}

/// What one dispatch of a repeated move or store does: nothing for a zero
/// count; else the iterations of its chunk, with a restart if the counter is
/// not yet zero; or, on a fault, the iterations before the faulting one.
pub open spec fn transfer_rep_post(
    c0: Cpu,
    c1: Cpu,
    m0: MemView,
    m1: MemView,
    ctx: StringContext,
    size: u32,
    store: Option<u32>,
    r: Result<(), CpuException>,
) -> bool {
    let count = count_of(c0, ctx) as int;
    let k = transfer_chunk(c0, ctx, size, store);
    &&& m1.wf()
    &&& count == 0 ==> r is Ok && c1 == c0 && m1 == m0
    &&& count > 0 && transfer_ok(m0, c0, ctx, size, store, k) ==> r is Ok && progressed(
        c0,
        c1,
        ctx,
        size,
        k,
        store is None,
        true,
        count > k,
    ) && m1 == transfer_model(m0, c0, ctx, size, store, k as nat)
    &&& count > 0 && !transfer_ok(m0, c0, ctx, size, store, k) ==> r is Err && exists|j: int|
        0 <= j < k && #[trigger] transfer_ok(m0, c0, ctx, size, store, j) && !transfer_ok(
            m0,
            c0,
            ctx,
            size,
            store,
            j + 1,
        ) && progressed(c0, c1, ctx, size, j, store is None, true, false) && m1
            == transfer_model(m0, c0, ctx, size, store, j as nat)
}

pub proof fn lemma_transfer_model_shape(
    m: MemView,
    c: Cpu,
    ctx: StringContext,
    size: u32,
    store: Option<u32>,
    n: nat,
)
    requires
        m.wf(),
        valid_unit(size),
        transfer_ok(m, c, ctx, size, store, n as int),
    ensures
        transfer_model(m, c, ctx, size, store, n).pages == m.pages,
        transfer_model(m, c, ctx, size, store, n).bytes.len() == m.bytes.len(),
        transfer_model(m, c, ctx, size, store, n).dirty.len() == m.dirty.len(),
        transfer_model(m, c, ctx, size, store, n).wf(),
    decreases n,
{
    if n > 0 {
        lemma_transfer_model_shape(m, c, ctx, size, store, (n - 1) as nat);
        let prev = transfer_model(m, c, ctx, size, store, (n - 1) as nat);
        assert(transfer_unit_ok(m, c, ctx, size, store, n - 1));
        lemma_same_pages(prev, m, dst_unit(c, ctx, size, n - 1), size, true);
        lemma_write_value_shape(
            prev,
            dst_unit(c, ctx, size, n - 1),
            size,
            transfer_value(prev, c, ctx, size, store, n - 1),
        );
    }
}

/// A dispatch that asks for a restart: the instruction pointer goes back to
/// the start of the instruction.
pub proof fn lemma_progress_restart(
    c0: Cpu,
    c1: Cpu,
    ctx: StringContext,
    size: u32,
    n: int,
    uses_si: bool,
    uses_di: bool,
)
    requires
        progressed(c0, c1, ctx, size, n, uses_si, uses_di, false),
    ensures
        progressed(
            c0,
            Cpu { instruction_pointer: c1.previous_ip, ..c1 },
            ctx,
            size,
            n,
            uses_si,
            uses_di,
            true,
        ),
{
    reveal(progressed);
}

pub proof fn lemma_progress_zero(c: Cpu, ctx: StringContext, size: u32, uses_si: bool, uses_di: bool)
    ensures
        progressed(c, c, ctx, size, 0, uses_si, uses_di, false),
{
    reveal(progressed);
    let a32 = ctx.address_size_32;
    assert(regs_after(c, ctx, size, 0, uses_si, uses_di) =~= c.reg32@);
}

/// Physical address of unit `i` from the one of unit 0.
fn phys_unit(p0: u32, forward: bool, i: u32, size: u32) -> (r: u32)
    requires
        valid_unit(size),
        i <= MAX_COUNT_PER_CYCLE,
        0 <= p0 + (if forward {
            i * size
        } else {
            -(i * size)
        }) < 0x1_0000_0000,
    ensures
        r == p0 + (if forward {
            i * size
        } else {
            -(i * size)
        }),
{
    assert(i * size <= 0x4000) by (nonlinear_arith)
        requires
            i <= 4096,
            size <= 4,
    ;
    if forward {
        p0 + i * size
    } else {
        p0 - i * size
    }
}

/// On the per-page path, unit `i` of source and destination sit `i` steps
/// from the physical addresses of unit 0.
pub proof fn lemma_fast_pair(
    m0: MemView,
    c0: Cpu,
    ctx: StringContext,
    size: u32,
    store: Option<u32>,
    i: int,
    k: int,
    ps0: u32,
    pd0: u32,
    dst_write: bool,
)
    requires
        m0.wf(),
        valid_unit(size),
        0 <= i < k,
        k <= transfer_room(c0, ctx, size, store),
        transfer_fast(c0, ctx, size, store),
        store is None ==> m0.translate(src_unit(c0, ctx, size, 0), false) == Some(ps0),
        m0.translate(dst_unit(c0, ctx, size, 0), dst_write) == Some(pd0),
    ensures
        ({
            let d = i * step_of(c0, size);
            &&& store is None ==> 0 <= ps0 + d && ps0 + d + size <= m0.bytes.len()
            &&& 0 <= pd0 + d && pd0 + d + size <= m0.bytes.len()
            &&& (pd0 + d) / 4096 == pd0 / 4096
            &&& (pd0 + d + size - 1) / 4096 == pd0 / 4096
            &&& store is None ==> m0.contiguous(
                src_unit(c0, ctx, size, i),
                size,
                false,
                (ps0 + d) as u32,
            )
            &&& m0.contiguous(dst_unit(c0, ctx, size, i), size, dst_write, (pd0 + d) as u32)
        }),
{
    let a32 = ctx.address_size_32;
    let back = backward(c0);
    let si = asize_value(c0.reg(ESI as int), a32);
    let di = asize_value(c0.reg(EDI as int), a32);
    let step = step_of(c0, size);
    assert(si < asize_modulus(a32));
    assert(di < asize_modulus(a32));
    if store is None {
        lemma_unit_in_page(ctx.source_base, si, a32, size, back, i, k);
        lemma_unit_translate(m0, src_unit(c0, ctx, size, 0), i * step, size, false);
    }
    lemma_unit_in_page(ctx.dest_base, di, a32, size, back, i, k);
    lemma_unit_translate(m0, dst_unit(c0, ctx, size, 0), i * step, size, dst_write);
}

/// One more iteration of the transfer model, read and written where the
/// unit's bytes sit in physical memory.
pub proof fn lemma_transfer_step(
    m0: MemView,
    c0: Cpu,
    ctx: StringContext,
    size: u32,
    store: Option<u32>,
    i: nat,
    ps: u32,
    pd: u32,
)
    requires
        m0.wf(),
        valid_unit(size),
        transfer_ok(m0, c0, ctx, size, store, i as int),
        ps + size <= 0x1_0000_0000,
        pd + size <= 0x1_0000_0000,
        store is None ==> m0.contiguous(src_unit(c0, ctx, size, i as int), size, false, ps),
        m0.contiguous(dst_unit(c0, ctx, size, i as int), size, true, pd),
    ensures
        ({
            let x = transfer_model(m0, c0, ctx, size, store, i);
            let v = match store {
                Some(v) => v,
                None => x.read_phys_value(ps, size),
            };
            &&& transfer_model(m0, c0, ctx, size, store, i + 1) == x.write_phys_value(pd, size, v)
            &&& transfer_ok(m0, c0, ctx, size, store, i as int + 1)
            &&& x.wf()
            &&& x.pages == m0.pages
            &&& x.bytes.len() == m0.bytes.len()
            &&& x.dirty.len() == m0.dirty.len()
        }),
{
    let x = transfer_model(m0, c0, ctx, size, store, i);
    lemma_transfer_model_shape(m0, c0, ctx, size, store, i);
    let s = src_unit(c0, ctx, size, i as int);
    let d = dst_unit(c0, ctx, size, i as int);
    lemma_same_pages(x, m0, s, size, false);
    lemma_same_pages(x, m0, d, size, true);
    if store is None {
        lemma_contiguous_unit(x, s, size, ps, 0);
    }
    lemma_contiguous_unit(x, d, size, pd, transfer_value(x, c0, ctx, size, store, i as int));
    assert(transfer_unit_ok(m0, c0, ctx, size, store, i as int));
    assert(transfer_ok(m0, c0, ctx, size, store, i as int + 1));
}

/// A prefix of units that can be reached can be reached.
pub proof fn lemma_transfer_ok_prefix(
    m0: MemView,
    c0: Cpu,
    ctx: StringContext,
    size: u32,
    store: Option<u32>,
    a: int,
    b: int,
)
    requires
        a <= b,
        transfer_ok(m0, c0, ctx, size, store, b),
    ensures
        transfer_ok(m0, c0, ctx, size, store, a),
{
    assert forall|j: int| 0 <= j < a implies #[trigger] transfer_unit_ok(
        m0,
        c0,
        ctx,
        size,
        store,
        j,
    ) by {
        assert(0 <= j < b);
    }
}

/// One more iteration of the transfer model, through linear addresses.
pub proof fn lemma_transfer_step_linear(
    m0: MemView,
    c0: Cpu,
    ctx: StringContext,
    size: u32,
    store: Option<u32>,
    i: nat,
)
    requires
        m0.wf(),
        valid_unit(size),
        transfer_ok(m0, c0, ctx, size, store, i as int),
    ensures
        ({
            let x = transfer_model(m0, c0, ctx, size, store, i);
            let s = src_unit(c0, ctx, size, i as int);
            let d = dst_unit(c0, ctx, size, i as int);
            &&& transfer_model(m0, c0, ctx, size, store, i + 1) == x.write_value(
                d,
                size,
                transfer_value(x, c0, ctx, size, store, i as int),
            )
            &&& x.wf()
            &&& ((store is None ==> x.accessible(s, size, false)) && x.accessible(d, size, true))
                == transfer_ok(m0, c0, ctx, size, store, i as int + 1)
        }),
{
    let x = transfer_model(m0, c0, ctx, size, store, i);
    lemma_transfer_model_shape(m0, c0, ctx, size, store, i);
    let s = src_unit(c0, ctx, size, i as int);
    let d = dst_unit(c0, ctx, size, i as int);
    lemma_same_pages(x, m0, s, size, false);
    lemma_same_pages(x, m0, d, size, true);
    if transfer_unit_ok(m0, c0, ctx, size, store, i as int) {
        assert forall|j: int| 0 <= j < i + 1 implies #[trigger] transfer_unit_ok(
            m0,
            c0,
            ctx,
            size,
            store,
            j,
        ) by {
            if j < i {
                assert(0 <= j < i);
            }
        }
    }
    if transfer_ok(m0, c0, ctx, size, store, i as int + 1) {
        assert(transfer_unit_ok(m0, c0, ctx, size, store, i as int));
    }
}

#[verifier::rlimit(100)]
fn transfer_per_page(
    cpu: &mut Cpu,
    mem: &mut Memory,
    ctx: StringContext,
    size: u32,
    store: Option<u32>,
) -> (r: Result<(), CpuException>)
    requires
        old(mem)@.wf(),
        valid_unit(size),
        count_of(*old(cpu), ctx) > 0,
        transfer_fast(*old(cpu), ctx, size, store),
    ensures
        transfer_rep_post(*old(cpu), *final(cpu), old(mem)@, final(mem)@, ctx, size, store, r),
{
    let a32 = ctx.address_size_32;
    let c0 = *cpu;
    let ghost m0 = mem@;
    let count = asize_get(cpu.reg32[ECX as usize], a32);
    let forward = cpu.flags & FLAG_DIRECTION == 0;
    let ghost back = !forward;
    let si = asize_get(cpu.reg32[ESI as usize], a32);
    let di = asize_get(cpu.reg32[EDI as usize], a32);
    let src = unit_address(ctx.source_base, si, a32, forward, 0, size);
    let dst = unit_address(ctx.dest_base, di, a32, forward, 0, size);
    proof {
        lemma_progress_zero(c0, ctx, size, store is None, true);
    }
    let mut k = count;
    let room2 = page_room_of(dst, size, !forward);
    let room4 = index_room_of(di, size, !forward, a32);
    if room2 < k {
        k = room2;
    }
    if room4 < k {
        k = room4;
    }
    if store.is_none() {
        let room1 = page_room_of(src, size, !forward);
        let room3 = index_room_of(si, size, !forward, a32);
        if room1 < k {
            k = room1;
        }
        if room3 < k {
            k = room3;
        }
    }
    assert(k == transfer_chunk(c0, ctx, size, store));
    let mut ps0: u32 = 0;
    if store.is_none() {
        ps0 = match mem.translate_address_read(src) {
            Ok(p) => p,
            Err(e) => {
                reveal(MemView::accessible);
                assert(!transfer_unit_ok(m0, c0, ctx, size, store, 0));
                assert(!transfer_ok(m0, c0, ctx, size, store, 1));
                assert(!transfer_ok(m0, c0, ctx, size, store, k as int));
                assert(transfer_ok(m0, c0, ctx, size, store, 0));
                return Err(e);
            },
        };
    }
    let pd0 = match mem.translate_address_write(dst) {
        Ok(p) => p,
        Err(e) => {
            reveal(MemView::accessible);
            assert(!transfer_unit_ok(m0, c0, ctx, size, store, 0));
            assert(!transfer_ok(m0, c0, ctx, size, store, 1));
            assert(!transfer_ok(m0, c0, ctx, size, store, k as int));
            assert(transfer_ok(m0, c0, ctx, size, store, 0));
            return Err(e);
        },
    };
    proof {
        lemma_translate_range(m0, dst, true);
    }
    let ghost f = (pd0 / PAGE_SIZE) as int;
    mem.jit_dirty_page(pd0 / PAGE_SIZE);
    let mut i: u32 = 0;
    while i < k
        invariant
            0 <= i <= k,
            k <= count,
            k <= transfer_room(c0, ctx, size, store),
            k <= 4096,
            forward == !backward(c0),
            valid_unit(size),
            m0.wf(),
            transfer_fast(c0, ctx, size, store),
            store is None ==> m0.translate(src_unit(c0, ctx, size, 0), false) == Some(ps0),
            m0.translate(dst_unit(c0, ctx, size, 0), true) == Some(pd0),
            f == pd0 as int / 4096,
            f < mem@.dirty.len(),
            mem@.bytes.len() == m0.bytes.len(),
            *cpu == c0,
            transfer_ok(m0, c0, ctx, size, store, i as int),
            mem@.wf(),
            mem@.dirty[f],
            i == 0 ==> mem@ == m0.mark_dirty(f),
            i > 0 ==> mem@ == transfer_model(m0, c0, ctx, size, store, i as nat),
        decreases k - i,
    {
        proof {
            lemma_fast_pair(m0, c0, ctx, size, store, i as int, k as int, ps0, pd0, true);
            assert(i * step_of(c0, size) == if forward {
                (i * size) as int
            } else {
                -((i * size) as int)
            }) by (nonlinear_arith)
                requires
                    step_of(c0, size) == if forward {
                        size as int
                    } else {
                        -(size as int)
                    },
            ;
        }
        let pd = phys_unit(pd0, forward, i, size);
        let ghost x = transfer_model(m0, c0, ctx, size, store, i as nat);
        let v = match store {
            Some(v) => {
                proof {
                    lemma_transfer_step(m0, c0, ctx, size, store, i as nat, 0, pd);
                }
                v
            },
            None => {
                let ps = phys_unit(ps0, forward, i, size);
                proof {
                    lemma_transfer_step(m0, c0, ctx, size, store, i as nat, ps, pd);
                    lemma_mark_and_write(x, pd, size, 0, f);
                }
                mem.read_phys(ps, size)
            },
        };
        proof {
            lemma_mark_and_write(x, pd, size, v, f);
        }
        mem.write_phys_no_dirty_check(pd, size, v);
        i = i + 1;
    }
    commit(cpu, &c0, &ctx, size, Ghost(0), k, store.is_none(), true);
    proof {
        lemma_progress_restart(c0, *cpu, ctx, size, k as int, store is None, true);
    }
    if count - k != 0 {
        cpu.instruction_pointer = cpu.previous_ip;
    }
    Ok(())
}

#[verifier::rlimit(100)]
fn transfer_per_unit(
    cpu: &mut Cpu,
    mem: &mut Memory,
    ctx: StringContext,
    size: u32,
    store: Option<u32>,
) -> (r: Result<(), CpuException>)
    requires
        old(mem)@.wf(),
        valid_unit(size),
        count_of(*old(cpu), ctx) > 0,
        !transfer_fast(*old(cpu), ctx, size, store),
    ensures
        transfer_rep_post(*old(cpu), *final(cpu), old(mem)@, final(mem)@, ctx, size, store, r),
{
    let a32 = ctx.address_size_32;
    let c0 = *cpu;
    let ghost m0 = mem@;
    let count = asize_get(cpu.reg32[ECX as usize], a32);
    let forward = cpu.flags & FLAG_DIRECTION == 0;
    let si = asize_get(cpu.reg32[ESI as usize], a32);
    let di = asize_get(cpu.reg32[EDI as usize], a32);
    proof {
        lemma_progress_zero(c0, ctx, size, store is None, true);
    }
    let k: u32 = if count < MAX_COUNT_PER_CYCLE {
        count
    } else {
        MAX_COUNT_PER_CYCLE
    };
    assert(k == transfer_chunk(c0, ctx, size, store));
    let mut i: u32 = 0;
    let mut failed: Option<CpuException> = None;
    while i < k && failed.is_none()
        invariant
            0 <= i <= k,
            k <= count,
            k <= 4096,
            k == transfer_chunk(c0, ctx, size, store),
            count == count_of(c0, ctx),
            a32 == ctx.address_size_32,
            forward == !backward(c0),
            valid_unit(size),
            m0.wf(),
            si == asize_value(c0.reg(ESI as int), a32),
            di == asize_value(c0.reg(EDI as int), a32),
            si < asize_modulus(a32),
            di < asize_modulus(a32),
            transfer_ok(m0, c0, ctx, size, store, i as int),
            failed is Some ==> !transfer_ok(m0, c0, ctx, size, store, i + 1) && i < k,
            mem@.wf(),
            mem@ == transfer_model(m0, c0, ctx, size, store, i as nat),
            progressed(c0, *cpu, ctx, size, i as int, store is None, true, false),
        decreases k - i + (if failed is None { 1int } else { 0int }),
    {
        proof {
            lemma_transfer_step_linear(m0, c0, ctx, size, store, i as nat);
        }
        let s_addr = unit_address(ctx.source_base, si, a32, forward, i, size);
        let d_addr = unit_address(ctx.dest_base, di, a32, forward, i, size);
        assert(s_addr == src_unit(c0, ctx, size, i as int));
        assert(d_addr == dst_unit(c0, ctx, size, i as int));
        let read = match store {
            Some(v) => Ok(v),
            None => mem.safe_read(s_addr, size),
        };
        match read {
            Ok(v) => {
                match mem.safe_write(d_addr, size, v) {
                    Ok(()) => {
                        let ghost prev = i;
                        i = i + 1;
                        commit(cpu, &c0, &ctx, size, Ghost(prev), i, store.is_none(), true);
                    },
                    Err(e) => {
                        failed = Some(e);
                    },
                }
            },
            Err(e) => {
                failed = Some(e);
            },
        }
    }
    if let Some(e) = failed {
        proof {
            lemma_transfer_step_linear(m0, c0, ctx, size, store, i as nat);
            if transfer_ok(m0, c0, ctx, size, store, k as int) {
                lemma_transfer_ok_prefix(m0, c0, ctx, size, store, i + 1, k as int);
            }
        }
        return Err(e);
    }
    proof {
        lemma_progress_restart(c0, *cpu, ctx, size, k as int, store is None, true);
    }
    if count - k != 0 {
        cpu.instruction_pointer = cpu.previous_ip;
    }
    Ok(())
}

/// One dispatch of a repeated move (`store` is `None`) from DS:ESI to ES:EDI,
/// or of a repeated store of the given unit to ES:EDI.
fn transfer_rep(
    cpu: &mut Cpu,
    mem: &mut Memory,
    ctx: StringContext,
    size: u32,
    store: Option<u32>,
) -> (r: Result<(), CpuException>)
    requires
        old(mem)@.wf(),
        valid_unit(size),
    ensures
        transfer_rep_post(*old(cpu), *final(cpu), old(mem)@, final(mem)@, ctx, size, store, r),
{
    let a32 = ctx.address_size_32;
    let count = asize_get(cpu.reg32[ECX as usize], a32);
    if count == 0 {
        return Ok(());
    }
    let forward = cpu.flags & FLAG_DIRECTION == 0;
    let src = unit_address(
        ctx.source_base,
        asize_get(cpu.reg32[ESI as usize], a32),
        a32,
        forward,
        0,
        size,
    );
    let dst = unit_address(
        ctx.dest_base,
        asize_get(cpu.reg32[EDI as usize], a32),
        a32,
        forward,
        0,
        size,
    );
    if (store.is_some() || src % size == 0) && dst % size == 0 {
        transfer_per_page(cpu, mem, ctx, size, store)
    } else {
        transfer_per_unit(cpu, mem, ctx, size, store)
    }
}

/// Registers after one unrepeated iteration: the index registers in use move
/// one step; the counter is not used.
pub open spec fn moved_once(c: Cpu, ctx: StringContext, size: u32, uses_si: bool, uses_di: bool) -> Seq<u32> {
    let a32 = ctx.address_size_32;
    let st = step_of(c, size);
    let r1 = if uses_si {
        c.reg32@.update(
            ESI as int,
            asize_update(c.reg(ESI as int), a32, asize_value(c.reg(ESI as int), a32) + st),
        )
    } else {
        c.reg32@
    };
    if uses_di {
        r1.update(
            EDI as int,
            asize_update(c.reg(EDI as int), a32, asize_value(c.reg(EDI as int), a32) + st),
        )
    } else {
        r1
    }
}

/// One unrepeated move or store: the unit is transferred and the index
/// registers step, or a fault changes nothing.
pub open spec fn transfer_once_post(
    c0: Cpu,
    c1: Cpu,
    m0: MemView,
    m1: MemView,
    ctx: StringContext,
    size: u32,
    store: Option<u32>,
    r: Result<(), CpuException>,
) -> bool {
    &&& m1.wf()
    &&& transfer_unit_ok(m0, c0, ctx, size, store, 0) ==> r is Ok && m1 == m0.write_value(
        dst_unit(c0, ctx, size, 0),
        size,
        transfer_value(m0, c0, ctx, size, store, 0),
    ) && c1.reg32@ == moved_once(c0, ctx, size, store is None, true) && c1 == (Cpu {
        reg32: c1.reg32,
        ..c0
    })
    &&& !transfer_unit_ok(m0, c0, ctx, size, store, 0) ==> r is Err && c1 == c0 && m1 == m0
}

fn step_index(cpu: &mut Cpu, r: i32, a32: bool, forward: bool, size: u32)
    requires
        r == ESI || r == EDI,
        valid_unit(size),
    ensures
        final(cpu).reg32@ == old(cpu).reg32@.update(
            r as int,
            asize_update(
                old(cpu).reg(r as int),
                a32,
                asize_value(old(cpu).reg(r as int), a32) + (if forward {
                    size as int
                } else {
                    -(size as int)
                }),
            ),
        ),
        *final(cpu) == (Cpu { reg32: final(cpu).reg32, ..*old(cpu) }),
{
    let x = cpu.reg32[r as usize];
    cpu.set_reg32(r, index_after(x, a32, forward, size));
}

fn transfer_once(
    cpu: &mut Cpu,
    mem: &mut Memory,
    ctx: StringContext,
    size: u32,
    store: Option<u32>,
) -> (r: Result<(), CpuException>)
    requires
        old(mem)@.wf(),
        valid_unit(size),
    ensures
        transfer_once_post(*old(cpu), *final(cpu), old(mem)@, final(mem)@, ctx, size, store, r),
{
    let a32 = ctx.address_size_32;
    let forward = cpu.flags & FLAG_DIRECTION == 0;
    let si = asize_get(cpu.reg32[ESI as usize], a32);
    let di = asize_get(cpu.reg32[EDI as usize], a32);
    let src = unit_address(ctx.source_base, si, a32, forward, 0, size);
    let dst = unit_address(ctx.dest_base, di, a32, forward, 0, size);
    let v = match store {
        Some(v) => v,
        None => match mem.safe_read(src, size) {
            Ok(v) => v,
            Err(e) => return Err(e),
        },
    };
    match mem.safe_write(dst, size, v) {
        Ok(()) => {},
        Err(e) => return Err(e),
    }
    if store.is_none() {
        step_index(cpu, ESI, a32, forward, size);
    }
    step_index(cpu, EDI, a32, forward, size);
    proof {
        assert(final(cpu).reg32@ =~= moved_once(*old(cpu), ctx, size, store is None, true));
    }
    Ok(())
}

/// One dispatch of a repeated byte move from DS:ESI to ES:EDI.
pub fn movsb_rep(cpu: &mut Cpu, mem: &mut Memory, ctx: StringContext) -> (r: Result<
    (),
    CpuException,
>)
    requires
        old(mem)@.wf(),
    ensures
        transfer_rep_post(*old(cpu), *final(cpu), old(mem)@, final(mem)@, ctx, 1, None, r),
{
    transfer_rep(cpu, mem, ctx, 1, None)
}

/// A single byte move from DS:ESI to ES:EDI.
pub fn movsb_no_rep(cpu: &mut Cpu, mem: &mut Memory, ctx: StringContext) -> (r: Result<
    (),
    CpuException,
>)
    requires
        old(mem)@.wf(),
    ensures
        transfer_once_post(*old(cpu), *final(cpu), old(mem)@, final(mem)@, ctx, 1, None, r),
{
    transfer_once(cpu, mem, ctx, 1, None)
}

/// One dispatch of a repeated store of the accumulator's byte to ES:EDI.
pub fn stosb_rep(cpu: &mut Cpu, mem: &mut Memory, ctx: StringContext) -> (r: Result<
    (),
    CpuException,
>)
    requires
        old(mem)@.wf(),
    ensures
        transfer_rep_post(
            *old(cpu),
            *final(cpu),
            old(mem)@,
            final(mem)@,
            ctx,
            1,
            Some(old(cpu).reg8(AL as int)),
            r,
        ),
{
    let data = cpu.get_reg8(AL);
    transfer_rep(cpu, mem, ctx, 1, Some(data))
}

/// A single store of the accumulator's byte to ES:EDI.
pub fn stosb_no_rep(cpu: &mut Cpu, mem: &mut Memory, ctx: StringContext) -> (r: Result<
    (),
    CpuException,
>)
    requires
        old(mem)@.wf(),
    ensures
        transfer_once_post(
            *old(cpu),
            *final(cpu),
            old(mem)@,
            final(mem)@,
            ctx,
            1,
            Some(old(cpu).reg8(AL as int)),
            r,
        ),
{
    let data = cpu.get_reg8(AL);
    transfer_once(cpu, mem, ctx, 1, Some(data))
}

/// One dispatch of a repeated word move from DS:ESI to ES:EDI.
pub fn movsw_rep(cpu: &mut Cpu, mem: &mut Memory, ctx: StringContext) -> (r: Result<
    (),
    CpuException,
>)
    requires
        old(mem)@.wf(),
    ensures
        transfer_rep_post(*old(cpu), *final(cpu), old(mem)@, final(mem)@, ctx, 2, None, r),
{
    transfer_rep(cpu, mem, ctx, 2, None)
}

/// A single word move from DS:ESI to ES:EDI.
pub fn movsw_no_rep(cpu: &mut Cpu, mem: &mut Memory, ctx: StringContext) -> (r: Result<
    (),
    CpuException,
>)
    requires
        old(mem)@.wf(),
    ensures
        transfer_once_post(*old(cpu), *final(cpu), old(mem)@, final(mem)@, ctx, 2, None, r),
{
    transfer_once(cpu, mem, ctx, 2, None)
}

/// One dispatch of a repeated store of the accumulator's word to ES:EDI.
pub fn stosw_rep(cpu: &mut Cpu, mem: &mut Memory, ctx: StringContext) -> (r: Result<
    (),
    CpuException,
>)
    requires
        old(mem)@.wf(),
    ensures
        transfer_rep_post(
            *old(cpu),
            *final(cpu),
            old(mem)@,
            final(mem)@,
            ctx,
            2,
            Some(old(cpu).reg16(AX as int)),
            r,
        ),
{
    let data = cpu.get_reg16(AX);
    transfer_rep(cpu, mem, ctx, 2, Some(data))
}

/// A single store of the accumulator's word to ES:EDI.
pub fn stosw_no_rep(cpu: &mut Cpu, mem: &mut Memory, ctx: StringContext) -> (r: Result<
    (),
    CpuException,
>)
    requires
        old(mem)@.wf(),
    ensures
        transfer_once_post(
            *old(cpu),
            *final(cpu),
            old(mem)@,
            final(mem)@,
            ctx,
            2,
            Some(old(cpu).reg16(AX as int)),
            r,
        ),
{
    let data = cpu.get_reg16(AX);
    transfer_once(cpu, mem, ctx, 2, Some(data))
}

/// One dispatch of a repeated dword move from DS:ESI to ES:EDI.
pub fn movsd_rep(cpu: &mut Cpu, mem: &mut Memory, ctx: StringContext) -> (r: Result<
    (),
    CpuException,
>)
    requires
        old(mem)@.wf(),
    ensures
        transfer_rep_post(*old(cpu), *final(cpu), old(mem)@, final(mem)@, ctx, 4, None, r),
{
    transfer_rep(cpu, mem, ctx, 4, None)
}

/// A single dword move from DS:ESI to ES:EDI.
pub fn movsd_no_rep(cpu: &mut Cpu, mem: &mut Memory, ctx: StringContext) -> (r: Result<
    (),
    CpuException,
>)
    requires
        old(mem)@.wf(),
    ensures
        transfer_once_post(*old(cpu), *final(cpu), old(mem)@, final(mem)@, ctx, 4, None, r),
{
    transfer_once(cpu, mem, ctx, 4, None)
}

/// One dispatch of a repeated store of the accumulator's dword to ES:EDI.
pub fn stosd_rep(cpu: &mut Cpu, mem: &mut Memory, ctx: StringContext) -> (r: Result<
    (),
    CpuException,
>)
    requires
        old(mem)@.wf(),
    ensures
        transfer_rep_post(
            *old(cpu),
            *final(cpu),
            old(mem)@,
            final(mem)@,
            ctx,
            4,
            Some(old(cpu).reg(EAX as int)),
            r,
        ),
{
    let data = cpu.get_reg32(EAX);
    transfer_rep(cpu, mem, ctx, 4, Some(data))
}

/// A single store of the accumulator's dword to ES:EDI.
pub fn stosd_no_rep(cpu: &mut Cpu, mem: &mut Memory, ctx: StringContext) -> (r: Result<
    (),
    CpuException,
>)
    requires
        old(mem)@.wf(),
    ensures
        transfer_once_post(
            *old(cpu),
            *final(cpu),
            old(mem)@,
            final(mem)@,
            ctx,
            4,
            Some(old(cpu).reg(EAX as int)),
            r,
        ),
{
    let data = cpu.get_reg32(EAX);
    transfer_once(cpu, mem, ctx, 4, Some(data))
}

/// The unit compared against the destination in iteration `j`: the
/// accumulator for a scan, the source unit for a compare.
pub open spec fn scan_value(
    m: MemView,
    c: Cpu,
    ctx: StringContext,
    size: u32,
    acc: Option<u32>,
    j: int,
) -> u32 {
    match acc {
        Some(v) => v,
        None => m.read_value(src_unit(c, ctx, size, j), size),
    }
}

pub open spec fn dest_value(m: MemView, c: Cpu, ctx: StringContext, size: u32, j: int) -> u32 {
    m.read_value(dst_unit(c, ctx, size, j), size)
}

/// Unit `j` can be read at the source (for a compare) and at the destination.
pub open spec fn compare_unit_ok(
    m: MemView,
    c: Cpu,
    ctx: StringContext,
    size: u32,
    acc: Option<u32>,
    j: int,
) -> bool {
    (acc is None ==> m.accessible(src_unit(c, ctx, size, j), size, false)) && m.accessible(
        dst_unit(c, ctx, size, j),
        size,
        false,
    )
}

pub open spec fn compare_ok(
    m: MemView,
    c: Cpu,
    ctx: StringContext,
    size: u32,
    acc: Option<u32>,
    n: int,
) -> bool {
    forall|j: int| 0 <= j < n ==> #[trigger] compare_unit_ok(m, c, ctx, size, acc, j)
}

/// Iteration `j` lets the repetition go on: its units are equal under REPE
/// (`repz`), different under REPNE.
pub open spec fn goes_on(
    m: MemView,
    c: Cpu,
    ctx: StringContext,
    size: u32,
    acc: Option<u32>,
    repz: bool,
    j: int,
) -> bool {
    (scan_value(m, c, ctx, size, acc, j) == dest_value(m, c, ctx, size, j)) == repz
}

/// Iterations performed when at most `limit` are allowed: the first one that
/// does not let the repetition go on is the last.
pub open spec fn compare_run(
    m: MemView,
    c: Cpu,
    ctx: StringContext,
    size: u32,
    acc: Option<u32>,
    repz: bool,
    limit: nat,
) -> nat
    decreases limit,
{
    if limit == 0 {
        0
    } else {
        let prev = compare_run(m, c, ctx, size, acc, repz, (limit - 1) as nat);
        if prev == limit - 1 && (limit == 1 || goes_on(m, c, ctx, size, acc, repz, limit - 2)) {
            limit
        } else {
            prev
        }
    }
}

pub open spec fn opsize_of(size: u32) -> i32 {
    if size == 1 {
        OPSIZE_8
    } else if size == 2 {
        OPSIZE_16
    } else {
        OPSIZE_32
    }
}

/// The flags record of a comparison of `x` with `y`.
pub open spec fn compared(c: Cpu, x: u32, y: u32, size: u32) -> Cpu {
    after_additive(
        c,
        (x as i32).wrapping_sub(y as i32),
        y as i32,
        x as i32,
        (x as i32).wrapping_sub(y as i32),
        opsize_of(size),
        FLAGS_ALL,
    )
}

/// `c1` with the flags and the operation record of `c0`.
pub open spec fn record_of(c1: Cpu, c0: Cpu) -> Cpu {
    Cpu {
        flags: c0.flags,
        flags_changed: c0.flags_changed,
        last_op1: c0.last_op1,
        last_op2: c0.last_op2,
        last_result: c0.last_result,
        last_add_result: c0.last_add_result,
        last_op_size: c0.last_op_size,
        ..c1
    }
}

/// What one dispatch of a repeated compare (`acc` is `None`) or scan does:
/// nothing for a zero count; else the iterations up to the first that stops
/// the repetition or to the end of the chunk, the flags of the last
/// comparison, and a restart if the repetition would go on; on a fault, the
/// iterations before the faulting one, with the flags as they were.
pub open spec fn compare_rep_post(
    c0: Cpu,
    c1: Cpu,
    m: MemView,
    ctx: StringContext,
    size: u32,
    acc: Option<u32>,
    repz: bool,
    r: Result<(), CpuException>,
) -> bool {
    let count = count_of(c0, ctx) as int;
    let k = transfer_chunk(c0, ctx, size, acc);
    let n = compare_run(m, c0, ctx, size, acc, repz, k as nat) as int;
    &&& count == 0 ==> r is Ok && c1 == c0
    &&& count > 0 && compare_ok(m, c0, ctx, size, acc, n) ==> r is Ok && progressed(
        c0,
        record_of(c1, c0),
        ctx,
        size,
        n,
        acc is None,
        true,
        count > n && goes_on(m, c0, ctx, size, acc, repz, n - 1),
    ) && c1 == compared(
        record_of(c1, c0),
        scan_value(m, c0, ctx, size, acc, n - 1),
        dest_value(m, c0, ctx, size, n - 1),
        size,
    )
    &&& count > 0 && !compare_ok(m, c0, ctx, size, acc, n) ==> r is Err && exists|j: int|
        0 <= j < n && #[trigger] compare_ok(m, c0, ctx, size, acc, j) && !compare_ok(
            m,
            c0,
            ctx,
            size,
            acc,
            j + 1,
        ) && progressed(c0, c1, ctx, size, j, acc is None, true, false)
}

/// When every iteration before `i - 1` goes on and iteration `i - 1` stops the
/// repetition, or `i` is the limit, exactly `i` iterations are performed.
pub proof fn lemma_compare_run(
    m: MemView,
    c: Cpu,
    ctx: StringContext,
    size: u32,
    acc: Option<u32>,
    repz: bool,
    i: nat,
    limit: nat,
)
    requires
        1 <= i <= limit,
        forall|j: int| 0 <= j < i - 1 ==> #[trigger] goes_on(m, c, ctx, size, acc, repz, j),
        i == limit || !goes_on(m, c, ctx, size, acc, repz, i - 1),
    ensures
        compare_run(m, c, ctx, size, acc, repz, limit) == i,
    decreases limit,
{
    if limit > i {
        lemma_compare_run(m, c, ctx, size, acc, repz, i, (limit - 1) as nat);
    } else {
        lemma_compare_full(m, c, ctx, size, acc, repz, i);
    }
}

/// With every iteration before the last going on, all are performed.
pub proof fn lemma_compare_full(
    m: MemView,
    c: Cpu,
    ctx: StringContext,
    size: u32,
    acc: Option<u32>,
    repz: bool,
    i: nat,
)
    requires
        forall|j: int| 0 <= j < i - 1 ==> #[trigger] goes_on(m, c, ctx, size, acc, repz, j),
    ensures
        compare_run(m, c, ctx, size, acc, repz, i) == i,
    decreases i,
{
    if i > 0 {
        lemma_compare_full(m, c, ctx, size, acc, repz, (i - 1) as nat);
        if i >= 2 {
            assert(goes_on(m, c, ctx, size, acc, repz, i - 2));
        }
    }
}

/// A repeated compare or scan stops at the first unit that does not let the
/// repetition go on, or at the limit: every iteration before the last one
/// went on, and when fewer than the limit were performed the last one stopped
/// it. At least one iteration is performed, and never more than the limit.
pub proof fn law_repeat_stops_at_first_mismatch(
    m: MemView,
    c: Cpu,
    ctx: StringContext,
    size: u32,
    acc: Option<u32>,
    repz: bool,
    limit: nat,
)
    ensures
        compare_run(m, c, ctx, size, acc, repz, limit) <= limit,
        limit >= 1 ==> compare_run(m, c, ctx, size, acc, repz, limit) >= 1,
        forall|j: int|
            0 <= j < compare_run(m, c, ctx, size, acc, repz, limit) - 1 ==> #[trigger] goes_on(
                m,
                c,
                ctx,
                size,
                acc,
                repz,
                j,
            ),
        compare_run(m, c, ctx, size, acc, repz, limit) < limit ==> !goes_on(
            m,
            c,
            ctx,
            size,
            acc,
            repz,
            compare_run(m, c, ctx, size, acc, repz, limit) - 1,
        ),
    decreases limit,
{
    if limit > 0 {
        law_repeat_stops_at_first_mismatch(m, c, ctx, size, acc, repz, (limit - 1) as nat);
    }
}

/// Sets the flags from comparing `x` with `y` as units of `size` bytes.
fn compare_units(cpu: &mut Cpu, x: u32, y: u32, size: u32)
    requires
        valid_unit(size),
    ensures
        *final(cpu) == compared(*old(cpu), x, y, size),
{
    if size == 1 {
        cmp8(cpu, x as i32, y as i32);
    } else if size == 2 {
        cmp16(cpu, x as i32, y as i32);
    } else {
        cmp32(cpu, x as i32, y as i32);
    }
}

proof fn lemma_compare_unit_from_pair(
    m0: MemView,
    c0: Cpu,
    ctx: StringContext,
    size: u32,
    acc: Option<u32>,
    i: int,
    ps: u32,
    pd: u32,
)
    requires
        m0.wf(),
        valid_unit(size),
        ps + size <= 0x1_0000_0000,
        pd + size <= 0x1_0000_0000,
        acc is None ==> m0.contiguous(src_unit(c0, ctx, size, i), size, false, ps),
        m0.contiguous(dst_unit(c0, ctx, size, i), size, false, pd),
    ensures
        compare_unit_ok(m0, c0, ctx, size, acc, i),
        dest_value(m0, c0, ctx, size, i) == m0.read_phys_value(pd, size),
        acc is None ==> scan_value(m0, c0, ctx, size, acc, i) == m0.read_phys_value(ps, size),
{
    lemma_same_pages(m0, m0, src_unit(c0, ctx, size, i), size, false);
    lemma_same_pages(m0, m0, dst_unit(c0, ctx, size, i), size, false);
    lemma_contiguous_unit(m0, dst_unit(c0, ctx, size, i), size, pd, 0);
    if acc is None {
        lemma_contiguous_unit(m0, src_unit(c0, ctx, size, i), size, ps, 0);
    }
}

/// The loop of the per-page compare: reads units until one stops the
/// repetition or `k` were read.
#[verifier::spinoff_prover]
#[verifier::rlimit(60)]
fn compare_page_loop(
    mem: &Memory,
    c0: &Cpu,
    ctx: StringContext,
    size: u32,
    acc: Option<u32>,
    repz: bool,
    k: u32,
    ps0: u32,
    pd0: u32,
) -> (res: (u32, bool, u32, u32))
    requires
        1 <= k <= 4096,
        k <= transfer_room(*c0, ctx, size, acc),
        valid_unit(size),
        mem@.wf(),
        transfer_fast(*c0, ctx, size, acc),
        acc is None ==> mem@.translate(src_unit(*c0, ctx, size, 0), false) == Some(ps0),
        mem@.translate(dst_unit(*c0, ctx, size, 0), false) == Some(pd0),
    ensures
        ({
            let (i, go, sv, dv) = res;
            &&& 1 <= i <= k
            &&& compare_ok(mem@, *c0, ctx, size, acc, i as int)
            &&& forall|j: int|
                0 <= j < i - 1 ==> #[trigger] goes_on(mem@, *c0, ctx, size, acc, repz, j)
            &&& go == goes_on(mem@, *c0, ctx, size, acc, repz, i - 1)
            &&& (i == k || !go)
            &&& sv == scan_value(mem@, *c0, ctx, size, acc, i - 1)
            &&& dv == dest_value(mem@, *c0, ctx, size, i - 1)
        }),
{
    let ghost m0 = mem@;
    let c0 = *c0;
    let forward = c0.flags & FLAG_DIRECTION == 0;
    let mut i: u32 = 0;
    let mut go = true;
    let mut sv: u32 = 0;
    let mut dv: u32 = 0;
    while i < k && go
        invariant
            0 <= i <= k,
            k <= transfer_room(c0, ctx, size, acc),
            k <= 4096,
            forward == !backward(c0),
            valid_unit(size),
            m0.wf(),
            mem@ == m0,
            transfer_fast(c0, ctx, size, acc),
            acc is None ==> m0.translate(src_unit(c0, ctx, size, 0), false) == Some(ps0),
            m0.translate(dst_unit(c0, ctx, size, 0), false) == Some(pd0),
            compare_ok(m0, c0, ctx, size, acc, i as int),
            forall|j: int| 0 <= j < i - 1 ==> #[trigger] goes_on(m0, c0, ctx, size, acc, repz, j),
            i == 0 ==> go,
            i > 0 ==> go == goes_on(m0, c0, ctx, size, acc, repz, i - 1),
            i > 0 ==> sv == scan_value(m0, c0, ctx, size, acc, i - 1),
            i > 0 ==> dv == dest_value(m0, c0, ctx, size, i - 1),
        decreases k - i,
    {
        proof {
            lemma_fast_pair(m0, c0, ctx, size, acc, i as int, k as int, ps0, pd0, false);
            assert(i * step_of(c0, size) == if forward {
                (i * size) as int
            } else {
                -((i * size) as int)
            }) by (nonlinear_arith)
                requires
                    step_of(c0, size) == if forward {
                        size as int
                    } else {
                        -(size as int)
                    },
            ;
        }
        let pd = phys_unit(pd0, forward, i, size);
        let mut ps: u32 = 0;
        if acc.is_none() {
            ps = phys_unit(ps0, forward, i, size);
        }
        proof {
            lemma_compare_unit_from_pair(m0, c0, ctx, size, acc, i as int, ps, pd);
        }
        dv = mem.read_phys(pd, size);
        sv = match acc {
            Some(v) => v,
            None => mem.read_phys(ps, size),
        };
        go = (sv == dv) == repz;
        i = i + 1;
    }
    (i, go, sv, dv)
}

#[verifier::rlimit(100)]
fn compare_per_page(
    cpu: &mut Cpu,
    mem: &Memory,
    ctx: StringContext,
    size: u32,
    acc: Option<u32>,
    repz: bool,
) -> (r: Result<(), CpuException>)
    requires
        mem@.wf(),
        valid_unit(size),
        count_of(*old(cpu), ctx) > 0,
        transfer_fast(*old(cpu), ctx, size, acc),
    ensures
        compare_rep_post(*old(cpu), *final(cpu), mem@, ctx, size, acc, repz, r),
{
    let a32 = ctx.address_size_32;
    let c0 = *cpu;
    let ghost m0 = mem@;
    let count = asize_get(cpu.reg32[ECX as usize], a32);
    let forward = cpu.flags & FLAG_DIRECTION == 0;
    let si = asize_get(cpu.reg32[ESI as usize], a32);
    let di = asize_get(cpu.reg32[EDI as usize], a32);
    let src = unit_address(ctx.source_base, si, a32, forward, 0, size);
    let dst = unit_address(ctx.dest_base, di, a32, forward, 0, size);
    proof {
        lemma_progress_zero(c0, ctx, size, acc is None, true);
    }
    let mut k = count;
    let room2 = page_room_of(dst, size, !forward);
    let room4 = index_room_of(di, size, !forward, a32);
    if room2 < k {
        k = room2;
    }
    if room4 < k {
        k = room4;
    }
    if acc.is_none() {
        let room1 = page_room_of(src, size, !forward);
        let room3 = index_room_of(si, size, !forward, a32);
        if room1 < k {
            k = room1;
        }
        if room3 < k {
            k = room3;
        }
    }
    assert(k == transfer_chunk(c0, ctx, size, acc));
    proof {
        law_repeat_stops_at_first_mismatch(m0, c0, ctx, size, acc, repz, k as nat);
    }
    let mut ps0: u32 = 0;
    if acc.is_none() {
        ps0 = match mem.translate_address_read(src) {
            Ok(p) => p,
            Err(e) => {
                reveal(MemView::accessible);
                assert(!compare_unit_ok(m0, c0, ctx, size, acc, 0));
                assert(compare_ok(m0, c0, ctx, size, acc, 0));
                return Err(e);
            },
        };
    }
    let pd0 = match mem.translate_address_read(dst) {
        Ok(p) => p,
        Err(e) => {
            reveal(MemView::accessible);
            assert(!compare_unit_ok(m0, c0, ctx, size, acc, 0));
            assert(compare_ok(m0, c0, ctx, size, acc, 0));
            return Err(e);
        },
    };
    let (i, go, sv, dv) = compare_page_loop(mem, &c0, ctx, size, acc, repz, k, ps0, pd0);
    proof {
        lemma_compare_run(m0, c0, ctx, size, acc, repz, i as nat, k as nat);
    }
    commit(cpu, &c0, &ctx, size, Ghost(0), i, acc.is_none(), true);
    proof {
        lemma_progress_restart(c0, *cpu, ctx, size, i as int, acc is None, true);
    }
    if count - i != 0 && go {
        cpu.instruction_pointer = cpu.previous_ip;
    }
    let ghost c_mid = *cpu;
    compare_units(cpu, sv, dv, size);
    proof {
        reveal(progressed);
        assert(record_of(*cpu, c0) == c_mid);
    }
    Ok(())
}

#[verifier::rlimit(100)]
fn compare_per_unit(
    cpu: &mut Cpu,
    mem: &Memory,
    ctx: StringContext,
    size: u32,
    acc: Option<u32>,
    repz: bool,
) -> (r: Result<(), CpuException>)
    requires
        mem@.wf(),
        valid_unit(size),
        count_of(*old(cpu), ctx) > 0,
        !transfer_fast(*old(cpu), ctx, size, acc),
    ensures
        compare_rep_post(*old(cpu), *final(cpu), mem@, ctx, size, acc, repz, r),
{
    let a32 = ctx.address_size_32;
    let c0 = *cpu;
    let ghost m0 = mem@;
    let count = asize_get(cpu.reg32[ECX as usize], a32);
    let forward = cpu.flags & FLAG_DIRECTION == 0;
    let si = asize_get(cpu.reg32[ESI as usize], a32);
    let di = asize_get(cpu.reg32[EDI as usize], a32);
    proof {
        lemma_progress_zero(c0, ctx, size, acc is None, true);
    }
    let k: u32 = if count < MAX_COUNT_PER_CYCLE {
        count
    } else {
        MAX_COUNT_PER_CYCLE
    };
    assert(k == transfer_chunk(c0, ctx, size, acc));
    proof {
        law_repeat_stops_at_first_mismatch(m0, c0, ctx, size, acc, repz, k as nat);
    }
    let mut i: u32 = 0;
    let mut go = true;
    let mut sv: u32 = 0;
    let mut dv: u32 = 0;
    let mut failed: Option<CpuException> = None;
    while i < k && go && failed.is_none()
        invariant
            0 <= i <= k,
            k <= count,
            k <= 4096,
            k == transfer_chunk(c0, ctx, size, acc),
            count == count_of(c0, ctx),
            a32 == ctx.address_size_32,
            forward == !backward(c0),
            valid_unit(size),
            m0.wf(),
            mem@ == m0,
            si == asize_value(c0.reg(ESI as int), a32),
            di == asize_value(c0.reg(EDI as int), a32),
            si < asize_modulus(a32),
            di < asize_modulus(a32),
            compare_ok(m0, c0, ctx, size, acc, i as int),
            forall|j: int| 0 <= j < i - 1 ==> #[trigger] goes_on(m0, c0, ctx, size, acc, repz, j),
            i == 0 ==> go,
            i > 0 ==> go == goes_on(m0, c0, ctx, size, acc, repz, i - 1),
            i > 0 ==> sv == scan_value(m0, c0, ctx, size, acc, i - 1),
            i > 0 ==> dv == dest_value(m0, c0, ctx, size, i - 1),
            failed is Some ==> go && i < k && !compare_unit_ok(m0, c0, ctx, size, acc, i as int),
            progressed(c0, *cpu, ctx, size, i as int, acc is None, true, false),
        decreases k - i + (if failed is None { 1int } else { 0int }),
    {
        let s_addr = unit_address(ctx.source_base, si, a32, forward, i, size);
        let d_addr = unit_address(ctx.dest_base, di, a32, forward, i, size);
        assert(s_addr == src_unit(c0, ctx, size, i as int));
        assert(d_addr == dst_unit(c0, ctx, size, i as int));
        match mem.safe_read(d_addr, size) {
            Ok(d) => {
                let s = match acc {
                    Some(v) => Ok(v),
                    None => mem.safe_read(s_addr, size),
                };
                match s {
                    Ok(s) => {
                        proof {
                            assert(compare_unit_ok(m0, c0, ctx, size, acc, i as int));
                            assert(compare_ok(m0, c0, ctx, size, acc, i + 1));
                        }
                        dv = d;
                        sv = s;
                        go = (sv == dv) == repz;
                        let ghost prev = i;
                        i = i + 1;
                        commit(cpu, &c0, &ctx, size, Ghost(prev), i, acc.is_none(), true);
                    },
                    Err(e) => {
                        failed = Some(e);
                    },
                }
            },
            Err(e) => {
                failed = Some(e);
            },
        }
    }
    if let Some(e) = failed {
        proof {
            let n = compare_run(m0, c0, ctx, size, acc, repz, k as nat) as int;
            if n <= i {
                assert(!goes_on(m0, c0, ctx, size, acc, repz, n - 1));
                assert(false);
            }
            assert(!compare_ok(m0, c0, ctx, size, acc, n));
            assert(!compare_ok(m0, c0, ctx, size, acc, i + 1));
        }
        return Err(e);
    }
    proof {
        lemma_compare_run(m0, c0, ctx, size, acc, repz, i as nat, k as nat);
        lemma_progress_restart(c0, *cpu, ctx, size, i as int, acc is None, true);
    }
    if count - i != 0 && go {
        cpu.instruction_pointer = cpu.previous_ip;
    }
    let ghost c_mid = *cpu;
    compare_units(cpu, sv, dv, size);
    proof {
        reveal(progressed);
        assert(record_of(*cpu, c0) == c_mid);
    }
    Ok(())
}

/// One dispatch of a repeated compare of DS:ESI with ES:EDI (`acc` is
/// `None`), or of a repeated scan of ES:EDI for the accumulator value.
fn compare_rep(
    cpu: &mut Cpu,
    mem: &Memory,
    ctx: StringContext,
    size: u32,
    acc: Option<u32>,
    repz: bool,
) -> (r: Result<(), CpuException>)
    requires
        mem@.wf(),
        valid_unit(size),
    ensures
        compare_rep_post(*old(cpu), *final(cpu), mem@, ctx, size, acc, repz, r),
{
    let a32 = ctx.address_size_32;
    let count = asize_get(cpu.reg32[ECX as usize], a32);
    if count == 0 {
        return Ok(());
    }
    let forward = cpu.flags & FLAG_DIRECTION == 0;
    let src = unit_address(
        ctx.source_base,
        asize_get(cpu.reg32[ESI as usize], a32),
        a32,
        forward,
        0,
        size,
    );
    let dst = unit_address(
        ctx.dest_base,
        asize_get(cpu.reg32[EDI as usize], a32),
        a32,
        forward,
        0,
        size,
    );
    if (acc.is_some() || src % size == 0) && dst % size == 0 {
        compare_per_page(cpu, mem, ctx, size, acc, repz)
    } else {
        compare_per_unit(cpu, mem, ctx, size, acc, repz)
    }
}

/// One unrepeated compare or scan: the index registers in use step and the
/// flags are those of the comparison, or a fault changes nothing.
pub open spec fn compare_once_post(
    c0: Cpu,
    c1: Cpu,
    m: MemView,
    ctx: StringContext,
    size: u32,
    acc: Option<u32>,
    r: Result<(), CpuException>,
) -> bool {
    &&& compare_unit_ok(m, c0, ctx, size, acc, 0) ==> r is Ok && c1.reg32@ == moved_once(
        c0,
        ctx,
        size,
        acc is None,
        true,
    ) && c1 == compared(
        Cpu { reg32: c1.reg32, ..c0 },
        scan_value(m, c0, ctx, size, acc, 0),
        dest_value(m, c0, ctx, size, 0),
        size,
    )
    &&& !compare_unit_ok(m, c0, ctx, size, acc, 0) ==> r is Err && c1 == c0
}

fn compare_once(cpu: &mut Cpu, mem: &Memory, ctx: StringContext, size: u32, acc: Option<u32>) -> (r:
    Result<(), CpuException>)
    requires
        mem@.wf(),
        valid_unit(size),
    ensures
        compare_once_post(*old(cpu), *final(cpu), mem@, ctx, size, acc, r),
{
    let a32 = ctx.address_size_32;
    let forward = cpu.flags & FLAG_DIRECTION == 0;
    let si = asize_get(cpu.reg32[ESI as usize], a32);
    let di = asize_get(cpu.reg32[EDI as usize], a32);
    let src = unit_address(ctx.source_base, si, a32, forward, 0, size);
    let dst = unit_address(ctx.dest_base, di, a32, forward, 0, size);
    let data_src = match acc {
        Some(v) => v,
        None => match mem.safe_read(src, size) {
            Ok(v) => v,
            Err(e) => return Err(e),
        },
    };
    let data_dest = match mem.safe_read(dst, size) {
        Ok(v) => v,
        Err(e) => return Err(e),
    };
    if acc.is_none() {
        step_index(cpu, ESI, a32, forward, size);
    }
    step_index(cpu, EDI, a32, forward, size);
    proof {
        assert(cpu.reg32@ =~= moved_once(*old(cpu), ctx, size, acc is None, true));
    }
    compare_units(cpu, data_src, data_dest, size);
    Ok(())
}

/// One dispatch of a repeated byte compare of DS:ESI with ES:EDI; it goes
/// on while the units are equal under `PREFIX_REPZ`, different otherwise.
pub fn cmpsb_rep(cpu: &mut Cpu, mem: &Memory, ctx: StringContext, prefix_flag: i32) -> (r: Result<
    (),
    CpuException,
>)
    requires
        mem@.wf(),
    ensures
        compare_rep_post(
            *old(cpu),
            *final(cpu),
            mem@,
            ctx,
            1,
            None,
            prefix_flag == PREFIX_REPZ,
            r,
        ),
{
    compare_rep(cpu, mem, ctx, 1, None, prefix_flag == PREFIX_REPZ)
}

/// A single byte compare of DS:ESI with ES:EDI.
pub fn cmpsb_no_rep(cpu: &mut Cpu, mem: &Memory, ctx: StringContext) -> (r: Result<
    (),
    CpuException,
>)
    requires
        mem@.wf(),
    ensures
        compare_once_post(*old(cpu), *final(cpu), mem@, ctx, 1, None, r),
{
    compare_once(cpu, mem, ctx, 1, None)
}

/// One dispatch of a repeated scan of ES:EDI for the accumulator's byte.
pub fn scasb_rep(cpu: &mut Cpu, mem: &Memory, ctx: StringContext, prefix_flag: i32) -> (r: Result<
    (),
    CpuException,
>)
    requires
        mem@.wf(),
    ensures
        compare_rep_post(
            *old(cpu),
            *final(cpu),
            mem@,
            ctx,
            1,
            Some(old(cpu).reg8(AL as int)),
            prefix_flag == PREFIX_REPZ,
            r,
        ),
{
    let data = cpu.get_reg8(AL);
    compare_rep(cpu, mem, ctx, 1, Some(data), prefix_flag == PREFIX_REPZ)
}

/// A single scan of ES:EDI for the accumulator's byte.
pub fn scasb_no_rep(cpu: &mut Cpu, mem: &Memory, ctx: StringContext) -> (r: Result<
    (),
    CpuException,
>)
    requires
        mem@.wf(),
    ensures
        compare_once_post(*old(cpu), *final(cpu), mem@, ctx, 1, Some(old(cpu).reg8(AL as int)), r),
{
    let data = cpu.get_reg8(AL);
    compare_once(cpu, mem, ctx, 1, Some(data))
}

/// One dispatch of a repeated word compare of DS:ESI with ES:EDI; it goes
/// on while the units are equal under `PREFIX_REPZ`, different otherwise.
pub fn cmpsw_rep(cpu: &mut Cpu, mem: &Memory, ctx: StringContext, prefix_flag: i32) -> (r: Result<
    (),
    CpuException,
>)
    requires
        mem@.wf(),
    ensures
        compare_rep_post(
            *old(cpu),
            *final(cpu),
            mem@,
            ctx,
            2,
            None,
            prefix_flag == PREFIX_REPZ,
            r,
        ),
{
    compare_rep(cpu, mem, ctx, 2, None, prefix_flag == PREFIX_REPZ)
}

/// A single word compare of DS:ESI with ES:EDI.
pub fn cmpsw_no_rep(cpu: &mut Cpu, mem: &Memory, ctx: StringContext) -> (r: Result<
    (),
    CpuException,
>)
    requires
        mem@.wf(),
    ensures
        compare_once_post(*old(cpu), *final(cpu), mem@, ctx, 2, None, r),
{
    compare_once(cpu, mem, ctx, 2, None)
}

/// One dispatch of a repeated scan of ES:EDI for the accumulator's word.
pub fn scasw_rep(cpu: &mut Cpu, mem: &Memory, ctx: StringContext, prefix_flag: i32) -> (r: Result<
    (),
    CpuException,
>)
    requires
        mem@.wf(),
    ensures
        compare_rep_post(
            *old(cpu),
            *final(cpu),
            mem@,
            ctx,
            2,
            Some(old(cpu).reg16(AX as int)),
            prefix_flag == PREFIX_REPZ,
            r,
        ),
{
    let data = cpu.get_reg16(AX);
    compare_rep(cpu, mem, ctx, 2, Some(data), prefix_flag == PREFIX_REPZ)
}

/// A single scan of ES:EDI for the accumulator's word.
pub fn scasw_no_rep(cpu: &mut Cpu, mem: &Memory, ctx: StringContext) -> (r: Result<
    (),
    CpuException,
>)
    requires
        mem@.wf(),
    ensures
        compare_once_post(*old(cpu), *final(cpu), mem@, ctx, 2, Some(old(cpu).reg16(AX as int)), r),
{
    let data = cpu.get_reg16(AX);
    compare_once(cpu, mem, ctx, 2, Some(data))
}

/// One dispatch of a repeated dword compare of DS:ESI with ES:EDI; it goes
/// on while the units are equal under `PREFIX_REPZ`, different otherwise.
pub fn cmpsd_rep(cpu: &mut Cpu, mem: &Memory, ctx: StringContext, prefix_flag: i32) -> (r: Result<
    (),
    CpuException,
>)
    requires
        mem@.wf(),
    ensures
        compare_rep_post(
            *old(cpu),
            *final(cpu),
            mem@,
            ctx,
            4,
            None,
            prefix_flag == PREFIX_REPZ,
            r,
        ),
{
    compare_rep(cpu, mem, ctx, 4, None, prefix_flag == PREFIX_REPZ)
}

/// A single dword compare of DS:ESI with ES:EDI.
pub fn cmpsd_no_rep(cpu: &mut Cpu, mem: &Memory, ctx: StringContext) -> (r: Result<
    (),
    CpuException,
>)
    requires
        mem@.wf(),
    ensures
        compare_once_post(*old(cpu), *final(cpu), mem@, ctx, 4, None, r),
{
    compare_once(cpu, mem, ctx, 4, None)
}

/// One dispatch of a repeated scan of ES:EDI for the accumulator's dword.
pub fn scasd_rep(cpu: &mut Cpu, mem: &Memory, ctx: StringContext, prefix_flag: i32) -> (r: Result<
    (),
    CpuException,
>)
    requires
        mem@.wf(),
    ensures
        compare_rep_post(
            *old(cpu),
            *final(cpu),
            mem@,
            ctx,
            4,
            Some(old(cpu).reg(EAX as int)),
            prefix_flag == PREFIX_REPZ,
            r,
        ),
{
    let data = cpu.get_reg32(EAX);
    compare_rep(cpu, mem, ctx, 4, Some(data), prefix_flag == PREFIX_REPZ)
}

/// A single scan of ES:EDI for the accumulator's dword.
pub fn scasd_no_rep(cpu: &mut Cpu, mem: &Memory, ctx: StringContext) -> (r: Result<
    (),
    CpuException,
>)
    requires
        mem@.wf(),
    ensures
        compare_once_post(*old(cpu), *final(cpu), mem@, ctx, 4, Some(old(cpu).reg(EAX as int)), r),
{
    let data = cpu.get_reg32(EAX);
    compare_once(cpu, mem, ctx, 4, Some(data))
}

/// The accumulator register after a unit of `size` bytes was loaded into it.
pub open spec fn with_acc(x: u32, size: u32, v: u32) -> u32 {
    if size == 1 {
        with_low8(x, v)
    } else if size == 2 {
        with_low16(x, v)
    } else {
        v
    }
}

/// Unit `j` of the source can be read.
pub open spec fn src_unit_ok(m: MemView, c: Cpu, ctx: StringContext, size: u32, j: int) -> bool {
    m.accessible(src_unit(c, ctx, size, j), size, false)
}

pub open spec fn load_ok(m: MemView, c: Cpu, ctx: StringContext, size: u32, n: int) -> bool {
    forall|j: int| 0 <= j < n ==> #[trigger] src_unit_ok(m, c, ctx, size, j)
}

/// Units until the source pointer leaves its page or ESI wraps.
pub open spec fn source_room(c: Cpu, ctx: StringContext, size: u32) -> int {
    let back = backward(c);
    let a32 = ctx.address_size_32;
    lesser(
        page_room(src_unit(c, ctx, size, 0), size, back),
        index_room(asize_value(c.reg(ESI as int), a32), size, back, a32),
    )
}

pub open spec fn source_chunk(c: Cpu, ctx: StringContext, size: u32) -> int {
    if src_unit(c, ctx, size, 0) % size == 0 {
        lesser(count_of(c, ctx) as int, source_room(c, ctx, size))
    } else {
        lesser(count_of(c, ctx) as int, MAX_COUNT_PER_CYCLE as int)
    }
}

/// `c1` is `c0` after `n` loads: the registers have progressed, and the
/// accumulator holds the last unit loaded.
pub open spec fn loaded(
    c0: Cpu,
    c1: Cpu,
    m: MemView,
    ctx: StringContext,
    size: u32,
    n: int,
    restart: bool,
) -> bool {
    exists|c_mid: Cpu|
        #[trigger] progressed(c0, c_mid, ctx, size, n, true, false, restart) && c1 == (Cpu {
            reg32: c1.reg32,
            ..c_mid
        }) && c1.reg32@ == c_mid.reg32@.update(
            EAX as int,
            if n == 0 {
                c0.reg(EAX as int)
            } else {
                with_acc(
                    c0.reg(EAX as int),
                    size,
                    m.read_value(src_unit(c0, ctx, size, n - 1), size),
                )
            },
        )
}

/// What one dispatch of a repeated load does: nothing for a zero count; else
/// the loads of its chunk; or, on a fault, the loads before the faulting one.
pub open spec fn load_rep_post(
    c0: Cpu,
    c1: Cpu,
    m: MemView,
    ctx: StringContext,
    size: u32,
    r: Result<(), CpuException>,
) -> bool {
    let count = count_of(c0, ctx) as int;
    let k = source_chunk(c0, ctx, size);
    &&& count == 0 ==> r is Ok && c1 == c0
    &&& count > 0 && load_ok(m, c0, ctx, size, k) ==> r is Ok && loaded(
        c0,
        c1,
        m,
        ctx,
        size,
        k,
        count > k,
    )
    &&& count > 0 && !load_ok(m, c0, ctx, size, k) ==> r is Err && exists|j: int|
        0 <= j < k && #[trigger] load_ok(m, c0, ctx, size, j) && !load_ok(m, c0, ctx, size, j + 1)
            && loaded(c0, c1, m, ctx, size, j, false)
}

/// On the per-page path, source unit `i` sits `i` steps from the physical
/// address of unit 0.
pub proof fn lemma_fast_src(
    m0: MemView,
    c0: Cpu,
    ctx: StringContext,
    size: u32,
    i: int,
    k: int,
    ps0: u32,
)
    requires
        m0.wf(),
        valid_unit(size),
        0 <= i < k,
        k <= source_room(c0, ctx, size),
        src_unit(c0, ctx, size, 0) % size == 0,
        m0.translate(src_unit(c0, ctx, size, 0), false) == Some(ps0),
    ensures
        ({
            let d = i * step_of(c0, size);
            &&& 0 <= ps0 + d && ps0 + d + size <= m0.bytes.len()
            &&& m0.contiguous(src_unit(c0, ctx, size, i), size, false, (ps0 + d) as u32)
            &&& src_unit_ok(m0, c0, ctx, size, i)
            &&& m0.read_value(src_unit(c0, ctx, size, i), size) == m0.read_phys_value(
                (ps0 + d) as u32,
                size,
            )
        }),
{
    let a32 = ctx.address_size_32;
    let si = asize_value(c0.reg(ESI as int), a32);
    assert(si < asize_modulus(a32));
    lemma_unit_in_page(ctx.source_base, si, a32, size, backward(c0), i, k);
    lemma_unit_translate(m0, src_unit(c0, ctx, size, 0), i * step_of(c0, size), size, false);
    lemma_contiguous_unit(
        m0,
        src_unit(c0, ctx, size, i),
        size,
        (ps0 + i * step_of(c0, size)) as u32,
        0,
    );
}

/// Writes the accumulator with a loaded unit.
fn set_acc(cpu: &mut Cpu, size: u32, v: u32)
    requires
        valid_unit(size),
        v < unit_max(size),
    ensures
        final(cpu).reg32@ == old(cpu).reg32@.update(
            EAX as int,
            with_acc(old(cpu).reg(EAX as int), size, v),
        ),
        *final(cpu) == (Cpu { reg32: final(cpu).reg32, ..*old(cpu) }),
{
    if size == 1 {
        cpu.set_reg8(AL, v);
    } else if size == 2 {
        cpu.set_reg16(AX, v);
    } else {
        cpu.set_reg32(EAX, v);
    }
}

#[verifier::rlimit(100)]
fn load_rep(cpu: &mut Cpu, mem: &Memory, ctx: StringContext, size: u32) -> (r: Result<
    (),
    CpuException,
>)
    requires
        mem@.wf(),
        valid_unit(size),
    ensures
        load_rep_post(*old(cpu), *final(cpu), mem@, ctx, size, r),
{
    let a32 = ctx.address_size_32;
    let c0 = *cpu;
    let ghost m0 = mem@;
    let count = asize_get(cpu.reg32[ECX as usize], a32);
    if count == 0 {
        return Ok(());
    }
    let forward = cpu.flags & FLAG_DIRECTION == 0;
    let si = asize_get(cpu.reg32[ESI as usize], a32);
    let src = unit_address(ctx.source_base, si, a32, forward, 0, size);
    proof {
        lemma_progress_zero(c0, ctx, size, true, false);
    }
    let fast = src % size == 0;
    let mut k: u32 = if count < MAX_COUNT_PER_CYCLE {
        count
    } else {
        MAX_COUNT_PER_CYCLE
    };
    let mut ps0: u32 = 0;
    if fast {
        k = count;
        let room1 = page_room_of(src, size, !forward);
        let room3 = index_room_of(si, size, !forward, a32);
        if room1 < k {
            k = room1;
        }
        if room3 < k {
            k = room3;
        }
        ps0 = match mem.translate_address_read(src) {
            Ok(p) => p,
            Err(e) => {
                reveal(MemView::accessible);
                assert(!src_unit_ok(m0, c0, ctx, size, 0));
                assert(load_ok(m0, c0, ctx, size, 0));
                assert(loaded(c0, *cpu, m0, ctx, size, 0, false)) by {
                    assert(c0.reg32@.update(EAX as int, c0.reg(EAX as int)) =~= c0.reg32@);
                }
                return Err(e);
            },
        };
    }
    assert(k == source_chunk(c0, ctx, size));
    let mut i: u32 = 0;
    let mut last: u32 = 0;
    let mut failed: Option<CpuException> = None;
    while i < k && failed.is_none()
        invariant
            0 <= i <= k,
            k <= count,
            k <= 4096,
            k == source_chunk(c0, ctx, size),
            count == count_of(c0, ctx),
            a32 == ctx.address_size_32,
            forward == !backward(c0),
            valid_unit(size),
            m0.wf(),
            mem@ == m0,
            si == asize_value(c0.reg(ESI as int), a32),
            si < asize_modulus(a32),
            fast == (src_unit(c0, ctx, size, 0) % size == 0),
            fast ==> m0.translate(src_unit(c0, ctx, size, 0), false) == Some(ps0),
            fast ==> k <= source_room(c0, ctx, size),
            fast ==> failed is None,
            load_ok(m0, c0, ctx, size, i as int),
            i > 0 ==> last == m0.read_value(src_unit(c0, ctx, size, i - 1), size),
            last < unit_max(size),
            failed is Some ==> i < k && !src_unit_ok(m0, c0, ctx, size, i as int),
            progressed(c0, *cpu, ctx, size, i as int, true, false, false),
        decreases k - i + (if failed is None { 1int } else { 0int }),
    {
        if fast {
            proof {
                lemma_fast_src(m0, c0, ctx, size, i as int, k as int, ps0);
                assert(i * step_of(c0, size) == if forward {
                    (i * size) as int
                } else {
                    -((i * size) as int)
                }) by (nonlinear_arith)
                    requires
                        step_of(c0, size) == if forward {
                            size as int
                        } else {
                            -(size as int)
                        },
                ;
            }
            let ps = phys_unit(ps0, forward, i, size);
            last = mem.read_phys(ps, size);
            let ghost prev = i;
            i = i + 1;
            commit(cpu, &c0, &ctx, size, Ghost(prev), i, true, false);
        } else {
            let s_addr = unit_address(ctx.source_base, si, a32, forward, i, size);
            assert(s_addr == src_unit(c0, ctx, size, i as int));
            match mem.safe_read(s_addr, size) {
                Ok(v) => {
                    last = v;
                    let ghost prev = i;
                    i = i + 1;
                    commit(cpu, &c0, &ctx, size, Ghost(prev), i, true, false);
                },
                Err(e) => {
                    failed = Some(e);
                },
            }
        }
    }
    let ghost c_mid = *cpu;
    let restart = failed.is_none() && count - k != 0;
    if restart {
        cpu.instruction_pointer = cpu.previous_ip;
        proof {
            lemma_progress_restart(c0, c_mid, ctx, size, k as int, true, false);
        }
    }
    let ghost c_mid2 = *cpu;
    if i > 0 {
        set_acc(cpu, size, last);
    }
    proof {
        reveal(progressed);
        assert(cpu.reg32@ =~= c_mid2.reg32@.update(
            EAX as int,
            if i == 0 {
                c0.reg(EAX as int)
            } else {
                with_acc(c0.reg(EAX as int), size, m0.read_value(src_unit(c0, ctx, size, i - 1), size))
            },
        ));
        assert(progressed(c0, c_mid2, ctx, size, i as int, true, false, restart));
    }
    if let Some(e) = failed {
        proof {
            assert(loaded(c0, *cpu, m0, ctx, size, i as int, false));
            if load_ok(m0, c0, ctx, size, k as int) {
                assert(src_unit_ok(m0, c0, ctx, size, i as int));
            }
        }
        return Err(e);
    }
    proof {
        assert(loaded(c0, *cpu, m0, ctx, size, k as int, count > k));
    }
    Ok(())
}

/// One unrepeated load: the accumulator takes the unit and ESI steps, or a
/// fault changes nothing.
pub open spec fn load_once_post(
    c0: Cpu,
    c1: Cpu,
    m: MemView,
    ctx: StringContext,
    size: u32,
    r: Result<(), CpuException>,
) -> bool {
    &&& src_unit_ok(m, c0, ctx, size, 0) ==> r is Ok && c1.reg32@ == moved_once(
        c0,
        ctx,
        size,
        true,
        false,
    ).update(
        EAX as int,
        with_acc(c0.reg(EAX as int), size, m.read_value(src_unit(c0, ctx, size, 0), size)),
    ) && c1 == (Cpu { reg32: c1.reg32, ..c0 })
    &&& !src_unit_ok(m, c0, ctx, size, 0) ==> r is Err && c1 == c0
}

/// A single load from DS:ESI into the accumulator.
fn load_once(cpu: &mut Cpu, mem: &Memory, ctx: StringContext, size: u32) -> (r: Result<
    (),
    CpuException,
>)
    requires
        mem@.wf(),
        valid_unit(size),
    ensures
        load_once_post(*old(cpu), *final(cpu), mem@, ctx, size, r),
{
    let a32 = ctx.address_size_32;
    let forward = cpu.flags & FLAG_DIRECTION == 0;
    let si = asize_get(cpu.reg32[ESI as usize], a32);
    let src = unit_address(ctx.source_base, si, a32, forward, 0, size);
    let v = match mem.safe_read(src, size) {
        Ok(v) => v,
        Err(e) => return Err(e),
    };
    set_acc(cpu, size, v);
    step_index(cpu, ESI, a32, forward, size);
    proof {
        assert(cpu.reg32@ =~= moved_once(*old(cpu), ctx, size, true, false).update(
            EAX as int,
            with_acc(old(cpu).reg(EAX as int), size, v),
        ));
    }
    Ok(())
}

/// One dispatch of a repeated byte load from DS:ESI into AL.
pub fn lodsb_rep(cpu: &mut Cpu, mem: &Memory, ctx: StringContext) -> (r: Result<
    (),
    CpuException,
>)
    requires
        mem@.wf(),
    ensures
        load_rep_post(*old(cpu), *final(cpu), mem@, ctx, 1, r),
{
    load_rep(cpu, mem, ctx, 1)
}

/// A single byte load from DS:ESI into AL.
pub fn lodsb_no_rep(cpu: &mut Cpu, mem: &Memory, ctx: StringContext) -> (r: Result<
    (),
    CpuException,
>)
    requires
        mem@.wf(),
    ensures
        load_once_post(*old(cpu), *final(cpu), mem@, ctx, 1, r),
{
    load_once(cpu, mem, ctx, 1)
}

/// One dispatch of a repeated word load from DS:ESI into AX.
pub fn lodsw_rep(cpu: &mut Cpu, mem: &Memory, ctx: StringContext) -> (r: Result<
    (),
    CpuException,
>)
    requires
        mem@.wf(),
    ensures
        load_rep_post(*old(cpu), *final(cpu), mem@, ctx, 2, r),
{
    load_rep(cpu, mem, ctx, 2)
}

/// A single word load from DS:ESI into AX.
pub fn lodsw_no_rep(cpu: &mut Cpu, mem: &Memory, ctx: StringContext) -> (r: Result<
    (),
    CpuException,
>)
    requires
        mem@.wf(),
    ensures
        load_once_post(*old(cpu), *final(cpu), mem@, ctx, 2, r),
{
    load_once(cpu, mem, ctx, 2)
}

/// One dispatch of a repeated dword load from DS:ESI into EAX.
pub fn lodsd_rep(cpu: &mut Cpu, mem: &Memory, ctx: StringContext) -> (r: Result<
    (),
    CpuException,
>)
    requires
        mem@.wf(),
    ensures
        load_rep_post(*old(cpu), *final(cpu), mem@, ctx, 4, r),
{
    load_rep(cpu, mem, ctx, 4)
}

/// A single dword load from DS:ESI into EAX.
pub fn lodsd_no_rep(cpu: &mut Cpu, mem: &Memory, ctx: StringContext) -> (r: Result<
    (),
    CpuException,
>)
    requires
        mem@.wf(),
    ensures
        load_once_post(*old(cpu), *final(cpu), mem@, ctx, 4, r),
{
    load_once(cpu, mem, ctx, 4)
}

/// The I/O ports of the machine and the check of the current privilege
/// against them. Nothing is assumed of what a port returns.
pub trait PortIo {
    /// Whether the current privilege allows an access of `size` bytes at `port`.
    fn io_allowed(&self, port: u32, size: u32) -> bool;

    /// Reads `size` bytes from a port.
    fn io_port_read(&mut self, port: u32, size: u32) -> u32;

    /// Writes the `size` low bytes of `value` to a port.
    fn io_port_write(&mut self, port: u32, size: u32, value: u32);
}

/// Memory after the first `n` iterations of a port input, where iteration `j`
/// read `vals[j]` from the port.
pub open spec fn port_model(
    m: MemView,
    c: Cpu,
    ctx: StringContext,
    size: u32,
    vals: Seq<u32>,
    n: nat,
) -> MemView
    decreases n,
{
    if n == 0 {
        m
    } else {
        port_model(m, c, ctx, size, vals, (n - 1) as nat).write_value(
            dst_unit(c, ctx, size, n - 1),
            size,
            vals[n - 1],
        )
    }
}

/// The model reads only the values of the iterations it covers.
pub proof fn lemma_port_model_prefix(
    m: MemView,
    c: Cpu,
    ctx: StringContext,
    size: u32,
    a: Seq<u32>,
    b: Seq<u32>,
    n: nat,
)
    requires
        n <= a.len(),
        n <= b.len(),
        forall|j: int| 0 <= j < n ==> a[j] == b[j],
    ensures
        port_model(m, c, ctx, size, a, n) == port_model(m, c, ctx, size, b, n),
    decreases n,
{
    if n > 0 {
        lemma_port_model_prefix(m, c, ctx, size, a, b, (n - 1) as nat);
    }
}

pub proof fn lemma_port_model_shape(
    m: MemView,
    c: Cpu,
    ctx: StringContext,
    size: u32,
    vals: Seq<u32>,
    n: nat,
)
    requires
        m.wf(),
        valid_unit(size),
        transfer_ok(m, c, ctx, size, Some(0u32), n as int),
    ensures
        port_model(m, c, ctx, size, vals, n).pages == m.pages,
        port_model(m, c, ctx, size, vals, n).bytes.len() == m.bytes.len(),
        port_model(m, c, ctx, size, vals, n).dirty.len() == m.dirty.len(),
        port_model(m, c, ctx, size, vals, n).wf(),
    decreases n,
{
    if n > 0 {
        lemma_port_model_shape(m, c, ctx, size, vals, (n - 1) as nat);
        let prev = port_model(m, c, ctx, size, vals, (n - 1) as nat);
        assert(transfer_unit_ok(m, c, ctx, size, Some(0u32), n - 1));
        lemma_same_pages(prev, m, dst_unit(c, ctx, size, n - 1), size, true);
        lemma_write_value_shape(prev, dst_unit(c, ctx, size, n - 1), size, vals[n - 1]);
    }
}

/// One more port read written to the destination: the model with the value
/// appended, and the destination unit reachable.
pub proof fn lemma_port_step(
    m0: MemView,
    c0: Cpu,
    ctx: StringContext,
    size: u32,
    vals: Seq<u32>,
    v: u32,
)
    requires
        m0.wf(),
        valid_unit(size),
        transfer_ok(m0, c0, ctx, size, Some(0u32), vals.len() as int),
    ensures
        ({
            let i = vals.len();
            let x = port_model(m0, c0, ctx, size, vals, i);
            let d = dst_unit(c0, ctx, size, i as int);
            &&& port_model(m0, c0, ctx, size, vals.push(v), i + 1) == x.write_value(d, size, v)
            &&& x.wf()
            &&& x.pages == m0.pages
            &&& x.bytes.len() == m0.bytes.len()
            &&& x.dirty.len() == m0.dirty.len()
            &&& x.accessible(d, size, true) == transfer_ok(
                m0,
                c0,
                ctx,
                size,
                Some(0u32),
                i as int + 1,
            )
            &&& forall|pd: u32| #[trigger] m0.contiguous(d, size, true, pd) ==> x.contiguous(d, size, true, pd)
        }),
{
    let i = vals.len();
    let x = port_model(m0, c0, ctx, size, vals, i);
    lemma_port_model_shape(m0, c0, ctx, size, vals, i);
    lemma_port_model_prefix(m0, c0, ctx, size, vals.push(v), vals, i);
    let d = dst_unit(c0, ctx, size, i as int);
    lemma_same_pages(x, m0, d, size, true);
    if transfer_unit_ok(m0, c0, ctx, size, Some(0u32), i as int) {
        assert forall|j: int| 0 <= j < i + 1 implies #[trigger] transfer_unit_ok(
            m0,
            c0,
            ctx,
            size,
            Some(0u32),
            j,
        ) by {
            if j < i {
                assert(0 <= j < i);
            }
        }
    }
    if transfer_ok(m0, c0, ctx, size, Some(0u32), i as int + 1) {
        assert(transfer_unit_ok(m0, c0, ctx, size, Some(0u32), i as int));
    }
}

/// Iterations of one dispatch of a port input: as for a store.
fn dest_chunk(cpu: &Cpu, ctx: StringContext, size: u32) -> (k: u32)
    requires
        valid_unit(size),
        count_of(*cpu, ctx) > 0,
    ensures
        k == transfer_chunk(*cpu, ctx, size, Some(0u32)),
        1 <= k <= 4096,
{
    let a32 = ctx.address_size_32;
    let count = asize_get(cpu.reg32[ECX as usize], a32);
    let forward = cpu.flags & FLAG_DIRECTION == 0;
    let di = asize_get(cpu.reg32[EDI as usize], a32);
    let dst = unit_address(ctx.dest_base, di, a32, forward, 0, size);
    let mut k: u32 = if count < MAX_COUNT_PER_CYCLE {
        count
    } else {
        MAX_COUNT_PER_CYCLE
    };
    if dst % size == 0 {
        k = count;
        let room2 = page_room_of(dst, size, !forward);
        let room4 = index_room_of(di, size, !forward, a32);
        if room2 < k {
            k = room2;
        }
        if room4 < k {
            k = room4;
        }
    }
    k
}

/// Iterations of one dispatch of a port output: as for a load.
fn src_chunk(cpu: &Cpu, ctx: StringContext, size: u32) -> (k: u32)
    requires
        valid_unit(size),
        count_of(*cpu, ctx) > 0,
    ensures
        k == source_chunk(*cpu, ctx, size),
        1 <= k <= 4096,
{
    let a32 = ctx.address_size_32;
    let count = asize_get(cpu.reg32[ECX as usize], a32);
    let forward = cpu.flags & FLAG_DIRECTION == 0;
    let si = asize_get(cpu.reg32[ESI as usize], a32);
    let src = unit_address(ctx.source_base, si, a32, forward, 0, size);
    let mut k: u32 = if count < MAX_COUNT_PER_CYCLE {
        count
    } else {
        MAX_COUNT_PER_CYCLE
    };
    if src % size == 0 {
        k = count;
        let room1 = page_room_of(src, size, !forward);
        let room3 = index_room_of(si, size, !forward, a32);
        if room1 < k {
            k = room1;
        }
        if room3 < k {
            k = room3;
        }
    }
    k
}

/// One exchange with the port device, as recorded by `IoPorts`.
pub enum PortEvent {
    /// A privilege check of an access of `size` bytes at `port`, and its answer.
    Check { port: u32, size: u32, answer: bool },
    /// A read of `size` bytes at `port`, and the value the device returned.
    Read { port: u32, size: u32, value: u32 },
    /// A write of `value` in `size` bytes at `port`.
    Write { port: u32, size: u32, value: u32 },
}

/// A port device together with the record of every exchange made with it
/// through this library, oldest first.
pub struct IoPorts<P: PortIo> {
    pub device: P,
    pub log: Ghost<Seq<PortEvent>>,
}

impl<P: PortIo> IoPorts<P> {
    /// A device with an empty record.
    pub fn new(device: P) -> (r: IoPorts<P>)
        ensures
            r.log@ == Seq::<PortEvent>::empty(),
    {
        IoPorts { device, log: Ghost(Seq::empty()) }
    }

    /// Asks the device whether an access is allowed, and records the answer.
    fn check(&mut self, port: u32, size: u32) -> (b: bool)
        ensures
            final(self).log@ == old(self).log@.push(
                PortEvent::Check { port: port, size: size, answer: b },
            ),
    {
        let b = self.device.io_allowed(port, size);
        self.log = Ghost(self.log@.push(PortEvent::Check { port: port, size: size, answer: b }));
        b
    }

    /// Reads from the device, and records the value it returned.
    fn read(&mut self, port: u32, size: u32) -> (raw: u32)
        ensures
            final(self).log@ == old(self).log@.push(
                PortEvent::Read { port: port, size: size, value: raw },
            ),
    {
        let raw = self.device.io_port_read(port, size);
        self.log = Ghost(self.log@.push(PortEvent::Read { port: port, size: size, value: raw }));
        raw
    }

    /// Writes to the device, and records the write.
    fn write(&mut self, port: u32, size: u32, value: u32)
        ensures
            final(self).log@ == old(self).log@.push(
                PortEvent::Write { port: port, size: size, value: value },
            ),
    {
        self.device.io_port_write(port, size, value);
        self.log = Ghost(
            self.log@.push(PortEvent::Write { port: port, size: size, value: value }),
        );
    }
}

/// A port value cut to a unit of `size` bytes.
pub open spec fn cut(v: u32, size: u32) -> u32 {
    (v as int % unit_max(size)) as u32
}

fn cut_unit(v: u32, size: u32) -> (r: u32)
    requires
        valid_unit(size),
    ensures
        r == cut(v, size),
        r < unit_max(size),
{
    if size == 1 {
        v % 0x100
    } else if size == 2 {
        v % 0x1_0000
    } else {
        v
    }
}

pub open spec fn is_check(e: PortEvent, port: u32, size: u32) -> bool {
    match e {
        PortEvent::Check { port: p, size: s, .. } => p == port && s == size,
        _ => false,
    }
}

pub open spec fn check_answer(e: PortEvent) -> bool {
    match e {
        PortEvent::Check { answer, .. } => answer,
        _ => false,
    }
}

pub open spec fn is_read(e: PortEvent, port: u32, size: u32) -> bool {
    match e {
        PortEvent::Read { port: p, size: s, .. } => p == port && s == size,
        _ => false,
    }
}

pub open spec fn read_value(e: PortEvent) -> u32 {
    match e {
        PortEvent::Read { value, .. } => value,
        _ => 0,
    }
}

/// From position `from` on, the record holds exactly `n` reads of `size`
/// bytes at `port`.
pub open spec fn reads_logged(log: Seq<PortEvent>, from: int, port: u32, size: u32, n: int) -> bool {
    &&& log.len() == from + n
    &&& forall|j: int| 0 <= j < n ==> #[trigger] is_read(log[from + j], port, size)
}

/// The units that `n` recorded reads from position `from` on gave.
pub open spec fn read_units(log: Seq<PortEvent>, from: int, n: nat, size: u32) -> Seq<u32> {
    Seq::new(n, |j: int| cut(read_value(log[from + j]), size))
}

/// From position `from` on, the record holds exactly the writes of the first
/// `n` source units of a port output, in order, to `port`.
pub open spec fn writes_logged(
    log: Seq<PortEvent>,
    from: int,
    port: u32,
    m: MemView,
    c: Cpu,
    ctx: StringContext,
    size: u32,
    n: int,
) -> bool {
    &&& log.len() == from + n
    &&& forall|j: int|
        0 <= j < n ==> #[trigger] log[from + j] == PortEvent::Write {
            port: port,
            size: size,
            value: m.read_value(src_unit(c, ctx, size, j), size),
        }
}

/// The record `log1` is `log0` followed by a privilege check of `size` bytes
/// at `port`, and more.
pub open spec fn checked_first(log0: Seq<PortEvent>, log1: Seq<PortEvent>, port: u32, size: u32) -> bool {
    &&& log1.len() > log0.len()
    &&& log1.subrange(0, log0.len() as int) == log0
    &&& is_check(log1[log0.len() as int], port, size)
}

/// What one dispatch of a repeated port input does. The privilege check for
/// port DX comes first; a refusal gives the general protection fault and
/// changes nothing else. When allowed: a zero count changes nothing; else the
/// iterations of its chunk, each reading port DX once and writing the unit it
/// returned to ES:EDI; or, on a fault, the iterations before the faulting one,
/// without a read for the faulting unit.
pub open spec fn in_rep_post(
    c0: Cpu,
    c1: Cpu,
    m0: MemView,
    m1: MemView,
    ctx: StringContext,
    size: u32,
    log0: Seq<PortEvent>,
    log1: Seq<PortEvent>,
    r: Result<(), CpuException>,
) -> bool {
    let port = c0.reg16(DX as int);
    let a = log0.len() as int;
    let allowed = check_answer(log1[a]);
    let count = count_of(c0, ctx) as int;
    let k = transfer_chunk(c0, ctx, size, Some(0u32));
    &&& m1.wf()
    &&& checked_first(log0, log1, port, size)
    &&& (r == Err::<(), CpuException>(CpuException::GeneralProtection)) == !allowed
    &&& !allowed ==> c1 == c0 && m1 == m0 && log1.len() == a + 1
    &&& allowed && count == 0 ==> r is Ok && c1 == c0 && m1 == m0 && log1.len() == a + 1
    &&& allowed && count > 0 && transfer_ok(m0, c0, ctx, size, Some(0u32), k) ==> r is Ok
        && progressed(c0, c1, ctx, size, k, false, true, count > k) && reads_logged(
        log1,
        a + 1,
        port,
        size,
        k,
    ) && m1 == port_model(m0, c0, ctx, size, read_units(log1, a + 1, k as nat, size), k as nat)
    &&& allowed && count > 0 && !transfer_ok(m0, c0, ctx, size, Some(0u32), k) ==> r is Err
        && exists|j: int|
        0 <= j < k && #[trigger] transfer_ok(m0, c0, ctx, size, Some(0u32), j) && !transfer_ok(
            m0,
            c0,
            ctx,
            size,
            Some(0u32),
            j + 1,
        ) && progressed(c0, c1, ctx, size, j, false, true, false) && reads_logged(
            log1,
            a + 1,
            port,
            size,
            j,
        ) && m1 == port_model(m0, c0, ctx, size, read_units(log1, a + 1, j as nat, size), j as nat)
}

/// One dispatch of a repeated input of units of `size` bytes from port DX
/// to ES:EDI.
#[verifier::rlimit(80)]
fn in_rep<P: PortIo>(
    cpu: &mut Cpu,
    mem: &mut Memory,
    ports: &mut IoPorts<P>,
    ctx: StringContext,
    size: u32,
) -> (r: Result<(), CpuException>)
    requires
        old(mem)@.wf(),
        valid_unit(size),
    ensures
        in_rep_post(
            *old(cpu),
            *final(cpu),
            old(mem)@,
            final(mem)@,
            ctx,
            size,
            old(ports).log@,
            final(ports).log@,
            r,
        ),
{
    let ghost log0 = ports.log@;
    let ghost a = log0.len() as int;
    let port = cpu.get_reg16(DX);
    let allowed = ports.check(port, size);
    proof {
        assert(ports.log@.subrange(0, a) =~= log0);
    }
    if !allowed {
        return Err(CpuException::GeneralProtection);
    }
    let a32 = ctx.address_size_32;
    let c0 = *cpu;
    let ghost m0 = mem@;
    let count = asize_get(cpu.reg32[ECX as usize], a32);
    if count == 0 {
        return Ok(());
    }
    let forward = cpu.flags & FLAG_DIRECTION == 0;
    let di = asize_get(cpu.reg32[EDI as usize], a32);
    proof {
        lemma_progress_zero(c0, ctx, size, false, true);
        assert(port_model(m0, c0, ctx, size, Seq::<u32>::empty(), 0) == m0);
    }
    let k = dest_chunk(cpu, ctx, size);
    let mut i: u32 = 0;
    let ghost mut vals: Seq<u32> = Seq::empty();
    let mut failed: Option<CpuException> = None;
    while i < k && failed.is_none()
        invariant
            0 <= i <= k,
            k <= count,
            k <= 4096,
            k == transfer_chunk(c0, ctx, size, Some(0u32)),
            count == count_of(c0, ctx),
            a32 == ctx.address_size_32,
            forward == !backward(c0),
            valid_unit(size),
            m0.wf(),
            port == c0.reg16(DX as int),
            di == asize_value(c0.reg(EDI as int), a32),
            di < asize_modulus(a32),
            mem@ == port_model(m0, c0, ctx, size, vals, i as nat),
            mem@.wf(),
            vals.len() == i,
            forall|j: int| 0 <= j < i ==> #[trigger] vals[j] < unit_max(size),
            ports.log@.len() == a + 1 + i,
            ports.log@.subrange(0, a) == log0,
            ports.log@[a] == (PortEvent::Check { port: port, size: size, answer: true }),
            a == log0.len(),
            forall|j: int| 0 <= j < i ==> #[trigger] is_read(ports.log@[a + 1 + j], port, size),
            forall|j: int|
                0 <= j < i ==> #[trigger] vals[j] == cut(read_value(ports.log@[a + 1 + j]), size),
            transfer_ok(m0, c0, ctx, size, Some(0u32), i as int),
            failed is Some ==> i < k && !transfer_unit_ok(
                m0,
                c0,
                ctx,
                size,
                Some(0u32),
                i as int,
            ),
            progressed(c0, *cpu, ctx, size, i as int, false, true, false),
            failed is Some ==> failed->Some_0 is PageFault,
        decreases k - i + (if failed is None { 1int } else { 0int }),
    {
        let d_addr = unit_address(ctx.dest_base, di, a32, forward, i, size);
        assert(d_addr == dst_unit(c0, ctx, size, i as int));
        proof {
            lemma_port_step(m0, c0, ctx, size, vals, 0);
        }
        match mem.writable_or_pagefault(d_addr, size) {
            Ok(()) => {
                let ghost log_before = ports.log@;
                let raw = ports.read(port, size);
                let v = cut_unit(raw, size);
                proof {
                    lemma_port_step(m0, c0, ctx, size, vals, v);
                    assert(ports.log@[a + 1 + i] == PortEvent::Read {
                        port: port,
                        size: size,
                        value: raw,
                    });
                    assert forall|j: int| 0 <= j < a implies ports.log@.subrange(0, a)[j]
                        == log_before.subrange(0, a)[j] by {}
                    assert(ports.log@.subrange(0, a) =~= log0);
                }
                let _ = mem.safe_write(d_addr, size, v);
                proof {
                    vals = vals.push(v);
                }
                let ghost prev = i;
                i = i + 1;
                commit(cpu, &c0, &ctx, size, Ghost(prev), i, false, true);
                proof {
                    assert forall|j: int| 0 <= j < i implies #[trigger] is_read(
                        ports.log@[a + 1 + j],
                        port,
                        size,
                    ) by {
                        if j < i - 1 {
                            assert(ports.log@[a + 1 + j] == log_before[a + 1 + j]);
                        }
                    }
                    assert forall|j: int| 0 <= j < i implies #[trigger] vals[j] == cut(
                        read_value(ports.log@[a + 1 + j]),
                        size,
                    ) by {
                        if j < i - 1 {
                            assert(ports.log@[a + 1 + j] == log_before[a + 1 + j]);
                        }
                    }
                }
            },
            Err(e) => {
                failed = Some(e);
            },
        }
    }
    proof {
        assert(vals =~= read_units(ports.log@, a + 1, i as nat, size));
        assert(reads_logged(ports.log@, a + 1, port, size, i as int));
    }
    if let Some(e) = failed {
        proof {
            if transfer_ok(m0, c0, ctx, size, Some(0u32), k as int) {
                assert(transfer_unit_ok(m0, c0, ctx, size, Some(0u32), i as int));
            }
            assert(!transfer_ok(m0, c0, ctx, size, Some(0u32), i as int + 1));
            assert(e is PageFault);
        }
        return Err(e);
    }
    proof {
        lemma_progress_restart(c0, *cpu, ctx, size, k as int, false, true);
    }
    if count - k != 0 {
        cpu.instruction_pointer = cpu.previous_ip;
    }
    Ok(())
}

/// What one dispatch of a repeated port output does. The privilege check for
/// port DX comes first; a refusal gives the general protection fault and
/// changes nothing else. When allowed: a zero count changes nothing; else the
/// iterations of its chunk, each writing one unit of DS:ESI to port DX, in
/// order; or, on a fault, the iterations before the faulting one.
pub open spec fn out_rep_post(
    c0: Cpu,
    c1: Cpu,
    m: MemView,
    ctx: StringContext,
    size: u32,
    log0: Seq<PortEvent>,
    log1: Seq<PortEvent>,
    r: Result<(), CpuException>,
) -> bool {
    let port = c0.reg16(DX as int);
    let a = log0.len() as int;
    let allowed = check_answer(log1[a]);
    let count = count_of(c0, ctx) as int;
    let k = source_chunk(c0, ctx, size);
    &&& checked_first(log0, log1, port, size)
    &&& (r == Err::<(), CpuException>(CpuException::GeneralProtection)) == !allowed
    &&& !allowed ==> c1 == c0 && log1.len() == a + 1
    &&& allowed && count == 0 ==> r is Ok && c1 == c0 && log1.len() == a + 1
    &&& allowed && count > 0 && load_ok(m, c0, ctx, size, k) ==> r is Ok && progressed(
        c0,
        c1,
        ctx,
        size,
        k,
        true,
        false,
        count > k,
    ) && writes_logged(log1, a + 1, port, m, c0, ctx, size, k)
    &&& allowed && count > 0 && !load_ok(m, c0, ctx, size, k) ==> r is Err && exists|j: int|
        0 <= j < k && #[trigger] load_ok(m, c0, ctx, size, j) && !load_ok(m, c0, ctx, size, j + 1)
            && progressed(c0, c1, ctx, size, j, true, false, false) && writes_logged(
            log1,
            a + 1,
            port,
            m,
            c0,
            ctx,
            size,
            j,
        )
}

/// One dispatch of a repeated output of units of `size` bytes from DS:ESI to
/// port DX.
#[verifier::rlimit(80)]
fn out_rep<P: PortIo>(
    cpu: &mut Cpu,
    mem: &Memory,
    ports: &mut IoPorts<P>,
    ctx: StringContext,
    size: u32,
) -> (r: Result<(), CpuException>)
    requires
        mem@.wf(),
        valid_unit(size),
    ensures
        out_rep_post(*old(cpu), *final(cpu), mem@, ctx, size, old(ports).log@, final(ports).log@, r),
{
    let ghost log0 = ports.log@;
    let ghost a = log0.len() as int;
    let port = cpu.get_reg16(DX);
    let allowed = ports.check(port, size);
    proof {
        assert(ports.log@.subrange(0, a) =~= log0);
    }
    if !allowed {
        return Err(CpuException::GeneralProtection);
    }
    let a32 = ctx.address_size_32;
    let c0 = *cpu;
    let ghost m0 = mem@;
    let count = asize_get(cpu.reg32[ECX as usize], a32);
    if count == 0 {
        return Ok(());
    }
    let forward = cpu.flags & FLAG_DIRECTION == 0;
    let si = asize_get(cpu.reg32[ESI as usize], a32);
    proof {
        lemma_progress_zero(c0, ctx, size, true, false);
    }
    let k = src_chunk(cpu, ctx, size);
    let mut i: u32 = 0;
    let mut failed: Option<CpuException> = None;
    while i < k && failed.is_none()
        invariant
            0 <= i <= k,
            k <= count,
            k <= 4096,
            k == source_chunk(c0, ctx, size),
            count == count_of(c0, ctx),
            a32 == ctx.address_size_32,
            forward == !backward(c0),
            valid_unit(size),
            m0.wf(),
            mem@ == m0,
            port == c0.reg16(DX as int),
            si == asize_value(c0.reg(ESI as int), a32),
            si < asize_modulus(a32),
            a == log0.len(),
            ports.log@.subrange(0, a) == log0,
            ports.log@[a] == (PortEvent::Check { port: port, size: size, answer: true }),
            writes_logged(ports.log@, a + 1, port, m0, c0, ctx, size, i as int),
            load_ok(m0, c0, ctx, size, i as int),
            failed is Some ==> i < k && !src_unit_ok(m0, c0, ctx, size, i as int),
            failed is Some ==> failed->Some_0 is PageFault,
            progressed(c0, *cpu, ctx, size, i as int, true, false, false),
        decreases k - i + (if failed is None { 1int } else { 0int }),
    {
        let s_addr = unit_address(ctx.source_base, si, a32, forward, i, size);
        assert(s_addr == src_unit(c0, ctx, size, i as int));
        match mem.safe_read(s_addr, size) {
            Ok(v) => {
                let ghost log_before = ports.log@;
                ports.write(port, size, v);
                proof {
                    assert forall|j: int| 0 <= j < a implies ports.log@.subrange(0, a)[j]
                        == log_before.subrange(0, a)[j] by {}
                    assert(ports.log@.subrange(0, a) =~= log0);
                    assert(src_unit_ok(m0, c0, ctx, size, i as int));
                    assert(load_ok(m0, c0, ctx, size, i + 1));
                    assert forall|j: int| 0 <= j < i + 1 implies #[trigger] ports.log@[a + 1 + j]
                        == PortEvent::Write {
                        port: port,
                        size: size,
                        value: m0.read_value(src_unit(c0, ctx, size, j), size),
                    } by {
                        if j < i {
                            assert(ports.log@[a + 1 + j] == log_before[a + 1 + j]);
                        }
                    }
                }
                let ghost prev = i;
                i = i + 1;
                commit(cpu, &c0, &ctx, size, Ghost(prev), i, true, false);
            },
            Err(e) => {
                failed = Some(e);
            },
        }
    }
    if let Some(e) = failed {
        proof {
            if load_ok(m0, c0, ctx, size, k as int) {
                assert(src_unit_ok(m0, c0, ctx, size, i as int));
            }
            assert(!load_ok(m0, c0, ctx, size, i as int + 1));
        }
        return Err(e);
    }
    proof {
        lemma_progress_restart(c0, *cpu, ctx, size, k as int, true, false);
    }
    if count - k != 0 {
        cpu.instruction_pointer = cpu.previous_ip;
    }
    Ok(())
}

/// One unrepeated port input. The privilege check for port DX comes first; a
/// refusal gives the general protection fault and changes nothing else. When
/// allowed: the unit that port DX returns is written to ES:EDI and EDI steps;
/// or a fault at ES:EDI changes nothing and the port is not read.
pub open spec fn in_once_post(
    c0: Cpu,
    c1: Cpu,
    m0: MemView,
    m1: MemView,
    ctx: StringContext,
    size: u32,
    log0: Seq<PortEvent>,
    log1: Seq<PortEvent>,
    r: Result<(), CpuException>,
) -> bool {
    let port = c0.reg16(DX as int);
    let a = log0.len() as int;
    let allowed = check_answer(log1[a]);
    &&& m1.wf()
    &&& checked_first(log0, log1, port, size)
    &&& (r == Err::<(), CpuException>(CpuException::GeneralProtection)) == !allowed
    &&& !allowed ==> c1 == c0 && m1 == m0 && log1.len() == a + 1
    &&& allowed && transfer_unit_ok(m0, c0, ctx, size, Some(0u32), 0) ==> r is Ok && c1.reg32@
        == moved_once(c0, ctx, size, false, true) && c1 == (Cpu { reg32: c1.reg32, ..c0 })
        && reads_logged(log1, a + 1, port, size, 1) && m1 == m0.write_value(
        dst_unit(c0, ctx, size, 0),
        size,
        cut(read_value(log1[a + 1]), size),
    )
    &&& allowed && !transfer_unit_ok(m0, c0, ctx, size, Some(0u32), 0) ==> r is Err && c1 == c0
        && m1 == m0 && log1.len() == a + 1
}

fn in_once<P: PortIo>(
    cpu: &mut Cpu,
    mem: &mut Memory,
    ports: &mut IoPorts<P>,
    ctx: StringContext,
    size: u32,
) -> (r: Result<(), CpuException>)
    requires
        old(mem)@.wf(),
        valid_unit(size),
    ensures
        in_once_post(
            *old(cpu),
            *final(cpu),
            old(mem)@,
            final(mem)@,
            ctx,
            size,
            old(ports).log@,
            final(ports).log@,
            r,
        ),
{
    let ghost log0 = ports.log@;
    let ghost a = log0.len() as int;
    let port = cpu.get_reg16(DX);
    let allowed = ports.check(port, size);
    proof {
        assert(ports.log@.subrange(0, a) =~= log0);
    }
    if !allowed {
        return Err(CpuException::GeneralProtection);
    }
    let a32 = ctx.address_size_32;
    let forward = cpu.flags & FLAG_DIRECTION == 0;
    let di = asize_get(cpu.reg32[EDI as usize], a32);
    let dst = unit_address(ctx.dest_base, di, a32, forward, 0, size);
    match mem.writable_or_pagefault(dst, size) {
        Ok(()) => {},
        Err(e) => return Err(e),
    }
    let raw = ports.read(port, size);
    proof {
        assert(ports.log@.subrange(0, a) =~= log0);
        assert(is_read(ports.log@[a + 1 + 0], port, size));
    }
    let v = cut_unit(raw, size);
    let _ = mem.safe_write(dst, size, v);
    step_index(cpu, EDI, a32, forward, size);
    proof {
        assert(cpu.reg32@ =~= moved_once(*old(cpu), ctx, size, false, true));
    }
    Ok(())
}

/// One unrepeated port output. The privilege check for port DX comes first;
/// a refusal gives the general protection fault and changes nothing else.
/// When allowed: the unit at DS:ESI is written to port DX and ESI steps; or a
/// fault changes nothing and nothing is written to the port.
pub open spec fn out_once_post(
    c0: Cpu,
    c1: Cpu,
    m: MemView,
    ctx: StringContext,
    size: u32,
    log0: Seq<PortEvent>,
    log1: Seq<PortEvent>,
    r: Result<(), CpuException>,
) -> bool {
    let port = c0.reg16(DX as int);
    let a = log0.len() as int;
    let allowed = check_answer(log1[a]);
    &&& checked_first(log0, log1, port, size)
    &&& (r == Err::<(), CpuException>(CpuException::GeneralProtection)) == !allowed
    &&& !allowed ==> c1 == c0 && log1.len() == a + 1
    &&& allowed && src_unit_ok(m, c0, ctx, size, 0) ==> r is Ok && c1.reg32@ == moved_once(
        c0,
        ctx,
        size,
        true,
        false,
    ) && c1 == (Cpu { reg32: c1.reg32, ..c0 }) && writes_logged(log1, a + 1, port, m, c0, ctx, size, 1)
    &&& allowed && !src_unit_ok(m, c0, ctx, size, 0) ==> r is Err && c1 == c0 && log1.len() == a
        + 1
}

fn out_once<P: PortIo>(
    cpu: &mut Cpu,
    mem: &Memory,
    ports: &mut IoPorts<P>,
    ctx: StringContext,
    size: u32,
) -> (r: Result<(), CpuException>)
    requires
        mem@.wf(),
        valid_unit(size),
    ensures
        out_once_post(*old(cpu), *final(cpu), mem@, ctx, size, old(ports).log@, final(ports).log@, r),
{
    let ghost log0 = ports.log@;
    let ghost a = log0.len() as int;
    let port = cpu.get_reg16(DX);
    let allowed = ports.check(port, size);
    proof {
        assert(ports.log@.subrange(0, a) =~= log0);
    }
    if !allowed {
        return Err(CpuException::GeneralProtection);
    }
    let a32 = ctx.address_size_32;
    let forward = cpu.flags & FLAG_DIRECTION == 0;
    let si = asize_get(cpu.reg32[ESI as usize], a32);
    let src = unit_address(ctx.source_base, si, a32, forward, 0, size);
    let v = match mem.safe_read(src, size) {
        Ok(v) => v,
        Err(e) => return Err(e),
    };
    ports.write(port, size, v);
    proof {
        assert(ports.log@.subrange(0, a) =~= log0);
        assert(ports.log@[a + 1 + 0] == PortEvent::Write {
            port: port,
            size: size,
            value: mem@.read_value(src_unit(*old(cpu), ctx, size, 0), size),
        });
    }
    step_index(cpu, ESI, a32, forward, size);
    proof {
        assert(cpu.reg32@ =~= moved_once(*old(cpu), ctx, size, true, false));
    }
    Ok(())
}

/// One dispatch of a repeated byte input from port DX to ES:EDI.
pub fn insb_rep<P: PortIo>(
    cpu: &mut Cpu,
    mem: &mut Memory,
    ports: &mut IoPorts<P>,
    ctx: StringContext,
) -> (r: Result<(), CpuException>)
    requires
        old(mem)@.wf(),
    ensures
        in_rep_post(
            *old(cpu),
            *final(cpu),
            old(mem)@,
            final(mem)@,
            ctx,
            1,
            old(ports).log@,
            final(ports).log@,
            r,
        ),
{
    in_rep(cpu, mem, ports, ctx, 1)
}

/// A single byte input from port DX to ES:EDI.
pub fn insb_no_rep<P: PortIo>(
    cpu: &mut Cpu,
    mem: &mut Memory,
    ports: &mut IoPorts<P>,
    ctx: StringContext,
) -> (r: Result<(), CpuException>)
    requires
        old(mem)@.wf(),
    ensures
        in_once_post(
            *old(cpu),
            *final(cpu),
            old(mem)@,
            final(mem)@,
            ctx,
            1,
            old(ports).log@,
            final(ports).log@,
            r,
        ),
{
    in_once(cpu, mem, ports, ctx, 1)
}

/// One dispatch of a repeated byte output from DS:ESI to port DX.
pub fn outsb_rep<P: PortIo>(
    cpu: &mut Cpu,
    mem: &Memory,
    ports: &mut IoPorts<P>,
    ctx: StringContext,
) -> (r: Result<(), CpuException>)
    requires
        mem@.wf(),
    ensures
        out_rep_post(*old(cpu), *final(cpu), mem@, ctx, 1, old(ports).log@, final(ports).log@, r),
{
    out_rep(cpu, mem, ports, ctx, 1)
}

/// A single byte output from DS:ESI to port DX.
pub fn outsb_no_rep<P: PortIo>(
    cpu: &mut Cpu,
    mem: &Memory,
    ports: &mut IoPorts<P>,
    ctx: StringContext,
) -> (r: Result<(), CpuException>)
    requires
        mem@.wf(),
    ensures
        out_once_post(*old(cpu), *final(cpu), mem@, ctx, 1, old(ports).log@, final(ports).log@, r),
{
    out_once(cpu, mem, ports, ctx, 1)
}

/// One dispatch of a repeated word input from port DX to ES:EDI.
pub fn insw_rep<P: PortIo>(
    cpu: &mut Cpu,
    mem: &mut Memory,
    ports: &mut IoPorts<P>,
    ctx: StringContext,
) -> (r: Result<(), CpuException>)
    requires
        old(mem)@.wf(),
    ensures
        in_rep_post(
            *old(cpu),
            *final(cpu),
            old(mem)@,
            final(mem)@,
            ctx,
            2,
            old(ports).log@,
            final(ports).log@,
            r,
        ),
{
    in_rep(cpu, mem, ports, ctx, 2)
}

/// A single word input from port DX to ES:EDI.
pub fn insw_no_rep<P: PortIo>(
    cpu: &mut Cpu,
    mem: &mut Memory,
    ports: &mut IoPorts<P>,
    ctx: StringContext,
) -> (r: Result<(), CpuException>)
    requires
        old(mem)@.wf(),
    ensures
        in_once_post(
            *old(cpu),
            *final(cpu),
            old(mem)@,
            final(mem)@,
            ctx,
            2,
            old(ports).log@,
            final(ports).log@,
            r,
        ),
{
    in_once(cpu, mem, ports, ctx, 2)
}

/// One dispatch of a repeated word output from DS:ESI to port DX.
pub fn outsw_rep<P: PortIo>(
    cpu: &mut Cpu,
    mem: &Memory,
    ports: &mut IoPorts<P>,
    ctx: StringContext,
) -> (r: Result<(), CpuException>)
    requires
        mem@.wf(),
    ensures
        out_rep_post(*old(cpu), *final(cpu), mem@, ctx, 2, old(ports).log@, final(ports).log@, r),
{
    out_rep(cpu, mem, ports, ctx, 2)
}

/// A single word output from DS:ESI to port DX.
pub fn outsw_no_rep<P: PortIo>(
    cpu: &mut Cpu,
    mem: &Memory,
    ports: &mut IoPorts<P>,
    ctx: StringContext,
) -> (r: Result<(), CpuException>)
    requires
        mem@.wf(),
    ensures
        out_once_post(*old(cpu), *final(cpu), mem@, ctx, 2, old(ports).log@, final(ports).log@, r),
{
    out_once(cpu, mem, ports, ctx, 2)
}

/// One dispatch of a repeated dword input from port DX to ES:EDI.
pub fn insd_rep<P: PortIo>(
    cpu: &mut Cpu,
    mem: &mut Memory,
    ports: &mut IoPorts<P>,
    ctx: StringContext,
) -> (r: Result<(), CpuException>)
    requires
        old(mem)@.wf(),
    ensures
        in_rep_post(
            *old(cpu),
            *final(cpu),
            old(mem)@,
            final(mem)@,
            ctx,
            4,
            old(ports).log@,
            final(ports).log@,
            r,
        ),
{
    in_rep(cpu, mem, ports, ctx, 4)
}

/// A single dword input from port DX to ES:EDI.
pub fn insd_no_rep<P: PortIo>(
    cpu: &mut Cpu,
    mem: &mut Memory,
    ports: &mut IoPorts<P>,
    ctx: StringContext,
) -> (r: Result<(), CpuException>)
    requires
        old(mem)@.wf(),
    ensures
        in_once_post(
            *old(cpu),
            *final(cpu),
            old(mem)@,
            final(mem)@,
            ctx,
            4,
            old(ports).log@,
            final(ports).log@,
            r,
        ),
{
    in_once(cpu, mem, ports, ctx, 4)
}

/// One dispatch of a repeated dword output from DS:ESI to port DX.
pub fn outsd_rep<P: PortIo>(
    cpu: &mut Cpu,
    mem: &Memory,
    ports: &mut IoPorts<P>,
    ctx: StringContext,
) -> (r: Result<(), CpuException>)
    requires
        mem@.wf(),
    ensures
        out_rep_post(*old(cpu), *final(cpu), mem@, ctx, 4, old(ports).log@, final(ports).log@, r),
{
    out_rep(cpu, mem, ports, ctx, 4)
}

/// A single dword output from DS:ESI to port DX.
pub fn outsd_no_rep<P: PortIo>(
    cpu: &mut Cpu,
    mem: &Memory,
    ports: &mut IoPorts<P>,
    ctx: StringContext,
) -> (r: Result<(), CpuException>)
    requires
        mem@.wf(),
    ensures
        out_once_post(*old(cpu), *final(cpu), mem@, ctx, 4, old(ports).log@, final(ports).log@, r),
{
    out_once(cpu, mem, ports, ctx, 4)
}

/// With 32-bit addresses, moving up, and both pointers at the start of a
/// page, one dispatch of a move of units of `size` bytes performs the whole
/// count up to a page: 4096 bytes, 2048 words or 1024 dwords.
pub proof fn law_movs_chunk_on_page_start(c: Cpu, ctx: StringContext, size: u32)
    requires
        valid_unit(size),
        ctx.address_size_32,
        !backward(c),
        src_unit(c, ctx, size, 0) % 4096 == 0,
        dst_unit(c, ctx, size, 0) % 4096 == 0,
    ensures
        transfer_chunk(c, ctx, size, None) == lesser(count_of(c, ctx) as int, 4096int / size as int),
{
    assert(src_unit(c, ctx, size, 0) % size == 0 && dst_unit(c, ctx, size, 0) % size == 0)
        by (nonlinear_arith)
        requires
            src_unit(c, ctx, size, 0) % 4096 == 0,
            dst_unit(c, ctx, size, 0) % 4096 == 0,
            size == 1 || size == 2 || size == 4,
    ;
}

/// After a dispatch of a move that performed a whole page from the start of
/// a page, both pointers are at the start of the next page and the count is
/// down by a page of units: the next dispatch starts as this one did.
pub proof fn law_movs_next_chunk(c0: Cpu, c1: Cpu, ctx: StringContext, size: u32, restart: bool)
    requires
        valid_unit(size),
        ctx.address_size_32,
        !backward(c0),
        src_unit(c0, ctx, size, 0) % 4096 == 0,
        dst_unit(c0, ctx, size, 0) % 4096 == 0,
        count_of(c0, ctx) >= 4096int / size as int,
        progressed(c0, c1, ctx, size, 4096int / size as int, true, true, restart),
    ensures
        !backward(c1),
        src_unit(c1, ctx, size, 0) % 4096 == 0,
        dst_unit(c1, ctx, size, 0) % 4096 == 0,
        count_of(c1, ctx) == count_of(c0, ctx) - 4096int / size as int,
{
    reveal(progressed);
    reveal(unit_addr);
    let n: int = 0x1_0000_0000;
    let si = c0.reg(ESI as int) as int;
    let di = c0.reg(EDI as int) as int;
    let sb = ctx.source_base as int;
    let db = ctx.dest_base as int;
    assert((4096int / size as int) * step_of(c0, size) == 4096) by (nonlinear_arith)
        requires
            size == 1 || size == 2 || size == 4,
            step_of(c0, size) == size,
    ;
    assert(c1.reg(ESI as int) == (si + 4096) % n);
    assert(c1.reg(EDI as int) == (di + 4096) % n);
    vstd::arithmetic::div_mod::lemma_small_mod(si as nat, n as nat);
    vstd::arithmetic::div_mod::lemma_small_mod(di as nat, n as nat);
    vstd::arithmetic::div_mod::lemma_add_mod_noop_right(sb, si + 4096, n);
    vstd::arithmetic::div_mod::lemma_add_mod_noop_right(db, di + 4096, n);
    vstd::arithmetic::div_mod::lemma_small_mod(((si + 4096) % n) as nat, n as nat);
    vstd::arithmetic::div_mod::lemma_small_mod(((di + 4096) % n) as nat, n as nat);
    let s0 = (sb + si) % n;
    let d0 = (db + di) % n;
    assert(src_unit(c0, ctx, size, 0) == s0);
    assert(dst_unit(c0, ctx, size, 0) == d0);
    assert(src_unit(c1, ctx, size, 0) == (sb + si + 4096) % n);
    assert(dst_unit(c1, ctx, size, 0) == (db + di + 4096) % n);
    vstd::arithmetic::div_mod::lemma_add_mod_noop(sb + si, 4096, n);
    vstd::arithmetic::div_mod::lemma_add_mod_noop(db + di, 4096, n);
    assert(((sb + si + 4096) % n) % 4096 == 0) by (nonlinear_arith)
        requires
            s0 == (sb + si) % n,
            s0 % 4096 == 0,
            (sb + si + 4096) % n == (s0 + 4096) % n,
            n == 0x1_0000_0000,
    ;
    assert(((db + di + 4096) % n) % 4096 == 0) by (nonlinear_arith)
        requires
            d0 == (db + di) % n,
            d0 % 4096 == 0,
            (db + di + 4096) % n == (d0 + 4096) % n,
            n == 0x1_0000_0000,
    ;
}

/// Dispatches that a count of `n` needs when each performs at most `cap`.
pub open spec fn dispatch_count(n: nat, cap: nat) -> nat
    decreases n,
{
    if n <= cap || cap == 0 {
        1
    } else {
        1 + dispatch_count((n - cap) as nat, cap)
    }
}

/// A count of `n` needs `ceil(n / cap)` dispatches of at most `cap` each.
pub proof fn law_dispatch_count(n: nat, cap: nat)
    requires
        n >= 1,
        cap >= 1,
    ensures
        dispatch_count(n, cap) == (n + cap - 1) as int / cap as int,
    decreases n,
{
    if n <= cap {
        vstd::arithmetic::div_mod::lemma_fundamental_div_mod_converse(
            (n + cap - 1) as int,
            cap as int,
            1,
            (n - 1) as int,
        );
    } else {
        law_dispatch_count((n - cap) as nat, cap);
        vstd::arithmetic::div_mod::lemma_fundamental_div_mod((n - 1) as int, cap as int);
        vstd::arithmetic::div_mod::lemma_mod_pos_bound((n - 1) as int, cap as int);
        let q = (n - 1) as int / cap as int;
        let r = (n - 1) as int % cap as int;
        assert((n - 1) as int == q * cap + r) by (nonlinear_arith)
            requires
                (n - 1) as int == cap * q + r,
        ;
        assert((n + cap - 1) as int == (q + 1) * cap + r) by (nonlinear_arith)
            requires
                (n - 1) as int == q * cap + r,
        ;
        vstd::arithmetic::div_mod::lemma_fundamental_div_mod_converse(
            (n + cap - 1) as int,
            cap as int,
            q + 1,
            r,
        );
        assert((n - cap + cap - 1) as int == q * cap + r);
    }
}


/// The dispatches `cs[i]` to `cs[i + 1]` of a repeated move that did not
/// fault, each one dispatched again while the count was not zero.
pub open spec fn move_dispatches(
    cs: Seq<Cpu>,
    ms: Seq<MemView>,
    ctx: StringContext,
    size: u32,
) -> bool {
    &&& cs.len() >= 2
    &&& ms.len() == cs.len()
    &&& forall|i: int|
        0 <= i < cs.len() - 1 ==> #[trigger] transfer_rep_post(
            cs[i],
            cs[i + 1],
            ms[i],
            ms[i + 1],
            ctx,
            size,
            None,
            Ok(()),
        )
    &&& forall|i: int| 0 <= i < cs.len() - 1 ==> #[trigger] count_of(cs[i], ctx) > 0
    &&& count_of(cs[cs.len() - 1], ctx) == 0
}

/// A move of `N` units, with 32-bit addresses, moving up, from the start of a
/// page to the start of a page, takes exactly `ceil(N / (4096 / size))`
/// dispatches; every dispatch but the last asks to be dispatched again.
pub proof fn law_move_dispatch_count(cs: Seq<Cpu>, ms: Seq<MemView>, ctx: StringContext, size: u32)
    requires
        valid_unit(size),
        ctx.address_size_32,
        move_dispatches(cs, ms, ctx, size),
        !backward(cs[0]),
        src_unit(cs[0], ctx, size, 0) % 4096 == 0,
        dst_unit(cs[0], ctx, size, 0) % 4096 == 0,
    ensures
        cs.len() - 1 == dispatch_count(count_of(cs[0], ctx) as nat, (4096int / size as int) as nat),
        cs.len() - 1 == (count_of(cs[0], ctx) + 4096int / size as int - 1) / (4096int / size as int),
        forall|i: int|
            0 <= i < cs.len() - 2 ==> #[trigger] cs[i + 1].instruction_pointer == cs[i].previous_ip,
        cs[cs.len() - 1].instruction_pointer == cs[cs.len() - 2].instruction_pointer,
{
    lemma_move_dispatches_from(cs, ms, ctx, size, 0);
    assert(4096int / size as int >= 1) by (nonlinear_arith)
        requires
            size == 1 || size == 2 || size == 4,
    ;
    law_dispatch_count(count_of(cs[0], ctx) as nat, (4096int / size as int) as nat);
}

proof fn lemma_move_dispatches_from(
    cs: Seq<Cpu>,
    ms: Seq<MemView>,
    ctx: StringContext,
    size: u32,
    i: int,
)
    requires
        valid_unit(size),
        ctx.address_size_32,
        move_dispatches(cs, ms, ctx, size),
        0 <= i < cs.len() - 1,
        !backward(cs[i]),
        src_unit(cs[i], ctx, size, 0) % 4096 == 0,
        dst_unit(cs[i], ctx, size, 0) % 4096 == 0,
    ensures
        cs.len() - 1 - i == dispatch_count(count_of(cs[i], ctx) as nat, (4096int / size as int) as nat),
        forall|j: int|
            i <= j < cs.len() - 2 ==> #[trigger] cs[j + 1].instruction_pointer == cs[j].previous_ip,
        cs[cs.len() - 1].instruction_pointer == cs[cs.len() - 2].instruction_pointer,
    decreases cs.len() - 1 - i,
{
    let cap = 4096int / size as int;
    assert(cap >= 1) by (nonlinear_arith)
        requires
            size == 1 || size == 2 || size == 4,
            cap == 4096int / size as int,
    ;
    let c = count_of(cs[i], ctx) as int;
    assert(transfer_rep_post(cs[i], cs[i + 1], ms[i], ms[i + 1], ctx, size, None, Ok(())));
    assert(count_of(cs[i], ctx) > 0);
    law_movs_chunk_on_page_start(cs[i], ctx, size);
    let k = transfer_chunk(cs[i], ctx, size, None);
    assert(transfer_ok(ms[i], cs[i], ctx, size, None, k));
    assert(progressed(cs[i], cs[i + 1], ctx, size, k, true, true, c > k));
    assert(count_of(cs[i + 1], ctx) == c - k) by {
        reveal(progressed);
        vstd::arithmetic::div_mod::lemma_small_mod((c - k) as nat, 0x1_0000_0000nat);
    }
    assert(cs[i + 1].instruction_pointer == if c > k {
        cs[i].previous_ip
    } else {
        cs[i].instruction_pointer
    }) by {
        reveal(progressed);
    }
    if c <= cap {
        if i + 1 < cs.len() - 1 {
            assert(count_of(cs[i + 1], ctx) > 0);
        }
        assert(cs.len() - 1 - i == 1);
        assert(dispatch_count(c as nat, cap as nat) == 1);
    } else {
        assert(k == cap);
        if i + 1 == cs.len() - 1 {
            assert(count_of(cs[i + 1], ctx) == 0);
        }
        law_movs_next_chunk(cs[i], cs[i + 1], ctx, size, true);
        lemma_move_dispatches_from(cs, ms, ctx, size, i + 1);
        assert(dispatch_count(c as nat, cap as nat) == 1 + dispatch_count((c - cap) as nat, cap as nat));
        assert(count_of(cs[i + 1], ctx) as nat == (c - cap) as nat);
    }
}

} // verus!
