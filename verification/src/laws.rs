use vstd::prelude::*;

use crate::chip8::{
    advance, can_execute, draw_hit, sat_sub, draw_lines, draw_row, fetch, flag, i_reg, pc, popped,
    press_keys, pushed, reset, row_hit, run, set_word, sp, sprite_row, stack_top, time, timers, v,
    vaddr, vf_addr, word, TICK_MS,
};
use crate::memops::{lemma_load_store, lemma_pow256_values, load, store, store_be, Region, MEM_SIZE};
use crate::opcode::{decode, OpCode};

verus! {

/// A fresh machine has its program counter at the program's start, the
/// given time of update, and every other byte 0.
pub proof fn lemma_fresh_machine(now: u64)
    ensures
        ({
            let m = store_be(reset(), Region::Time.start() as int, now as nat, 8);
            &&& m.len() == MEM_SIZE
            &&& pc(m) == 0x200
            &&& time(m) == now
            &&& forall|j: int|
                0 <= j < MEM_SIZE && !(Region::PC.start() <= j < Region::PC.start() + 2) && !(
                Region::Time.start() <= j < Region::Time.start() + 8) ==> #[trigger] m[j] == 0
        }),
        pc(reset()) == 0x200,
        forall|j: int|
            0 <= j < MEM_SIZE && !(Region::PC.start() <= j < Region::PC.start() + 2)
                ==> #[trigger] reset()[j] == 0,
{
    let m0 = reset();
    lemma_pow256_values();
    lemma_load_store(m0, Region::Time.start() as int, now as nat, 8);
    vstd::arithmetic::div_mod::lemma_small_mod(now as nat, 0x1_0000_0000_0000_0000);
}


/// A call followed by a return comes back to where the call was made: the
/// whole machine is as before the call, but for the stack slot that kept
/// the return address.
pub proof fn lemma_call_then_return(m: Seq<u8>, at: u16, r1: u8, r2: u8)
    requires
        m.len() == MEM_SIZE,
        can_execute(m, OpCode::Call { at }),
    ensures
        pc(run(m, OpCode::Call { at }, r1)) == at,
        sp(run(m, OpCode::Call { at }, r1)) == sp(m) + 2,
        can_execute(run(m, OpCode::Call { at }, r1), OpCode::Return),
        run(run(m, OpCode::Call { at }, r1), OpCode::Return, r2) == set_word(
            m,
            Region::Stack.start() + sp(m),
            pc(m),
        ),
{
    reveal(can_execute);
    reveal(run);
    let m1 = run(m, OpCode::Call { at }, r1);
    let m2 = run(m1, OpCode::Return, r2);
    assert(m2 =~= set_word(m, Region::Stack.start() + sp(m), pc(m)));
}

/// Pushing the program counter and popping it again gives the program
/// counter back, and leaves the machine as it was but for the stack slot
/// that kept it.
pub proof fn lemma_push_then_pop(m: Seq<u8>)
    requires
        m.len() == MEM_SIZE,
        sp(m) < 32,
    ensures
        stack_top(pushed(m)) == pc(m),
        popped(pushed(m)) == set_word(m, Region::Stack.start() + sp(m), pc(m)),
{
    assert(popped(pushed(m)) =~= set_word(m, Region::Stack.start() + sp(m), pc(m)));
}

/// Storing V0..=V`upto` at I and loading them back from the same address
/// gives the registers their old values, unless the stored bytes reach the
/// address register I itself.
pub proof fn lemma_save_then_load(m: Seq<u8>, upto: u8, r1: u8, r2: u8)
    requires
        m.len() == MEM_SIZE,
        can_execute(m, OpCode::SaveRegs { upto }),
        i_reg(m) + upto < Region::I.start() || i_reg(m) > Region::I.start() + 1,
    ensures
        ({
            let i = i_reg(m);
            let m1 = set_word(
                run(m, OpCode::SaveRegs { upto }, r1),
                Region::I.start() as int,
                i,
            );
            let m2 = run(m1, OpCode::LoadRegs { upto }, r2);
            &&& can_execute(m1, OpCode::LoadRegs { upto })
            &&& i_reg(m2) == i + upto + 1
            &&& forall|k: u8| k <= upto ==> #[trigger] v(m2, k) == v(m, k)
        }),
{
    reveal(can_execute);
    reveal(run);
    let i = i_reg(m);
    let m1 = set_word(run(m, OpCode::SaveRegs { upto }, r1), Region::I.start() as int, i);
    let m2 = run(m1, OpCode::LoadRegs { upto }, r2);
    assert forall|k: u8| k <= upto implies #[trigger] v(m2, k) == v(m, k) by {
        assert(m2[vaddr(k)] == m1[i + k]);
    }
}

/// Drawing the same sprite line twice at the same place leaves the screen
/// row as it was: sprites are XORed onto the screen.
pub proof fn lemma_draw_row_twice(m: Seq<u8>, line: int, sprite: u8, x: u8)
    requires
        m.len() == MEM_SIZE,
        0 <= line <= 248,
    ensures
        ({
            let at = Region::Display.start() + line;
            load(draw_row(draw_row(m, line, sprite, x), line, sprite, x), at, 8) == load(m, at, 8)
        }),
{
    let at = Region::Display.start() + line;
    lemma_pow256_values();
    let screen = load(m, at, 8) as u64;
    crate::memops::lemma_be_value_bound(m.subrange(at, at + 8));
    let s = sprite_row(sprite, x);
    let xor = s ^ screen;
    lemma_load_store(m, at, xor as nat, 8);
    let m1 = draw_row(m, line, sprite, x);
    vstd::arithmetic::div_mod::lemma_small_mod(xor as nat, 0x1_0000_0000_0000_0000);
    assert(load(m1, at, 8) == xor);
    let xor2 = s ^ xor;
    assert(s ^ (s ^ screen) == screen) by (bit_vector);
    lemma_load_store(m1, at, xor2 as nat, 8);
    vstd::arithmetic::div_mod::lemma_small_mod(xor2 as nat, 0x1_0000_0000_0000_0000);
}

/// A sprite line turns a lit pixel off exactly when it shares a lit pixel
/// with the screen row it is drawn onto; then the pixel is dark after the
/// drawing.
pub proof fn lemma_row_hit_turns_off(m: Seq<u8>, line: int, sprite: u8, x: u8)
    requires
        m.len() == MEM_SIZE,
        0 <= line <= 248,
    ensures
        ({
            let at = Region::Display.start() + line;
            let before = load(m, at, 8) as u64;
            let after = load(draw_row(m, line, sprite, x), at, 8) as u64;
            row_hit(m, line, sprite, x) <==> before & !after != 0
        }),
{
    let at = Region::Display.start() + line;
    lemma_pow256_values();
    let screen = load(m, at, 8) as u64;
    let s = sprite_row(sprite, x);
    let xor = s ^ screen;
    lemma_load_store(m, at, xor as nat, 8);
    vstd::arithmetic::div_mod::lemma_small_mod(xor as nat, 0x1_0000_0000_0000_0000);
    assert((screen & s != 0) == (screen & !(s ^ screen) != 0)) by (bit_vector);
}

/// The three bytes that `BCD` stores at I are the hundreds, tens and ones
/// digits of VX.
pub proof fn lemma_bcd_digits(m: Seq<u8>, of: u8, r: u8)
    requires
        m.len() == MEM_SIZE,
        can_execute(m, OpCode::BCD { of }),
    ensures
        ({
            let i = i_reg(m) as int;
            let m1 = run(m, OpCode::BCD { of }, r);
            &&& m1[i] < 10 && m1[i + 1] < 10 && m1[i + 2] < 10
            &&& m1[i] * 100 + m1[i + 1] * 10 + m1[i + 2] == v(m, of)
        }),
{
    reveal(can_execute);
    reveal(run);
    let x = v(m, of);
    assert((x / 100 % 10) * 100 + (x / 10 % 10) * 10 + x % 10 == x) by (nonlinear_arith)
        requires
            x < 256,
    ;
}

/// `Add` keeps the carry: VF * 256 + VX is the full sum (for X other than F).
pub proof fn lemma_add_carry(m: Seq<u8>, a: u8, b: u8, r: u8)
    requires
        m.len() == MEM_SIZE,
        can_execute(m, OpCode::Add { a, b }),
        a != 0xf,
    ensures
        ({
            let m1 = run(m, OpCode::Add { a, b }, r);
            v(m1, 0xf) * 256 + v(m1, a) == v(m, a) + v(m, b)
        }),
{
    reveal(can_execute);
    reveal(run);
}

/// `Sub` keeps the borrow: VX is the difference, plus 256 when VF says that
/// the subtraction underflowed (for X other than F).
pub proof fn lemma_sub_borrow(m: Seq<u8>, a: u8, b: u8, r: u8)
    requires
        m.len() == MEM_SIZE,
        can_execute(m, OpCode::Sub { a, b }),
        a != 0xf,
    ensures
        ({
            let m1 = run(m, OpCode::Sub { a, b }, r);
            &&& v(m1, 0xf) <= 1
            &&& v(m1, a) == v(m, a) - v(m, b) + 256 * (1 - v(m1, 0xf))
        }),
{
    reveal(can_execute);
    reveal(run);
}

/// The timers never grow, and no tick is lost between updates: the time of
/// update moves on by whole ticks only and stays less than one tick behind
/// the present.
pub proof fn lemma_timers_keep_ticks(m: Seq<u8>, now: u64)
    requires
        m.len() == MEM_SIZE,
        now >= time(m),
    ensures
        ({
            let m1 = timers(m, now);
            &&& m1[Region::DT.start() as int] <= m[Region::DT.start() as int]
            &&& m1[Region::ST.start() as int] <= m[Region::ST.start() as int]
            &&& time(m) <= time(m1) <= now
            &&& now - time(m1) < TICK_MS
            &&& (time(m1) - time(m)) % TICK_MS as int == 0
        }),
{
    let at = Region::Time.start() as int;
    let elapsed = now - time(m);
    let t = (now - elapsed % TICK_MS as int) as nat;
    lemma_pow256_values();
    let m0 = store_be(m, at, t, 8);
    lemma_load_store(m, at, t, 8);
    vstd::arithmetic::div_mod::lemma_small_mod(t, 0x1_0000_0000_0000_0000);
    let m1 = timers(m, now);
    assert(m1.subrange(at, at + 8) =~= m0.subrange(at, at + 8));
    vstd::arithmetic::div_mod::lemma_fundamental_div_mod(elapsed, TICK_MS as int);
    assert(time(m1) - time(m) == TICK_MS * (elapsed / TICK_MS as int));
    vstd::arithmetic::div_mod::lemma_mod_multiples_basic(elapsed / TICK_MS as int, TICK_MS as int);
}

/// The timers count down by one for each whole 16 ms tick since their
/// last update, at most 255 ticks and never below 0; the time of update
/// moves to the last whole tick, and no byte but the two timers and the
/// time of update changes.
pub proof fn lemma_timer_ticks(m: Seq<u8>, now: u64)
    requires
        m.len() == MEM_SIZE,
        now >= time(m),
    ensures
        ({
            let m1 = timers(m, now);
            let ticks = if (now - time(m)) / 16 > 255 {
                255
            } else {
                (now - time(m)) / 16
            };
            let dt = Region::DT.start() as int;
            let st = Region::ST.start() as int;
            let at = Region::Time.start() as int;
            &&& m1[dt] == if m[dt] >= ticks {
                m[dt] - ticks
            } else {
                0
            }
            &&& m1[st] == if m[st] >= ticks {
                m[st] - ticks
            } else {
                0
            }
            &&& time(m1) == now - (now - time(m)) % 16
            &&& m1.len() == MEM_SIZE
            &&& forall|j: int|
                0 <= j < MEM_SIZE && j != dt && j != st && !(at <= j < at + 8) ==> #[trigger] m1[j]
                    == m[j]
        }),
{
    let at = Region::Time.start() as int;
    let elapsed = now - time(m);
    let t = (now - elapsed % TICK_MS as int) as nat;
    lemma_pow256_values();
    lemma_load_store(m, at, t, 8);
    vstd::arithmetic::div_mod::lemma_small_mod(t, 0x1_0000_0000_0000_0000);
    let m1 = timers(m, now);
    assert(m1.subrange(at, at + 8) =~= store_be(m, at, t, 8).subrange(at, at + 8));
}

/// Running the timers until `t1` and then until `t2` leaves the machine as
/// one run until `t2` does: splitting the time into two runs loses no tick.
pub proof fn lemma_timers_compose(m: Seq<u8>, t1: u64, t2: u64)
    requires
        m.len() == MEM_SIZE,
        time(m) <= t1 <= t2,
    ensures
        timers(timers(m, t1), t2) == timers(m, t2),
{
    let at = Region::Time.start() as int;
    let t0 = time(m);
    let e1 = t1 - t0;
    let e = t2 - t0;
    let m1 = timers(m, t1);
    let m2 = timers(m1, t2);
    let m3 = timers(m, t2);
    lemma_pow256_values();
    let tp = (t1 - e1 % TICK_MS as int) as nat;
    lemma_load_store(m, at, tp, 8);
    vstd::arithmetic::div_mod::lemma_small_mod(tp, 0x1_0000_0000_0000_0000);
    assert(m1.subrange(at, at + 8) =~= store_be(m, at, tp, 8).subrange(at, at + 8));
    assert(time(m1) == tp);
    vstd::arithmetic::div_mod::lemma_fundamental_div_mod(e1, TICK_MS as int);
    vstd::arithmetic::div_mod::lemma_fundamental_div_mod(e, TICK_MS as int);
    let a = e1 / TICK_MS as int;
    let e2 = t2 - tp;
    assert(e2 == e - 16 * a);
    vstd::arithmetic::div_mod::lemma_fundamental_div_mod(e2, TICK_MS as int);
    assert(e2 / 16 == e / 16 - a && e2 % 16 == e % 16) by {
        let q = e / 16 - a;
        let r = e % 16;
        assert(e2 == q * 16 + r);
        vstd::arithmetic::div_mod::lemma_fundamental_div_mod_converse_div(e2, 16, q, r);
        vstd::arithmetic::div_mod::lemma_fundamental_div_mod_converse_mod(e2, 16, q, r);
    }
    let dt = Region::DT.start() as int;
    let st = Region::ST.start() as int;
    let cap = |x: int| if x > 255 {
        255u8
    } else {
        x as u8
    };
    assert forall|d: u8| #[trigger] sat_sub(sat_sub(d, cap(a)), cap(e / 16 - a)) == sat_sub(
        d,
        cap(e / 16),
    ) by {
        assert(0 <= a <= e / 16);
    }
    assert(m2[dt] == m3[dt]);
    assert(m2[st] == m3[st]);
    let t_end = (t2 - e2 % TICK_MS as int) as nat;
    assert(t_end == (t2 - e % TICK_MS as int) as nat);
    crate::memops::lemma_be_roundtrip(t_end, 8);
    crate::memops::lemma_be_roundtrip(tp, 8);
    assert forall|j: int| 0 <= j < MEM_SIZE implies m2[j] == m3[j] by {
        if j != dt && j != st && !(at <= j < at + 8) {
            assert(m2[j] == m1[j]);
            assert(m1[j] == m[j]);
        }
    }
    assert(m2 =~= m3);
}

/// After the keyboard reports the pressed keys, the keys bitmap holds
/// them, and the key register names the lowest newly pressed key (16 when
/// no key is newly pressed, as when the same keys are still held).
pub proof fn lemma_load_key_lowest(m: Seq<u8>, keys: u16)
    requires
        m.len() == MEM_SIZE,
    ensures
        ({
            let newly = !word(m, Region::Keys.start() as int) & keys;
            let m1 = press_keys(m, keys);
            let k = m1[Region::KEY.start() as int];
            &&& word(m1, Region::Keys.start() as int) == keys
            &&& newly == 0 <==> k == 16
            &&& newly != 0 ==> (newly >> (k as u16)) & 1 == 1
            &&& forall|j: u16| j < k ==> #[trigger] ((newly >> j) & 1) == 0
            &&& word(m, Region::Keys.start() as int) == keys ==> k == 16
        }),
{
    let old_keys = word(m, Region::Keys.start() as int);
    let newly = !old_keys & keys;
    vstd::std_specs::bits::axiom_u16_trailing_zeros(newly);
    let x = keys;
    assert(((x / 256) as u8) * 256 + ((x % 256) as u8) == x);
    assert(old_keys == keys ==> !old_keys & keys == 0) by (bit_vector);
}


/// Clearing the screen turns every display byte off and touches nothing
/// else.
pub proof fn lemma_clear_only_display(m: Seq<u8>, r: u8)
    requires
        m.len() == MEM_SIZE,
    ensures
        ({
            let m1 = run(m, OpCode::Clear, r);
            &&& m1.len() == MEM_SIZE
            &&& forall|j: int|
                Region::Display.start() <= j < MEM_SIZE ==> #[trigger] m1[j] == 0
            &&& forall|j: int| 0 <= j < Region::Display.start() ==> #[trigger] m1[j] == m[j]
        }),
{
    reveal(run);
}

/// The skip instructions move the program counter past the next
/// instruction exactly when their condition holds, and change nothing else.
pub proof fn lemma_skips(m: Seq<u8>, op: OpCode, r: u8)
    requires
        m.len() == MEM_SIZE,
        can_execute(m, op),
        op is SkipEqK || op is SkipNotEqK || op is SkipEq || op is SkipNotEq || op is SkipPressed
            || op is SkipNotPressed,
    ensures
        ({
            let key = m[Region::KEY.start() as int];
            let cond = match op {
                OpCode::SkipEqK { reg, val } => v(m, reg) == val,
                OpCode::SkipNotEqK { reg, val } => v(m, reg) != val,
                OpCode::SkipEq { a, b } => v(m, a) == v(m, b),
                OpCode::SkipNotEq { a, b } => v(m, a) != v(m, b),
                OpCode::SkipPressed { key: k } => v(m, k) == key,
                OpCode::SkipNotPressed { key: k } => v(m, k) != key,
                _ => false,
            };
            &&& cond ==> run(m, op, r) == advance(m) && pc(run(m, op, r)) == pc(m) + 2
            &&& !cond ==> run(m, op, r) == m
        }),
{
    reveal(can_execute);
    reveal(run);
    let x = (pc(m) + 2) as u16;
    assert(((x / 256) as u8) * 256 + ((x % 256) as u8) == x);
}

/// `IncV` adds without flagging an overflow: VF keeps its value (for X
/// other than F).
pub proof fn lemma_inc_keeps_flag(m: Seq<u8>, reg: u8, by: u8, r: u8)
    requires
        m.len() == MEM_SIZE,
        can_execute(m, OpCode::IncV { reg, by }),
        reg != 0xf,
    ensures
        v(run(m, OpCode::IncV { reg, by }, r), 0xf) == v(m, 0xf),
        v(run(m, OpCode::IncV { reg, by }, r), reg) == (v(m, reg) + by) % 256,
{
    reveal(can_execute);
    reveal(run);
}

/// `GetRand` gives VX no bit outside the mask, whatever the random byte.
pub proof fn lemma_rand_within_mask(m: Seq<u8>, reg: u8, mask: u8, r: u8)
    requires
        m.len() == MEM_SIZE,
        can_execute(m, OpCode::GetRand { reg, mask }),
    ensures
        v(run(m, OpCode::GetRand { reg, mask }, r), reg) & !mask == 0,
{
    reveal(can_execute);
    reveal(run);
    assert((r & mask) & !mask == 0) by (bit_vector);
}

/// The shifts keep the bit they shift out in VF: for `ShiftR`, VY is
/// 2 * VX + VF; for `ShiftL`, 2 * VY is 256 * VF + VX (for X other than F).
pub proof fn lemma_shift_flags(m: Seq<u8>, a: u8, b: u8, r: u8)
    requires
        m.len() == MEM_SIZE,
        can_execute(m, OpCode::ShiftR { a, b }),
        a != 0xf,
    ensures
        ({
            let m1 = run(m, OpCode::ShiftR { a, b }, r);
            v(m1, a) * 2 + v(m1, 0xf) == v(m, b) && v(m1, 0xf) <= 1
        }),
        ({
            let m1 = run(m, OpCode::ShiftL { a, b }, r);
            v(m1, 0xf) * 256 + v(m1, a) == v(m, b) * 2 && v(m1, 0xf) <= 1
        }),
{
    reveal(can_execute);
    reveal(run);
}

/// `SubN` keeps the borrow: VX is VY - VX, plus 256 when VF says that the
/// subtraction underflowed (for X other than F).
pub proof fn lemma_subn_borrow(m: Seq<u8>, a: u8, b: u8, r: u8)
    requires
        m.len() == MEM_SIZE,
        can_execute(m, OpCode::SubN { a, b }),
        a != 0xf,
    ensures
        ({
            let m1 = run(m, OpCode::SubN { a, b }, r);
            &&& v(m1, 0xf) <= 1
            &&& v(m1, a) == v(m, b) - v(m, a) + 256 * (1 - v(m1, 0xf))
        }),
{
    reveal(can_execute);
    reveal(run);
}


/// The screen row `line` (0..32) as a 64-bit number.
pub open spec fn row(m: Seq<u8>, line: int) -> u64 {
    load(m, Region::Display.start() + 8 * line, 8) as u64
}

/// Every byte that a sprite line is read from lies below the display.
pub open spec fn sprite_source_apart(i: int, size: u8) -> bool {
    forall|k: int| 0 <= k < size ==> 0 <= #[trigger] (i + k) < Region::Display.start()
}

proof fn lemma_row_bound(m: Seq<u8>, at: int)
    requires
        0 <= at,
        at + 8 <= m.len(),
    ensures
        load(m, at, 8) < 0x1_0000_0000_0000_0000,
{
    lemma_pow256_values();
    crate::memops::lemma_be_value_bound(m.subrange(at, at + 8));
}

/// Whether line `k` of the sprite at `i`, drawn at column `x`, row `y + k`,
/// falls on the screen and meets a lit pixel of its row there.
pub open spec fn line_hit(m: Seq<u8>, i: int, x: u8, y: u8, k: int) -> bool {
    y + k < 32 && row(m, y + k) & sprite_row(m[i + k], x) != 0
}

/// Drawing one sprite line XORs it onto its row, leaves the other rows,
/// and changes no byte below the display.
proof fn lemma_draw_row_effect(m: Seq<u8>, l: int, sprite: u8, x: u8)
    requires
        m.len() == MEM_SIZE,
        0 <= l < 32,
    ensures
        ({
            let m1 = draw_row(m, 8 * l, sprite, x);
            &&& m1.len() == MEM_SIZE
            &&& forall|j: int| 0 <= j < Region::Display.start() ==> #[trigger] m1[j] == m[j]
            &&& forall|line: int|
                0 <= line < 32 ==> #[trigger] row(m1, line) == if line == l {
                    row(m, line) ^ sprite_row(sprite, x)
                } else {
                    row(m, line)
                }
        }),
{
    let at = Region::Display.start() + 8 * l;
    let screen = load(m, at, 8) as u64;
    let xor = sprite_row(sprite, x) ^ screen;
    let m1 = draw_row(m, 8 * l, sprite, x);
    lemma_load_store(m, at, xor as nat, 8);
    lemma_pow256_values();
    vstd::arithmetic::div_mod::lemma_small_mod(xor as nat, 0x1_0000_0000_0000_0000);
    let s = sprite_row(sprite, x);
    assert(s ^ screen == screen ^ s) by (bit_vector);
    assert forall|line: int| 0 <= line < 32 implies #[trigger] row(m1, line) == if line == l {
        row(m, line) ^ sprite_row(sprite, x)
    } else {
        row(m, line)
    } by {
        let a2 = Region::Display.start() + 8 * line;
        if line != l {
            assert(m1.subrange(a2, a2 + 8) =~= m.subrange(a2, a2 + 8));
        }
    }
}

/// Drawing lines `n..size` XORs each of them onto its row (lines below the
/// screen are dropped), changes no byte below the display, and turns a lit
/// pixel off exactly when one of the lines meets a lit pixel of its row as
/// the row was before; all this as long as the sprite is read from bytes
/// that the drawing does not change.
proof fn lemma_draw_lines_effect(m: Seq<u8>, x: u8, y: u8, i: int, size: u8, n: nat)
    requires
        m.len() == MEM_SIZE,
        n <= size,
        y < 32,
        sprite_source_apart(i, size),
    ensures
        ({
            let m1 = draw_lines(m, x, y, i, size, n);
            &&& m1.len() == MEM_SIZE
            &&& forall|j: int| 0 <= j < Region::Display.start() ==> #[trigger] m1[j] == m[j]
            &&& forall|line: int|
                0 <= line < 32 ==> #[trigger] row(m1, line) == if n <= line - y < size {
                    row(m, line) ^ sprite_row(m[i + line - y], x)
                } else {
                    row(m, line)
                }
            &&& draw_hit(m, x, y, i, size, n) == exists|k: int|
                n <= k < size && #[trigger] line_hit(m, i, x, y, k)
        }),
    decreases size - n,
{
    if n < size {
        let m1 = if y + n < 32 {
            draw_row(m, (y + n) * 8, m[i + n], x)
        } else {
            m
        };
        if y + n < 32 {
            lemma_draw_row_effect(m, y + n, m[i + n], x);
            assert(8 * (y + n) == (y + n) * 8);
        }
        lemma_draw_lines_effect(m1, x, y, i, size, n + 1);
        let m2 = draw_lines(m1, x, y, i, size, n + 1);
        assert(m2 == draw_lines(m, x, y, i, size, n));
        assert forall|line: int| 0 <= line < 32 implies #[trigger] row(m2, line) == if n <= line
            - y < size {
            row(m, line) ^ sprite_row(m[i + line - y], x)
        } else {
            row(m, line)
        } by {
            if n + 1 <= line - y < size {
                let k = line - y;
                assert(0 <= i + k < Region::Display.start());
                assert(m1[i + k] == m[i + k]);
            }
        }
        assert forall|k: int| n + 1 <= k < size implies #[trigger] line_hit(m1, i, x, y, k)
            == line_hit(m, i, x, y, k) by {
            assert(0 <= i + k < Region::Display.start());
            assert(m1[i + k] == m[i + k]);
            if y + k < 32 {
                assert(row(m1, y + k) == row(m, y + k));
            }
        }
        let here = y + n < 32 && row_hit(m, (y + n) * 8, m[i + n], x);
        assert(here == line_hit(m, i, x, y, n as int)) by {
            assert((y + n) * 8 == 8 * (y + n));
        }
        if draw_hit(m, x, y, i, size, n) {
            if !here {
                let k = choose|k: int| n + 1 <= k < size && #[trigger] line_hit(m1, i, x, y, k);
                assert(line_hit(m, i, x, y, k));
            }
        } else {
            assert forall|k: int| n <= k < size implies !#[trigger] line_hit(m, i, x, y, k) by {
                if k > n {
                    assert(line_hit(m1, i, x, y, k) == line_hit(m, i, x, y, k));
                }
            }
        }
    }
}

/// The pixel in column `c` (0 to 63, from the left) of screen row `line`:
/// 1 when lit, else 0.
pub open spec fn pixel(m: Seq<u8>, line: int, c: u64) -> u64 {
    (row(m, line) >> ((63 - c) as u64)) & 1
}

/// Pixel `k` (0 to 7, from the left) of a sprite line.
pub open spec fn sprite_pixel(sprite: u8, k: u64) -> u64 {
    ((sprite as u64) >> ((7 - k) as u64)) & 1
}

/// XORing a sprite line placed at column `x` onto a row flips exactly the
/// pixels of the row that the sprite's lit pixels fall on.
proof fn lemma_xor_flips_pixels(a: u64, sprite: u8, x: u8, c: u64)
    requires
        x < 64,
        c < 64,
    ensures
        ((a ^ sprite_row(sprite, x)) >> ((63 - c) as u64)) & 1 == ((a >> ((63 - c) as u64)) & 1) ^ (
        if x <= c < x + 8 {
            sprite_pixel(sprite, (c - x) as u64)
        } else {
            0
        }),
{
    let s = sprite as u64;
    let xx = x as u64;
    let sh = (63 - c) as u64;
    let t = if xx <= c < xx + 8 {
        (7 - (c - xx)) as u64
    } else {
        0u64
    };
    assert(((a ^ ((s << 56u64) >> xx)) >> sh) & 1u64 == ((a >> sh) & 1u64) ^ (if xx <= c && c < xx
        + 8 {
        (s >> t) & 1u64
    } else {
        0u64
    })) by (bit_vector)
        requires
            s < 256,
            xx < 64,
            c < 64,
            sh + c == 63,
            xx <= c && c < xx + 8 ==> t + c == xx + 7,
    ;
}

/// Drawing a sprite flips exactly the pixels that its lit pixels fall on:
/// pixel `c` of screen row `line` flips when `line` is `py + k` for a line
/// `k` of the sprite and pixel `c - px` of that line is lit; every other
/// pixel stays. Pixels past the right edge and lines below the screen are
/// dropped. This holds when the sprite is read from bytes below the
/// display.
pub proof fn lemma_draw_pixels(m: Seq<u8>, x: u8, y: u8, size: u8, r: u8)
    requires
        m.len() == MEM_SIZE,
        can_execute(m, OpCode::Draw { x, y, size }),
        sprite_source_apart(i_reg(m) as int, size),
    ensures
        ({
            let px = v(m, x) % 64;
            let py = v(m, y) % 32;
            let i = i_reg(m) as int;
            let m1 = run(m, OpCode::Draw { x, y, size }, r);
            forall|line: int, c: u64|
                0 <= line < 32 && c < 64 ==> #[trigger] pixel(m1, line, c) == pixel(m, line, c) ^ (
                if 0 <= line - py < size && px <= c < px + 8 {
                    sprite_pixel(m[i + line - py], (c - px) as u64)
                } else {
                    0
                })
        }),
{
    reveal(can_execute);
    reveal(run);
    let px = v(m, x) % 64;
    let py = v(m, y) % 32;
    let i = i_reg(m) as int;
    let m1 = run(m, OpCode::Draw { x, y, size }, r);
    let d1 = draw_lines(m, px, py, i, size, 0);
    lemma_draw_lines_effect(m, px, py, i, size, 0);
    assert forall|line: int, c: u64| 0 <= line < 32 && c < 64 implies #[trigger] pixel(m1, line, c)
        == pixel(m, line, c) ^ (if 0 <= line - py < size && px <= c < px + 8 {
        sprite_pixel(m[i + line - py], (c - px) as u64)
    } else {
        0
    }) by {
        let at = Region::Display.start() + 8 * line;
        assert(m1.subrange(at, at + 8) =~= d1.subrange(at, at + 8));
        assert(row(m1, line) == row(d1, line));
        if 0 <= line - py < size {
            lemma_xor_flips_pixels(row(m, line), m[i + line - py], px, c);
        } else {
            let a = row(m, line);
            let sh = (63 - c) as u64;
            assert((a >> sh) & 1 == ((a >> sh) & 1) ^ 0) by (bit_vector);
        }
    }
}

/// After a sprite is drawn, VF is 1 exactly when one of its lines that
/// falls on the screen meets a lit pixel of its row, so that the drawing
/// turns that pixel off; else VF is 0. This holds when the sprite is read
/// from bytes below the display other than VF.
pub proof fn lemma_draw_flag(m: Seq<u8>, x: u8, y: u8, size: u8, r: u8)
    requires
        m.len() == MEM_SIZE,
        can_execute(m, OpCode::Draw { x, y, size }),
        sprite_source_apart(i_reg(m) as int, size),
    ensures
        ({
            let px = v(m, x) % 64;
            let py = v(m, y) % 32;
            let i = i_reg(m) as int;
            run(m, OpCode::Draw { x, y, size }, r)[vf_addr()] == flag(
                exists|k: int| 0 <= k < size && #[trigger] line_hit(m, i, px, py, k),
            )
        }),
{
    reveal(can_execute);
    reveal(run);
    lemma_draw_lines_effect(m, v(m, x) % 64, v(m, y) % 32, i_reg(m) as int, size, 0);
}

/// Drawing the same sprite twice at the same place leaves the screen as it
/// was: sprites are XORed onto the screen. This holds when neither
/// coordinate register is VF (which the first drawing changes) and the
/// sprite is read from bytes below the display other than VF.
pub proof fn lemma_draw_twice(m: Seq<u8>, x: u8, y: u8, size: u8, r1: u8, r2: u8)
    requires
        m.len() == MEM_SIZE,
        can_execute(m, OpCode::Draw { x, y, size }),
        x != 0xf,
        y != 0xf,
        sprite_source_apart(i_reg(m) as int, size),
        forall|k: int| 0 <= k < size ==> #[trigger] (i_reg(m) + k) != vf_addr(),
    ensures
        ({
            let m1 = run(m, OpCode::Draw { x, y, size }, r1);
            let m2 = run(m1, OpCode::Draw { x, y, size }, r2);
            &&& can_execute(m1, OpCode::Draw { x, y, size })
            &&& forall|j: int| Region::Display.start() <= j < MEM_SIZE ==> #[trigger] m2[j] == m[j]
        }),
{
    reveal(can_execute);
    reveal(run);
    let px = v(m, x) % 64;
    let py = v(m, y) % 32;
    let i = i_reg(m) as int;
    let m1 = run(m, OpCode::Draw { x, y, size }, r1);
    lemma_draw_lines_effect(m, px, py, i, size, 0);
    assert(m1[vaddr(x)] == m[vaddr(x)]);
    assert(m1[vaddr(y)] == m[vaddr(y)]);
    assert(i_reg(m1) == i_reg(m)) by {
        assert(m1[Region::I.start() as int] == m[Region::I.start() as int]);
        assert(m1[(Region::I.start() + 1) as int] == m[(Region::I.start() + 1) as int]);
    }
    let m2 = run(m1, OpCode::Draw { x, y, size }, r2);
    lemma_draw_lines_effect(m1, px, py, i, size, 0);
    let d1 = draw_lines(m, px, py, i, size, 0);
    let d2 = draw_lines(m1, px, py, i, size, 0);
    assert forall|line: int| 0 <= line < 32 implies #[trigger] row(m2, line) == row(m, line) by {
        let at = Region::Display.start() + 8 * line;
        assert(m1.subrange(at, at + 8) =~= d1.subrange(at, at + 8));
        assert(m2.subrange(at, at + 8) =~= d2.subrange(at, at + 8));
        assert(row(m1, line) == row(d1, line));
        assert(row(m2, line) == row(d2, line));
        if 0 <= line - py < size {
            let k = line - py;
            assert(m1[i + k] == m[i + k]);
            let a = row(m, line);
            let b = sprite_row(m[i + k], px);
            assert((a ^ b) ^ b == a) by (bit_vector);
        }
    }
    assert forall|j: int| Region::Display.start() <= j < MEM_SIZE implies #[trigger] m2[j]
        == m[j] by {
        let line = (j - Region::Display.start()) / 8;
        let at = Region::Display.start() + 8 * line;
        assert(row(m2, line) == row(m, line));
        lemma_row_bound(m2, at);
        lemma_row_bound(m, at);
        crate::bytes::lemma_be_bytes_of_value(m2.subrange(at, at + 8));
        crate::bytes::lemma_be_bytes_of_value(m.subrange(at, at + 8));
        assert(m2.subrange(at, at + 8) == m.subrange(at, at + 8));
        assert(m2[j] == m2.subrange(at, at + 8)[j - at]);
    }
}


/// Drawing sprite lines changes no byte below the display.
proof fn lemma_draw_lines_frame(m: Seq<u8>, x: u8, y: u8, i: int, size: u8, n: nat)
    requires
        m.len() == MEM_SIZE,
    ensures
        ({
            let m1 = draw_lines(m, x, y, i, size, n);
            &&& m1.len() == MEM_SIZE
            &&& forall|j: int| 0 <= j < Region::Display.start() ==> #[trigger] m1[j] == m[j]
        }),
    decreases size - n,
{
    if n < size {
        let m1 = if y + n < 32 {
            draw_row(m, (y + n) * 8, m[i + n], x)
        } else {
            m
        };
        if y + n < 32 {
            let at = Region::Display.start() + (y + n) * 8;
            let screen = load(m, at, 8) as u64;
            let xor = sprite_row(m[i + n], x) ^ screen;
            lemma_load_store(m, at, xor as nat, 8);
        }
        lemma_draw_lines_frame(m1, x, y, i, size, n + 1);
    }
}

/// Only `SaveRegs` and `BCD` write to the program and data memory: every
/// other instruction leaves all bytes below the stack as they were.
pub proof fn lemma_program_memory_kept(m: Seq<u8>, op: OpCode, r: u8)
    requires
        m.len() == MEM_SIZE,
        can_execute(m, op),
        !(op is SaveRegs),
        !(op is BCD),
    ensures
        forall|j: int| 0 <= j < Region::Stack.start() ==> #[trigger] run(m, op, r)[j] == m[j],
{
    reveal(can_execute);
    reveal(run);
    match op {
        OpCode::Draw { x, y, size } => {
            lemma_draw_lines_frame(m, v(m, x) % 64, v(m, y) % 32, i_reg(m) as int, size, 0);
        },
        _ => {},
    }
}


/// Once a program is loaded, the instruction the machine fetches at
/// `0x200 + 2k` is the `k`-th instruction that decoding the program lists.
pub proof fn lemma_fetch_loaded_program(m: Seq<u8>, program: Seq<u8>, k: int)
    requires
        m.len() == MEM_SIZE,
        Region::Memory.start() + program.len() <= MEM_SIZE,
        0 <= k,
        2 * k + 1 < program.len(),
        pc(store(m, Region::Memory.start() as int, program)) == Region::Memory.start() + 2 * k,
    ensures
        fetch(store(m, Region::Memory.start() as int, program)) == decode(
            program[2 * k],
            program[2 * k + 1],
        ),
{
}

} // verus!
