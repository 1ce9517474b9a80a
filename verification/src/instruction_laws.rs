use vstd::prelude::*;

use crate::chip8::{can_execute, i_reg, pc, post, run, sp, v, vaddr, word, PostExecute};
use crate::memops::{Region, MEM_SIZE};
use crate::opcode::OpCode;

verus! {

/// `m1` has the length of `m` and the same bytes outside the `n` bytes from
/// `at` on.
pub open spec fn same_outside(m: Seq<u8>, m1: Seq<u8>, at: int, n: int) -> bool {
    &&& m1.len() == m.len()
    &&& forall|j: int| 0 <= j < m.len() && !(at <= j < at + n) ==> #[trigger] m1[j] == m[j]
}

/// The 16-bit word written at `a` reads back, and no other byte changes.
proof fn lemma_word_written(m: Seq<u8>, a: int, x: u16)
    requires
        0 <= a,
        a + 2 <= m.len(),
    ensures
        word(crate::chip8::set_word(m, a, x), a) == x,
        same_outside(m, crate::chip8::set_word(m, a, x), a, 2),
{
    assert(((x / 256) as u8) * 256 + ((x % 256) as u8) == x);
}

/// 8XY0 to 8XY3: VX becomes VY, VX | VY, VX & VY or VX ^ VY, and no other
/// byte of the machine changes (VY in particular keeps its value).
pub proof fn lemma_register_copy_and_bits(m: Seq<u8>, a: u8, b: u8, r: u8)
    requires
        m.len() == MEM_SIZE,
        a < 16,
        b < 16,
    ensures
        v(run(m, OpCode::Assign { a, to: b }, r), a) == v(m, b),
        same_outside(m, run(m, OpCode::Assign { a, to: b }, r), vaddr(a), 1),
        v(run(m, OpCode::Or { a, b }, r), a) == v(m, a) | v(m, b),
        same_outside(m, run(m, OpCode::Or { a, b }, r), vaddr(a), 1),
        v(run(m, OpCode::And { a, b }, r), a) == v(m, a) & v(m, b),
        same_outside(m, run(m, OpCode::And { a, b }, r), vaddr(a), 1),
        v(run(m, OpCode::Xor { a, b }, r), a) == v(m, a) ^ v(m, b),
        same_outside(m, run(m, OpCode::Xor { a, b }, r), vaddr(a), 1),
{
    reveal(run);
}

/// 8XY4 to 8XYE: VX and VF are the only bytes of the machine that change.
pub proof fn lemma_arithmetic_touches_vx_and_vf(m: Seq<u8>, op: OpCode, r: u8)
    requires
        m.len() == MEM_SIZE,
        can_execute(m, op),
        op is Add || op is Sub || op is SubN || op is ShiftR || op is ShiftL,
    ensures
        ({
            let x = match op {
                OpCode::Add { a, .. } => a,
                OpCode::Sub { a, .. } => a,
                OpCode::SubN { a, .. } => a,
                OpCode::ShiftR { a, .. } => a,
                OpCode::ShiftL { a, .. } => a,
                _ => 0,
            };
            let m1 = run(m, op, r);
            &&& m1.len() == MEM_SIZE
            &&& forall|j: int|
                0 <= j < MEM_SIZE && j != vaddr(x) && j != vaddr(0xf) ==> #[trigger] m1[j] == m[j]
        }),
{
    reveal(can_execute);
    reveal(run);
}

/// 6XNN, 7XNN and CXNN: VX becomes NN, VX + NN (modulo 256) or the random
/// byte masked by NN, and no other byte of the machine changes.
pub proof fn lemma_register_loads(m: Seq<u8>, reg: u8, nn: u8, r: u8)
    requires
        m.len() == MEM_SIZE,
        reg < 16,
    ensures
        v(run(m, OpCode::SetV { reg, to: nn }, r), reg) == nn,
        same_outside(m, run(m, OpCode::SetV { reg, to: nn }, r), vaddr(reg), 1),
        v(run(m, OpCode::IncV { reg, by: nn }, r), reg) == (v(m, reg) + nn) % 256,
        same_outside(m, run(m, OpCode::IncV { reg, by: nn }, r), vaddr(reg), 1),
        v(run(m, OpCode::GetRand { reg, mask: nn }, r), reg) == r & nn,
        same_outside(m, run(m, OpCode::GetRand { reg, mask: nn }, r), vaddr(reg), 1),
{
    reveal(run);
}

/// FX07, FX15 and FX18: VX becomes the delay timer, or the delay or sound
/// timer becomes VX; no other byte of the machine changes.
pub proof fn lemma_timer_registers(m: Seq<u8>, x: u8, r: u8)
    requires
        m.len() == MEM_SIZE,
        x < 16,
    ensures
        v(run(m, OpCode::ReadDelay { to: x }, r), x) == m[Region::DT.start() as int],
        same_outside(m, run(m, OpCode::ReadDelay { to: x }, r), vaddr(x), 1),
        run(m, OpCode::SetDelay { with: x }, r)[Region::DT.start() as int] == v(m, x),
        same_outside(m, run(m, OpCode::SetDelay { with: x }, r), Region::DT.start() as int, 1),
        run(m, OpCode::SetSound { with: x }, r)[Region::ST.start() as int] == v(m, x),
        same_outside(m, run(m, OpCode::SetSound { with: x }, r), Region::ST.start() as int, 1),
{
    reveal(run);
}

/// FX0A: when some key is down and the key register names a newly pressed
/// key (below 16), VX becomes that key and nothing else changes; otherwise
/// the machine is left as it is.
pub proof fn lemma_read_key(m: Seq<u8>, x: u8, r: u8)
    requires
        m.len() == MEM_SIZE,
        x < 16,
    ensures
        ({
            let ready = word(m, Region::Keys.start() as int) != 0 && m[Region::KEY.start() as int]
                < 16;
            let m1 = run(m, OpCode::ReadKey { to: x }, r);
            &&& ready ==> v(m1, x) == m[Region::KEY.start() as int] && same_outside(
                m,
                m1,
                vaddr(x),
                1,
            )
            &&& !ready ==> m1 == m
        }),
{
    reveal(run);
}

/// What an instruction asks of its caller: FX15 and FX18 report that a
/// timer was set, FX0A asks to wait exactly when no key is down or no key
/// was newly pressed, and every other instruction asks to go on.
pub proof fn lemma_post_answers(m: Seq<u8>, op: OpCode)
    ensures
        (post(m, op) == PostExecute::UpdateDt) <==> op is SetDelay,
        (post(m, op) == PostExecute::UpdateSt) <==> op is SetSound,
        (post(m, op) == PostExecute::Wait) <==> (op is ReadKey && (word(
            m,
            Region::Keys.start() as int,
        ) == 0 || m[Region::KEY.start() as int] >= 16)),
{
    reveal(post);
}

/// ANNN, FX1E and FX29: I becomes NNN, I + VX, or 5 * VX (the address of
/// the font sprite of VX), and no byte outside I changes.
pub proof fn lemma_address_register(m: Seq<u8>, x: u8, nnn: u16, r: u8)
    requires
        m.len() == MEM_SIZE,
        x < 16,
    ensures
        i_reg(run(m, OpCode::SetI { to: nnn }, r)) == nnn,
        same_outside(m, run(m, OpCode::SetI { to: nnn }, r), Region::I.start() as int, 2),
        i_reg(m) + v(m, x) <= u16::MAX ==> i_reg(run(m, OpCode::IncI { with: x }, r)) == i_reg(m)
            + v(m, x),
        same_outside(m, run(m, OpCode::IncI { with: x }, r), Region::I.start() as int, 2),
        i_reg(run(m, OpCode::GetFontSprite { of: x }, r)) == 5 * v(m, x),
        same_outside(m, run(m, OpCode::GetFontSprite { of: x }, r), Region::I.start() as int, 2),
{
    reveal(run);
    let at = Region::I.start() as int;
    lemma_word_written(m, at, nnn);
    lemma_word_written(m, at, (v(m, x) + i_reg(m)) as u16);
    lemma_word_written(m, at, (v(m, x) * 5) as u16);
}

/// 0NNN does nothing; 1NNN sets the program counter to NNN and BNNN to
/// V0 + NNN, and no other byte changes.
pub proof fn lemma_jumps(m: Seq<u8>, nnn: u16, val: u16, r: u8)
    requires
        m.len() == MEM_SIZE,
    ensures
        run(m, OpCode::NoOp { val }, r) == m,
        pc(run(m, OpCode::Jump { to: nnn }, r)) == nnn,
        same_outside(m, run(m, OpCode::Jump { to: nnn }, r), Region::PC.start() as int, 2),
        v(m, 0) + nnn <= u16::MAX ==> pc(run(m, OpCode::JumpReg { by: nnn }, r)) == v(m, 0) + nnn,
        same_outside(m, run(m, OpCode::JumpReg { by: nnn }, r), Region::PC.start() as int, 2),
{
    reveal(run);
    let at = Region::PC.start() as int;
    lemma_word_written(m, at, nnn);
    lemma_word_written(m, at, (v(m, 0) + nnn) as u16);
}

/// 2NNN stores the program counter in the stack slot at SP, moves SP up by
/// one slot and jumps to NNN; 00EE moves SP down by one slot and jumps to
/// the address in that slot. Neither changes any other byte.
pub proof fn lemma_call_and_return(m: Seq<u8>, at: u16, r: u8)
    requires
        m.len() == MEM_SIZE,
    ensures
        can_execute(m, OpCode::Call { at }) ==> ({
            let m1 = run(m, OpCode::Call { at }, r);
            let slot = Region::Stack.start() + sp(m);
            &&& pc(m1) == at
            &&& sp(m1) == sp(m) + 2
            &&& word(m1, slot) == pc(m)
            &&& m1.len() == MEM_SIZE
            &&& forall|j: int|
                0 <= j < MEM_SIZE && !(slot <= j < slot + 2) && !(Region::PC.start() <= j
                    < Region::PC.start() + 2) && j != Region::SP.start() ==> #[trigger] m1[j]
                    == m[j]
        }),
        can_execute(m, OpCode::Return) ==> ({
            let m1 = run(m, OpCode::Return, r);
            &&& pc(m1) == word(m, Region::Stack.start() + sp(m) - 2)
            &&& sp(m1) == sp(m) - 2
            &&& m1.len() == MEM_SIZE
            &&& forall|j: int|
                0 <= j < MEM_SIZE && !(Region::PC.start() <= j < Region::PC.start() + 2) && j
                    != Region::SP.start() ==> #[trigger] m1[j] == m[j]
        }),
{
    reveal(run);
    reveal(can_execute);
    let x = pc(m);
    assert(((x / 256) as u8) * 256 + ((x % 256) as u8) == x);
    assert(((at / 256) as u8) * 256 + ((at % 256) as u8) == at);
    let y = word(m, Region::Stack.start() + sp(m) - 2);
    assert(((y / 256) as u8) * 256 + ((y % 256) as u8) == y);
}

/// FX55 stores V0..=VX at I, I+1, ..., and FX65 loads V0..=VX from there;
/// both leave I just past the last byte they used. FX55 changes no byte
/// but those it stores and I, FX65 none but V0..=VX and I.
pub proof fn lemma_save_and_load(m: Seq<u8>, upto: u8, r: u8)
    requires
        m.len() == MEM_SIZE,
        upto < 16,
        i_reg(m) + 16 <= MEM_SIZE,
    ensures
        ({
            let i = i_reg(m) as int;
            let i_at = Region::I.start() as int;
            let m1 = run(m, OpCode::SaveRegs { upto }, r);
            &&& i_reg(m1) == i + upto + 1
            &&& forall|k: int|
                0 <= k <= upto && !(i_at <= i + k < i_at + 2) ==> #[trigger] m1[i + k] == m[vaddr(
                    0,
                ) + k]
            &&& m1.len() == MEM_SIZE
            &&& forall|j: int|
                0 <= j < MEM_SIZE && !(i <= j <= i + upto) && !(i_at <= j < i_at + 2)
                    ==> #[trigger] m1[j] == m[j]
        }),
        ({
            let i = i_reg(m) as int;
            let m1 = run(m, OpCode::LoadRegs { upto }, r);
            &&& i_reg(m1) == i + upto + 1
            &&& forall|k: u8| k <= upto ==> #[trigger] v(m1, k) == m[i + k]
            &&& m1.len() == MEM_SIZE
            &&& forall|j: int|
                0 <= j < MEM_SIZE && !(vaddr(0) <= j <= vaddr(0) + upto) && !(Region::I.start()
                    <= j < Region::I.start() + 2) ==> #[trigger] m1[j] == m[j]
        }),
{
    reveal(run);
    let i = i_reg(m);
    let x = (i + upto + 1) as u16;
    assert(((x / 256) as u8) * 256 + ((x % 256) as u8) == x);
}

} // verus!
