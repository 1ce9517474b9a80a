use vstd::prelude::*;
use vstd::std_specs::bits::u16_trailing_zeros;

use crate::memops::{load, store, store_be, Region, MEM_SIZE};
use crate::opcode::decode;
use crate::opcode::OpCode;

verus! {

/// The whole machine: 4 KiB of memory that holds the program, the data, the
/// registers, the stack and the screen (see [`Region`]).
#[derive(Debug, Clone)]
pub struct Chip8(pub [u8; 0x1000]);

impl View for Chip8 {
    type V = Seq<u8>;

    open spec fn view(&self) -> Seq<u8> {
        self.0@
    }
}

/// What the caller of [`Chip8::execute`] has to do next.
#[derive(Debug, Clone, Copy, PartialEq, PartialOrd, Ord, Eq, Structural)]
pub enum PostExecute {
    /// Go on with the next instruction.
    Next,
    /// No key press is waiting: run the same instruction again once one is.
    Wait,
    /// The delay timer was set.
    UpdateDt,
    /// The sound timer was set.
    UpdateSt,
}

// ---------------------------------------------------------------------------
// The machine state as seen through memory
// ---------------------------------------------------------------------------

/// Address of V register `r` (`r == 16` names the byte just past VF).
pub open spec fn vaddr(r: u8) -> int {
    (Region::Vs.start() + r) as int
}

/// Address of the flag register VF.
pub open spec fn vf_addr() -> int {
    (Region::Vs.start() + 0xf) as int
}

/// The byte of V register `r`.
pub open spec fn v(m: Seq<u8>, r: u8) -> u8 {
    m[vaddr(r)]
}

/// The big-endian 16-bit word at `a`.
pub open spec fn word(m: Seq<u8>, a: int) -> u16 {
    (m[a] * 256 + m[a + 1]) as u16
}

/// `m` with the big-endian 16-bit word `x` written at `a`.
pub open spec fn set_word(m: Seq<u8>, a: int, x: u16) -> Seq<u8> {
    m.update(a, (x / 256) as u8).update(a + 1, (x % 256) as u8)
}

/// The program counter.
pub open spec fn pc(m: Seq<u8>) -> u16 {
    word(m, Region::PC.start() as int)
}

/// The address register I.
pub open spec fn i_reg(m: Seq<u8>) -> u16 {
    word(m, Region::I.start() as int)
}

/// The stack pointer: the byte offset of the next free slot of the stack.
pub open spec fn sp(m: Seq<u8>) -> u8 {
    m[Region::SP.start() as int]
}

/// `m` with the program counter moved past the next instruction.
pub open spec fn advance(m: Seq<u8>) -> Seq<u8> {
    set_word(m, Region::PC.start() as int, (pc(m) + 2) as u16)
}

/// `m` with the next instruction skipped when `cond` holds.
pub open spec fn skip_if(m: Seq<u8>, cond: bool) -> Seq<u8> {
    if cond {
        advance(m)
    } else {
        m
    }
}

/// Whether the program counter can be moved past the next instruction
/// without leaving the 16-bit range.
pub open spec fn can_advance(m: Seq<u8>) -> bool {
    pc(m) + 2 <= u16::MAX
}

/// 1 when `b` holds, else 0.
pub open spec fn flag(b: bool) -> u8 {
    if b {
        1
    } else {
        0
    }
}

/// The 64-bit screen row that holds the 8 pixels of `sprite` starting at
/// column `x` (column 0 is the most significant bit); pixels that fall past
/// column 63 are cut off.
pub open spec fn sprite_row(sprite: u8, x: u8) -> u64 {
    ((sprite as u64) << 56u64) >> (x as u64)
}

/// `m` with `sprite` XORed onto column `x` of the screen row that starts at
/// byte `line` of the display.
pub open spec fn draw_row(m: Seq<u8>, line: int, sprite: u8, x: u8) -> Seq<u8> {
    let at = Region::Display.start() + line;
    let screen = load(m, at, 8) as u64;
    store_be(m, at, (sprite_row(sprite, x) ^ screen) as nat, 8)
}

/// Whether drawing `sprite` in column `x` of the screen row that starts at
/// byte `line` of the display turns a lit pixel off.
pub open spec fn row_hit(m: Seq<u8>, line: int, sprite: u8, x: u8) -> bool {
    (load(m, Region::Display.start() + line, 8) as u64) & sprite_row(sprite, x) != 0
}

/// `m` after drawing lines `n..size` of the sprite at `i` at column `x`,
/// row `y + n`; lines that fall below the screen are not drawn.
pub open spec fn draw_lines(m: Seq<u8>, x: u8, y: u8, i: int, size: u8, n: nat) -> Seq<u8>
    decreases size - n,
{
    if n >= size {
        m
    } else {
        let m1 = if y + n < 32 {
            draw_row(m, (y + n) * 8, m[i + n], x)
        } else {
            m
        };
        draw_lines(m1, x, y, i, size, n + 1)
    }
}

/// Whether drawing lines `n..size` of the sprite at `i` at column `x`, row
/// `y + n`, turns a lit pixel off in any of them.
pub open spec fn draw_hit(m: Seq<u8>, x: u8, y: u8, i: int, size: u8, n: nat) -> bool
    decreases size - n,
{
    if n >= size {
        false
    } else {
        let on_screen = y + n < 32;
        let m1 = if on_screen {
            draw_row(m, (y + n) * 8, m[i + n], x)
        } else {
            m
        };
        (on_screen && row_hit(m, (y + n) * 8, m[i + n], x)) || draw_hit(m1, x, y, i, size, n + 1)
    }
}

/// `m` with the program counter pushed onto the stack: it is stored at the
/// stack pointer, which moves on by one slot.
pub open spec fn pushed(m: Seq<u8>) -> Seq<u8> {
    set_word(m, Region::Stack.start() + sp(m), pc(m)).update(
        Region::SP.start() as int,
        (sp(m) + 2) as u8,
    )
}

/// `m` with the stack pointer moved back by one slot.
pub open spec fn popped(m: Seq<u8>) -> Seq<u8> {
    m.update(Region::SP.start() as int, (sp(m) - 2) as u8)
}

/// The return address in the top slot of the stack.
pub open spec fn stack_top(m: Seq<u8>) -> u16 {
    word(m, Region::Stack.start() + sp(m) - 2)
}

/// `m` with bytes `i..=i + upto` set to V0..=V`upto`.
pub open spec fn save_regs(m: Seq<u8>, i: int, upto: u8) -> Seq<u8> {
    Seq::new(
        m.len(),
        |j: int|
            if i <= j <= i + upto {
                m[vaddr(0) + (j - i)]
            } else {
                m[j]
            },
    )
}

/// `m` with V0..=V`upto` set to bytes `i..=i + upto`.
pub open spec fn load_regs(m: Seq<u8>, i: int, upto: u8) -> Seq<u8> {
    Seq::new(
        m.len(),
        |j: int|
            if vaddr(0) <= j <= vaddr(0) + upto {
                m[i + (j - vaddr(0))]
            } else {
                m[j]
            },
    )
}

/// `m` with the whole display turned off.
pub open spec fn clear_display(m: Seq<u8>) -> Seq<u8> {
    Seq::new(
        m.len(),
        |j: int|
            if Region::Display.start() <= j < Region::End.start() {
                0u8
            } else {
                m[j]
            },
    )
}

/// `m` with V`r` set to `x`.
pub open spec fn set_v(m: Seq<u8>, r: u8, x: u8) -> Seq<u8> {
    m.update(vaddr(r), x)
}

/// `m` with V`r` set to `x` and then VF set to `f`.
pub open spec fn set_v_flag(m: Seq<u8>, r: u8, x: u8, f: u8) -> Seq<u8> {
    set_v(m, r, x).update(vf_addr(), f)
}

/// A key press is waiting to be read: some key is pressed, and the key
/// register names a key that was newly pressed at the last keyboard report.
pub open spec fn key_ready(m: Seq<u8>) -> bool {
    word(m, Region::Keys.start() as int) != 0 && m[Region::KEY.start() as int] < 16
}

/// The instruction can run on `m` without leaving the memory or the range
/// of its integers: registers are named by an index of at most 16, every
/// address stays inside the memory and every address sum fits in 16 bits.
#[verifier::opaque]
pub open spec fn can_execute(m: Seq<u8>, op: OpCode) -> bool {
    let i = i_reg(m);
    match op {
        OpCode::NoOp { .. } => true,
        OpCode::Clear => true,
        OpCode::Draw { x, y, size } => {
            &&& x <= 16
            &&& y <= 16
            &&& size > 0 ==> i + size <= MEM_SIZE && v(m, y) % 32 + size - 1 <= 255
        },
        OpCode::Return => 2 <= sp(m) <= 34,
        OpCode::Jump { .. } => true,
        OpCode::Call { .. } => sp(m) < 32,
        OpCode::JumpReg { by } => v(m, 0) + by <= u16::MAX,
        OpCode::SkipEqK { reg, val } => reg <= 16 && (v(m, reg) == val ==> can_advance(m)),
        OpCode::SkipNotEqK { reg, val } => reg <= 16 && (v(m, reg) != val ==> can_advance(m)),
        OpCode::SkipEq { a, b } => a <= 16 && b <= 16 && (v(m, a) == v(m, b) ==> can_advance(m)),
        OpCode::SkipNotEq { a, b } => a <= 16 && b <= 16 && (v(m, a) != v(m, b)
            ==> can_advance(m)),
        OpCode::SetV { reg, .. } => reg <= 16,
        OpCode::IncV { reg, .. } => reg <= 16,
        OpCode::SetI { .. } => true,
        OpCode::GetRand { reg, .. } => reg <= 16,
        OpCode::SkipPressed { key } => key <= 16 && (v(m, key) == m[Region::KEY.start() as int]
            ==> can_advance(m)),
        OpCode::SkipNotPressed { key } => key <= 16 && (v(m, key) != m[Region::KEY.start() as int]
            ==> can_advance(m)),
        OpCode::ReadKey { to } => key_ready(m) ==> to <= 16,
        OpCode::ReadDelay { to } => to <= 16,
        OpCode::SetDelay { with } => with <= 16,
        OpCode::SetSound { with } => with <= 16,
        OpCode::IncI { with } => with <= 16 && v(m, with) + i <= u16::MAX,
        OpCode::GetFontSprite { of } => of <= 16,
        OpCode::SaveRegs { upto } => upto <= 15 && i + 16 <= MEM_SIZE,
        OpCode::LoadRegs { upto } => upto <= 15 && i + 16 <= MEM_SIZE,
        OpCode::BCD { of } => of <= 16 && i + 3 <= MEM_SIZE,
        OpCode::Assign { a, to } => a <= 16 && to <= 16,
        OpCode::Or { a, b } => a <= 16 && b <= 16,
        OpCode::And { a, b } => a <= 16 && b <= 16,
        OpCode::Xor { a, b } => a <= 16 && b <= 16,
        OpCode::Add { a, b } => a <= 16 && b <= 16,
        OpCode::Sub { a, b } => a <= 16 && b <= 16,
        OpCode::ShiftR { a, b } => a <= 16 && b <= 16,
        OpCode::SubN { a, b } => a <= 16 && b <= 16,
        OpCode::ShiftL { a, b } => a <= 16 && b <= 16,
    }
}

/// The memory after running `op` on `m`, where `rand` is the random byte
/// that `GetRand` draws.
#[verifier::opaque]
pub open spec fn run(m: Seq<u8>, op: OpCode, rand: u8) -> Seq<u8> {
    let i = i_reg(m);
    let pc_at = Region::PC.start() as int;
    let i_at = Region::I.start() as int;
    match op {
        OpCode::NoOp { .. } => m,
        OpCode::Clear => clear_display(m),
        OpCode::Draw { x, y, size } => {
            let px = v(m, x) % 64;
            let py = v(m, y) % 32;
            draw_lines(m, px, py, i as int, size, 0).update(
                vf_addr(),
                flag(draw_hit(m, px, py, i as int, size, 0)),
            )
        },
        OpCode::Return => set_word(popped(m), pc_at, stack_top(m)),
        OpCode::Jump { to } => set_word(m, pc_at, to),
        OpCode::Call { at } => set_word(pushed(m), pc_at, at),
        OpCode::JumpReg { by } => set_word(m, pc_at, (v(m, 0) + by) as u16),
        OpCode::SkipEqK { reg, val } => skip_if(m, v(m, reg) == val),
        OpCode::SkipNotEqK { reg, val } => skip_if(m, v(m, reg) != val),
        OpCode::SkipEq { a, b } => skip_if(m, v(m, a) == v(m, b)),
        OpCode::SkipNotEq { a, b } => skip_if(m, v(m, a) != v(m, b)),
        OpCode::SetV { reg, to } => set_v(m, reg, to),
        OpCode::IncV { reg, by } => set_v(m, reg, ((v(m, reg) + by) % 256) as u8),
        OpCode::SetI { to } => set_word(m, i_at, to),
        OpCode::GetRand { reg, mask } => set_v(m, reg, rand & mask),
        OpCode::SkipPressed { key } => skip_if(m, v(m, key) == m[Region::KEY.start() as int]),
        OpCode::SkipNotPressed { key } => skip_if(m, v(m, key) != m[Region::KEY.start() as int]),
        OpCode::ReadKey { to } => if !key_ready(m) {
            m
        } else {
            set_v(m, to, m[Region::KEY.start() as int])
        },
        OpCode::ReadDelay { to } => set_v(m, to, m[Region::DT.start() as int]),
        OpCode::SetDelay { with } => m.update(Region::DT.start() as int, v(m, with)),
        OpCode::SetSound { with } => m.update(Region::ST.start() as int, v(m, with)),
        OpCode::IncI { with } => set_word(m, i_at, (v(m, with) + i) as u16),
        OpCode::GetFontSprite { of } => set_word(m, i_at, (v(m, of) * 5) as u16),
        OpCode::SaveRegs { upto } => set_word(
            save_regs(m, i as int, upto),
            i_at,
            (i + upto + 1) as u16,
        ),
        OpCode::LoadRegs { upto } => set_word(
            load_regs(m, i as int, upto),
            i_at,
            (i + upto + 1) as u16,
        ),
        OpCode::BCD { of } => {
            let x = v(m, of);
            m.update(i as int, x / 100 % 10).update(i + 1, x / 10 % 10).update(i + 2, x % 10)
        },
        OpCode::Assign { a, to } => set_v(m, a, v(m, to)),
        OpCode::Or { a, b } => set_v(m, a, v(m, a) | v(m, b)),
        OpCode::And { a, b } => set_v(m, a, v(m, a) & v(m, b)),
        OpCode::Xor { a, b } => set_v(m, a, v(m, a) ^ v(m, b)),
        OpCode::Add { a, b } => set_v_flag(
            m,
            a,
            ((v(m, a) + v(m, b)) % 256) as u8,
            flag(v(m, a) + v(m, b) > 255),
        ),
        OpCode::Sub { a, b } => set_v_flag(
            m,
            a,
            ((v(m, a) - v(m, b) + 256) % 256) as u8,
            flag(v(m, a) >= v(m, b)),
        ),
        OpCode::ShiftR { a, b } => set_v_flag(m, a, v(m, b) / 2, v(m, b) % 2),
        OpCode::SubN { a, b } => set_v_flag(
            m,
            a,
            ((v(m, b) - v(m, a) + 256) % 256) as u8,
            flag(v(m, b) >= v(m, a)),
        ),
        OpCode::ShiftL { a, b } => set_v_flag(m, a, ((v(m, b) * 2) % 256) as u8, v(m, b) / 128),
    }
}

/// What running `op` on `m` asks of the caller.
#[verifier::opaque]
pub open spec fn post(m: Seq<u8>, op: OpCode) -> PostExecute {
    match op {
        OpCode::ReadKey { .. } => if !key_ready(m) {
            PostExecute::Wait
        } else {
            PostExecute::Next
        },
        OpCode::SetDelay { .. } => PostExecute::UpdateDt,
        OpCode::SetSound { .. } => PostExecute::UpdateSt,
        _ => PostExecute::Next,
    }
}


/// Milliseconds of one tick of the 60 Hz timers.
pub const TICK_MS: u64 = 16;

/// What can go wrong when the machine reads the system clock.
#[derive(Debug, Clone, Copy, PartialEq, Eq, Structural)]
pub enum Chip8Error {
    /// The clock reads a time before the Unix epoch.
    ClockBeforeEpoch,
    /// The clock reads a time before the last timer update.
    ClockWentBack,
}

/// The time of the last timer update, in milliseconds.
pub open spec fn time(m: Seq<u8>) -> nat {
    load(m, Region::Time.start() as int, 8)
}

/// `a - b`, or 0 when `b` is larger.
pub open spec fn sat_sub(a: u8, b: u8) -> u8 {
    if a >= b {
        (a - b) as u8
    } else {
        0
    }
}

/// `m` after the timers have run until `now` (which is not before the last
/// update): both timers drop by one for each whole tick since the last
/// update (at most 255, never below 0), and the last update moves to the
/// last whole tick.
pub open spec fn timers(m: Seq<u8>, now: u64) -> Seq<u8> {
    let elapsed = now - time(m);
    let ticks = if elapsed / TICK_MS as int > 255 {
        255u8
    } else {
        (elapsed / TICK_MS as int) as u8
    };
    let m1 = store_be(m, Region::Time.start() as int, (now - elapsed % TICK_MS as int) as nat, 8);
    m1.update(Region::DT.start() as int, sat_sub(m[Region::DT.start() as int], ticks)).update(
        Region::ST.start() as int,
        sat_sub(m[Region::ST.start() as int], ticks),
    )
}

/// `m` after the keyboard reports the pressed keys `keys` (bit `k` for key
/// `k`): the keys bitmap becomes `keys`, and the key register holds the
/// lowest key that is pressed now and was not before (16 when none is).
pub open spec fn press_keys(m: Seq<u8>, keys: u16) -> Seq<u8> {
    let newly = !word(m, Region::Keys.start() as int) & keys;
    set_word(
        m.update(Region::KEY.start() as int, u16_trailing_zeros(newly) as u8),
        Region::Keys.start() as int,
        keys,
    )
}

/// A machine with all memory 0 but the program counter, which is 0x200.
pub open spec fn reset() -> Seq<u8> {
    set_word(Seq::new(MEM_SIZE as nat, |j: int| 0u8), Region::PC.start() as int, 0x200)
}

/// `m1` and `m2` differ at most in the timers and their time of update.
pub open spec fn same_but_timers(m1: Seq<u8>, m2: Seq<u8>) -> bool {
    &&& m1.len() == m2.len()
    &&& forall|j: int|
        0 <= j < m1.len() && !(Region::DT.start() <= j <= Region::ST.start()) && !(
        Region::Time.start() <= j < Region::Time.start() + 8) ==> #[trigger] m1[j] == m2[j]
}

/// The instruction at the program counter.
pub open spec fn fetch(m: Seq<u8>) -> OpCode {
    decode(m[pc(m) as int], m[pc(m) + 1])
}

/// The machine can run its next instruction: the instruction lies in
/// memory, and it can run once the program counter has moved past it.
pub open spec fn can_step(m: Seq<u8>) -> bool {
    &&& pc(m) + 2 <= MEM_SIZE
    &&& can_execute(advance(m), fetch(m))
}

/// `m` after one step of the machine when the clock reads `now` and
/// `GetRand` draws `rand`: the program counter moves past the instruction
/// at the program counter, the timers run until `now`, and the instruction
/// runs; an instruction that waits for a key leaves the program counter on
/// itself, so that it runs again at the next step.
pub open spec fn stepped(m: Seq<u8>, now: u64, rand: u8) -> Seq<u8> {
    let m1 = timers(advance(m), now);
    let m2 = run(m1, fetch(m), rand);
    if post(m1, fetch(m)) == PostExecute::Wait {
        set_word(m2, Region::PC.start() as int, pc(m))
    } else {
        m2
    }
}

// Addresses of the single registers.
const VS: u16 = 0x0EC0;
const VF: u16 = 0x0ECF;
const I_AT: u16 = 0x0ED0;
const PC_AT: u16 = 0x0ED2;
const SP_AT: u16 = 0x0ED4;
const DT_AT: u16 = 0x0ED5;
const ST_AT: u16 = 0x0ED6;
const KEY_AT: u16 = 0x0ED7;
const KEYS_AT: u16 = 0x0EE0;
const STACK: u16 = 0x0EA0;
const TIME_AT: u16 = 0x0ED8;
const MEMORY: u16 = 0x0200;
const DISPLAY: u16 = 0x0F00;

impl Chip8 {
    fn byte(&self, a: u16) -> (r: u8)
        requires
            a < MEM_SIZE,
        ensures
            r == self@[a as int],
    {
        self.0[a as usize]
    }

    fn set_byte(&mut self, a: u16, x: u8)
        requires
            a < MEM_SIZE,
        ensures
            final(self)@ == old(self)@.update(a as int, x),
    {
        self.0[a as usize] = x;
    }

    fn word(&self, a: u16) -> (r: u16)
        requires
            a + 2 <= MEM_SIZE,
        ensures
            r == word(self@, a as int),
    {
        let hi = self.0[a as usize] as u16;
        let lo = self.0[a as usize + 1] as u16;
        hi * 256 + lo
    }

    fn set_word(&mut self, a: u16, x: u16)
        requires
            a + 2 <= MEM_SIZE,
        ensures
            final(self)@ == set_word(old(self)@, a as int, x),
    {
        self.0[a as usize] = (x / 256) as u8;
        self.0[a as usize + 1] = (x % 256) as u8;
    }

    fn vreg(&self, r: u8) -> (x: u8)
        requires
            r <= 16,
        ensures
            x == v(self@, r),
    {
        self.0[(VS + r as u16) as usize]
    }

    fn set_vreg(&mut self, r: u8, x: u8)
        requires
            r <= 16,
        ensures
            final(self)@ == set_v(old(self)@, r, x),
    {
        self.0[(VS + r as u16) as usize] = x;
    }

    /// Moves the program counter past the next instruction.
    pub fn next_instruction(&mut self) -> (r: Option<()>)
        requires
            can_advance(old(self)@),
        ensures
            r == Some(()),
            final(self)@ == advance(old(self)@),
    {
        let next = self.word(PC_AT) + 2;
        self.set_word(PC_AT, next);
        Some(())
    }

    /// Pushes the program counter onto the stack.
    fn push(&mut self) -> (r: Option<()>)
        requires
            sp(old(self)@) < 32,
        ensures
            r == Some(()),
            final(self)@ == pushed(old(self)@),
    {
        let sp = self.byte(SP_AT);
        let pc = self.word(PC_AT);
        self.set_word(STACK + sp as u16, pc);
        self.set_byte(SP_AT, sp + 2);
        Some(())
    }

    /// Pops the return address on top of the stack.
    fn pop(&mut self) -> (r: Option<u16>)
        requires
            2 <= sp(old(self)@) <= 34,
        ensures
            final(self)@ == popped(old(self)@),
            r == Some(stack_top(old(self)@)),
    {
        let sp = self.byte(SP_AT);
        let adr = self.word(STACK + (sp - 2) as u16);
        self.set_byte(SP_AT, sp - 2);
        Some(adr)
    }

    /// Draws the `size`-line sprite at I at (V`x` mod 64, V`y` mod 32), and
    /// sets VF to 1 when a lit pixel was turned off, else to 0.
    fn draw(&mut self, x: u8, y: u8, size: u8)
        requires
            can_execute(old(self)@, OpCode::Draw { x, y, size }),
        ensures
            final(self)@ == run(old(self)@, OpCode::Draw { x, y, size }, 0),
    {
        proof {
            reveal(can_execute);
            reveal(run);
            crate::memops::lemma_pow256_values();
        }
        let px = self.vreg(x) % 64;
        let py = self.vreg(y) % 32;
        let i = self.word(I_AT);
        let ghost m0 = self@;
        let mut hit = false;
        let mut n: u8 = 0;
        while n < size
            invariant
                n <= size,
                self@.len() == MEM_SIZE,
                size > 0 ==> i + size <= MEM_SIZE && py + size - 1 <= 255,
                py < 32,
                px < 64,
                draw_lines(self@, px, py, i as int, size, n as nat) == draw_lines(
                    m0,
                    px,
                    py,
                    i as int,
                    size,
                    0,
                ),
                (hit || draw_hit(self@, px, py, i as int, size, n as nat)) == draw_hit(
                    m0,
                    px,
                    py,
                    i as int,
                    size,
                    0,
                ),
            decreases size - n,
        {
            let slice = self.byte(i + n as u16);
            let sprite = ((slice as u64) << 56u64) >> (px as u64);
            if py + n < 32 {
                let at = DISPLAY + ((py + n) as u16) * 8;
                let screen = self.load_be(at as usize, 8) as u64;
                if screen & sprite != 0 {
                    hit = true;
                }
                self.store_be((sprite ^ screen) as u128, at as usize, 8);
            }
            n += 1;
        }
        self.set_byte(VF, if hit { 1 } else { 0 });
    }

    /// Runs one instruction, with `rand` as the byte that `GetRand` draws.
    pub fn execute_with(&mut self, opcode: OpCode, rand: u8) -> (r: Option<PostExecute>)
        requires
            can_execute(old(self)@, opcode),
        ensures
            final(self)@ == run(old(self)@, opcode, rand),
            r == Some(post(old(self)@, opcode)),
    {
        proof {
            reveal(can_execute);
            reveal(run);
            reveal(post);
        }
        match opcode {
            OpCode::NoOp { .. } => {},
            OpCode::Clear => {
                let mut k: u16 = 0;
                while k < 256
                    invariant
                        k <= 256,
                        self@.len() == MEM_SIZE,
                        forall|j: int|
                            0 <= j < MEM_SIZE ==> self@[j] == (if 0xF00 <= j < 0xF00 + k {
                                0u8
                            } else {
                                old(self)@[j]
                            }),
                    decreases 256 - k,
                {
                    self.set_byte(DISPLAY + k, 0);
                    k += 1;
                }
                assert(self@ =~= clear_display(old(self)@));
            },
            OpCode::Draw { x, y, size } => self.draw(x, y, size),
            OpCode::Return => {
                let adr = self.pop().unwrap();
                self.set_word(PC_AT, adr);
            },
            OpCode::Jump { to } => self.set_word(PC_AT, to),
            OpCode::Call { at } => {
                self.push().unwrap();
                self.set_word(PC_AT, at);
            },
            OpCode::JumpReg { by } => {
                let v0 = self.vreg(0);
                self.set_word(PC_AT, v0 as u16 + by);
            },
            OpCode::SkipEqK { reg, val } => {
                if self.vreg(reg) == val {
                    self.next_instruction();
                }
            },
            OpCode::SkipNotEqK { reg, val } => {
                if self.vreg(reg) != val {
                    self.next_instruction();
                }
            },
            OpCode::SkipEq { a, b } => {
                if self.vreg(a) == self.vreg(b) {
                    self.next_instruction();
                }
            },
            OpCode::SkipNotEq { a, b } => {
                if self.vreg(a) != self.vreg(b) {
                    self.next_instruction();
                }
            },
            OpCode::SetV { reg, to } => self.set_vreg(reg, to),
            OpCode::IncV { reg, by } => {
                let vx = self.vreg(reg);
                self.set_vreg(reg, ((vx as u16 + by as u16) % 256) as u8);
            },
            OpCode::SetI { to } => self.set_word(I_AT, to),
            OpCode::GetRand { reg, mask } => self.set_vreg(reg, rand & mask),
            OpCode::SkipPressed { key } => {
                if self.vreg(key) == self.byte(KEY_AT) {
                    self.next_instruction();
                }
            },
            OpCode::SkipNotPressed { key } => {
                if self.vreg(key) != self.byte(KEY_AT) {
                    self.next_instruction();
                }
            },
            OpCode::ReadKey { to } => {
                let key = self.byte(KEY_AT);
                if self.word(KEYS_AT) == 0 || key >= 16 {
                    return Some(PostExecute::Wait);
                }
                self.set_vreg(to, key);
            },
            OpCode::ReadDelay { to } => {
                let dt = self.byte(DT_AT);
                self.set_vreg(to, dt);
            },
            OpCode::SetDelay { with } => {
                let vx = self.vreg(with);
                self.set_byte(DT_AT, vx);
                return Some(PostExecute::UpdateDt);
            },
            OpCode::SetSound { with } => {
                let vx = self.vreg(with);
                self.set_byte(ST_AT, vx);
                return Some(PostExecute::UpdateSt);
            },
            OpCode::IncI { with } => {
                let i = self.word(I_AT);
                let vx = self.vreg(with) as u16;
                self.set_word(I_AT, vx + i);
            },
            OpCode::GetFontSprite { of } => {
                let vx = self.vreg(of);
                self.set_word(I_AT, vx as u16 * 5);
            },
            OpCode::SaveRegs { upto } => {
                let i = self.word(I_AT);
                let ghost m0 = self@;
                let mut regs = [0u8; 16];
                let mut k: u16 = 0;
                while k < 16
                    invariant
                        k <= 16,
                        self@ == m0,
                        m0.len() == MEM_SIZE,
                        forall|t: int| 0 <= t < k ==> regs@[t] == m0[vaddr(0) + t],
                    decreases 16 - k,
                {
                    regs[k as usize] = self.byte(VS + k);
                    k += 1;
                }
                let mut k: u16 = 0;
                while k <= upto as u16
                    invariant
                        k <= upto + 1,
                        upto <= 15,
                        i + 16 <= MEM_SIZE,
                        self@.len() == MEM_SIZE,
                        forall|t: int| 0 <= t < 16 ==> regs@[t] == m0[vaddr(0) + t],
                        forall|j: int|
                            0 <= j < MEM_SIZE ==> self@[j] == (if i <= j < i + k {
                                m0[vaddr(0) + (j - i)]
                            } else {
                                m0[j]
                            }),
                    decreases upto + 1 - k,
                {
                    self.set_byte(i + k, regs[k as usize]);
                    k += 1;
                }
                assert(self@ =~= save_regs(m0, i as int, upto));
                self.set_word(I_AT, i + upto as u16 + 1);
            },
            OpCode::LoadRegs { upto } => {
                let i = self.word(I_AT);
                let ghost m0 = self@;
                let mut mems = [0u8; 16];
                let mut k: u16 = 0;
                while k < 16
                    invariant
                        k <= 16,
                        i + 16 <= MEM_SIZE,
                        self@ == m0,
                        m0.len() == MEM_SIZE,
                        forall|t: int| 0 <= t < k ==> mems@[t] == m0[i + t],
                    decreases 16 - k,
                {
                    mems[k as usize] = self.byte(i + k);
                    k += 1;
                }
                let mut k: u16 = 0;
                while k <= upto as u16
                    invariant
                        k <= upto + 1,
                        upto <= 15,
                        i + 16 <= MEM_SIZE,
                        self@.len() == MEM_SIZE,
                        forall|t: int| 0 <= t < 16 ==> mems@[t] == m0[i + t],
                        forall|j: int|
                            0 <= j < MEM_SIZE ==> self@[j] == (if vaddr(0) <= j < vaddr(0) + k {
                                m0[i + (j - vaddr(0))]
                            } else {
                                m0[j]
                            }),
                    decreases upto + 1 - k,
                {
                    self.set_byte(VS + k, mems[k as usize]);
                    k += 1;
                }
                assert(self@ =~= load_regs(m0, i as int, upto));
                self.set_word(I_AT, i + upto as u16 + 1);
            },
            OpCode::BCD { of } => {
                let x = self.vreg(of);
                let i = self.word(I_AT);
                self.set_byte(i, x / 100 % 10);
                self.set_byte(i + 1, x / 10 % 10);
                self.set_byte(i + 2, x % 10);
            },
            OpCode::Assign { a, to } => {
                let vb = self.vreg(to);
                self.set_vreg(a, vb);
            },
            OpCode::Or { a, b } => {
                let (va, vb) = (self.vreg(a), self.vreg(b));
                self.set_vreg(a, va | vb);
            },
            OpCode::And { a, b } => {
                let (va, vb) = (self.vreg(a), self.vreg(b));
                self.set_vreg(a, va & vb);
            },
            OpCode::Xor { a, b } => {
                let (va, vb) = (self.vreg(a), self.vreg(b));
                self.set_vreg(a, va ^ vb);
            },
            OpCode::Add { a, b } => {
                let (va, vb) = (self.vreg(a), self.vreg(b));
                let sum = va as u16 + vb as u16;
                self.set_vreg(a, (sum % 256) as u8);
                self.set_byte(VF, if sum > 255 { 1 } else { 0 });
            },
            OpCode::Sub { a, b } => {
                let (va, vb) = (self.vreg(a), self.vreg(b));
                let res = ((va as u16 + 256 - vb as u16) % 256) as u8;
                self.set_vreg(a, res);
                self.set_byte(VF, if va >= vb { 1 } else { 0 });
            },
            OpCode::ShiftR { a, b } => {
                let vb = self.vreg(b);
                self.set_vreg(a, vb / 2);
                self.set_byte(VF, vb % 2);
            },
            OpCode::SubN { a, b } => {
                let (va, vb) = (self.vreg(a), self.vreg(b));
                let res = ((vb as u16 + 256 - va as u16) % 256) as u8;
                self.set_vreg(a, res);
                self.set_byte(VF, if vb >= va { 1 } else { 0 });
            },
            OpCode::ShiftL { a, b } => {
                let vb = self.vreg(b);
                self.set_vreg(a, ((vb as u16 * 2) % 256) as u8);
                self.set_byte(VF, vb / 128);
            },
        }
        Some(PostExecute::Next)
    }

    /// Runs one instruction; `GetRand` draws its byte from the thread's
    /// random generator.
    pub fn execute(&mut self, opcode: OpCode) -> (r: Option<PostExecute>)
        requires
            can_execute(old(self)@, opcode),
        ensures
            exists|rand: u8| final(self)@ == run(old(self)@, opcode, rand),
            r == Some(post(old(self)@, opcode)),
    {
        let rand = match opcode {
            OpCode::GetRand { .. } => random_byte(),
            _ => 0,
        };
        self.execute_with(opcode, rand)
    }

    /// The first address of a program.
    pub const INITIAL_PC: u16 = 0x200;

    /// A machine with all memory 0 but the program counter, which points at
    /// the program's start, and the time of the last timer update, which is
    /// `now` (in milliseconds).
    pub fn new_at(now: u64) -> (c: Chip8)
        ensures
            c@ == store_be(reset(), Region::Time.start() as int, now as nat, 8),
    {
        let mut c = Chip8([0; 0x1000]);
        assert(c@ =~= Seq::new(MEM_SIZE as nat, |j: int| 0u8));
        c.set_word(PC_AT, 0x200);
        c.store_be(now as u128, TIME_AT as usize, 8);
        c
    }

    /// A machine with all memory 0 but the program counter, which points at
    /// the program's start, and the time of the last timer update, which is
    /// read from the system clock.
    pub fn new() -> (r: Result<Chip8, Chip8Error>)
        ensures
            r matches Ok(c) ==> exists|now: u64|
                c@ == store_be(reset(), Region::Time.start() as int, now as nat, 8),
            r matches Err(e) ==> e == Chip8Error::ClockBeforeEpoch,
    {
        match now_millis() {
            Some(now) => Ok(Chip8::new_at(now)),
            None => Err(Chip8Error::ClockBeforeEpoch),
        }
    }

    /// Copies a program into memory from the program's start on.
    pub fn load_program(&mut self, program: &[u8]) -> (r: Result<(), Chip8Error>)
        requires
            Region::Memory.start() + program@.len() <= MEM_SIZE,
        ensures
            r == Ok::<(), Chip8Error>(()),
            final(self)@ == store(old(self)@, Region::Memory.start() as int, program@),
    {
        self.write_bytes(program, MEMORY);
        Ok(())
    }

    /// Copies data (the font) into memory from address 0 on.
    pub fn load_data(&mut self, data: &[u8]) -> (r: Result<(), Chip8Error>)
        requires
            data@.len() <= MEM_SIZE,
        ensures
            r == Ok::<(), Chip8Error>(()),
            final(self)@ == store(old(self)@, Region::Data.start() as int, data@),
    {
        self.write_bytes(data, 0u16);
        Ok(())
    }

    /// Takes the bitmap of the keys that are pressed now (bit `k` for key
    /// `k`): stores it, and notes the lowest key that is newly pressed.
    pub fn load_key(&mut self, new_keys: u16) -> (r: Result<(), Chip8Error>)
        ensures
            r == Ok::<(), Chip8Error>(()),
            final(self)@ == press_keys(old(self)@, new_keys),
    {
        let old_keys = self.word(KEYS_AT);
        let newly_pressed = !old_keys & new_keys;
        let zeros = newly_pressed.trailing_zeros();
        proof {
            vstd::std_specs::bits::axiom_u16_trailing_zeros(newly_pressed);
        }
        let last_pressed = zeros as u8;
        self.set_byte(KEY_AT, last_pressed);
        self.set_word(KEYS_AT, new_keys);
        Ok(())
    }

    /// Runs the timers until `now` (in milliseconds); fails, and changes
    /// nothing, when `now` is before their last update.
    pub fn step_timers_at(&mut self, now: u64) -> (r: Result<(), Chip8Error>)
        ensures
            now < time(old(self)@) ==> r == Err::<(), Chip8Error>(Chip8Error::ClockWentBack)
                && final(self)@ == old(self)@,
            now >= time(old(self)@) ==> r == Ok::<(), Chip8Error>(()) && final(self)@ == timers(
                old(self)@,
                now,
            ),
    {
        proof {
            crate::memops::lemma_pow256_values();
        }
        let prev = self.load_be(TIME_AT as usize, 8) as u64;
        if now < prev {
            return Err(Chip8Error::ClockWentBack);
        }
        let difference = now - prev;
        let decrements: u8 = if difference / TICK_MS > 255 {
            255
        } else {
            (difference / TICK_MS) as u8
        };
        let reminder = difference % TICK_MS;
        self.store_be((now - reminder) as u128, TIME_AT as usize, 8);
        let dt = self.byte(DT_AT);
        let st = self.byte(ST_AT);
        self.set_byte(DT_AT, dt.saturating_sub(decrements));
        self.set_byte(ST_AT, st.saturating_sub(decrements));
        Ok(())
    }

    /// Runs the timers until the time the system clock reads; fails, and
    /// changes nothing, when the clock reads a time before the Unix epoch
    /// or before the timers' last update.
    pub fn step_timers(&mut self) -> (r: Result<(), Chip8Error>)
        ensures
            r is Ok ==> exists|now: u64|
                now >= time(old(self)@) && final(self)@ == timers(old(self)@, now),
            r is Err ==> final(self)@ == old(self)@,
    {
        match now_millis() {
            Some(now) => self.step_timers_at(now),
            None => Err(Chip8Error::ClockBeforeEpoch),
        }
    }

    /// Runs the instruction at the program counter when the clock reads
    /// `now` (in milliseconds) and `GetRand` draws `rand`: moves the program
    /// counter past the instruction, runs the timers until `now`, and
    /// executes the instruction; when the instruction waits for a key, the
    /// program counter is moved back onto it. Fails, with only the program
    /// counter moved, when `now` is before the timers' last update.
    #[verifier::rlimit(30)]
    pub fn step_at(&mut self, now: u64, rand: u8) -> (r: Result<PostExecute, Chip8Error>)
        requires
            can_step(old(self)@),
        ensures
            now < time(advance(old(self)@)) ==> r == Err::<PostExecute, Chip8Error>(
                Chip8Error::ClockWentBack,
            ) && final(self)@ == advance(old(self)@),
            now >= time(advance(old(self)@)) ==> final(self)@ == stepped(old(self)@, now, rand)
                && r == Ok::<PostExecute, Chip8Error>(
                post(timers(advance(old(self)@), now), fetch(old(self)@)),
            ),
            r == Ok::<PostExecute, Chip8Error>(PostExecute::Wait) ==> pc(final(self)@) == pc(
                old(self)@,
            ),
    {
        let pc = self.word(PC_AT);
        let fragment = self.word(pc);
        let opcode = OpCode::from(fragment);
        proof {
            let m = old(self)@;
            let hi = m[pc as int];
            let lo = m[pc + 1];
            assert(fragment == hi * 256 + lo);
            assert(fragment / 256 == hi && fragment % 256 == lo);
        }
        assert(opcode == fetch(old(self)@));
        self.next_instruction();
        let ghost m1 = self@;
        self.step_timers_at(now)?;
        let ghost m2 = self@;
        proof {
            lemma_timers_only_touch_timers(m1, now);
            lemma_can_execute_ignores_timers(m1, m2, opcode);
        }
        let result = self.execute_with(opcode, rand).unwrap();
        if let PostExecute::Wait = result {
            self.set_word(PC_AT, pc);
        }
        assert(self@ == stepped(old(self)@, now, rand));
        Ok(result)
    }

    /// Runs the instruction at the program counter (see [`Chip8::step_at`])
    /// with the time the system clock reads and a byte drawn from the
    /// thread's random generator; fails, with only the program counter
    /// moved, when the clock reads a time before the Unix epoch or before
    /// the timers' last update.
    pub fn step(&mut self) -> (r: Result<PostExecute, Chip8Error>)
        requires
            can_step(old(self)@),
        ensures
            r is Err ==> final(self)@ == advance(old(self)@),
            r == Ok::<PostExecute, Chip8Error>(PostExecute::Wait) ==> pc(final(self)@) == pc(
                old(self)@,
            ),
            r matches Ok(p) ==> exists|now: u64, rand: u8|
                #![trigger stepped(old(self)@, now, rand)]
                {
                    &&& now >= time(advance(old(self)@))
                    &&& final(self)@ == stepped(old(self)@, now, rand)
                    &&& p == post(timers(advance(old(self)@), now), fetch(old(self)@))
                },
    {
        match now_millis() {
            Some(now) => {
                let rand = random_byte();
                self.step_at(now, rand)
            },
            None => {
                self.next_instruction();
                Err(Chip8Error::ClockBeforeEpoch)
            },
        }
    }

    /// Whether the instruction can run now (see [`can_execute`]).
    pub fn can_execute_now(&self, opcode: OpCode) -> (b: bool)
        ensures
            b == can_execute(self@, opcode),
    {
        proof {
            reveal(can_execute);
        }
        let i = self.word(I_AT) as u32;
        let advance_ok = (self.word(PC_AT) as u32) + 2 <= 0xFFFF;
        match opcode {
            OpCode::NoOp { .. } => true,
            OpCode::Clear => true,
            OpCode::Draw { x, y, size } => {
                x <= 16 && y <= 16 && (size == 0 || (i + size as u32 <= 0x1000 && (self.vreg(y)
                    % 32) as u32 + size as u32 - 1 <= 255))
            },
            OpCode::Return => {
                let sp = self.byte(SP_AT);
                2 <= sp && sp <= 34
            },
            OpCode::Jump { .. } => true,
            OpCode::Call { .. } => self.byte(SP_AT) < 32,
            OpCode::JumpReg { by } => self.vreg(0) as u32 + by as u32 <= 0xFFFF,
            OpCode::SkipEqK { reg, val } => reg <= 16 && (self.vreg(reg) != val || advance_ok),
            OpCode::SkipNotEqK { reg, val } => reg <= 16 && (self.vreg(reg) == val || advance_ok),
            OpCode::SkipEq { a, b } => a <= 16 && b <= 16 && (self.vreg(a) != self.vreg(b)
                || advance_ok),
            OpCode::SkipNotEq { a, b } => a <= 16 && b <= 16 && (self.vreg(a) == self.vreg(b)
                || advance_ok),
            OpCode::SetV { reg, .. } => reg <= 16,
            OpCode::IncV { reg, .. } => reg <= 16,
            OpCode::SetI { .. } => true,
            OpCode::GetRand { reg, .. } => reg <= 16,
            OpCode::SkipPressed { key } => key <= 16 && (self.vreg(key) != self.byte(KEY_AT)
                || advance_ok),
            OpCode::SkipNotPressed { key } => key <= 16 && (self.vreg(key) == self.byte(KEY_AT)
                || advance_ok),
            OpCode::ReadKey { to } => self.word(KEYS_AT) == 0 || self.byte(KEY_AT) >= 16 || to <= 16,
            OpCode::ReadDelay { to } => to <= 16,
            OpCode::SetDelay { with } => with <= 16,
            OpCode::SetSound { with } => with <= 16,
            OpCode::IncI { with } => with <= 16 && self.vreg(with) as u32 + i <= 0xFFFF,
            OpCode::GetFontSprite { of } => of <= 16,
            OpCode::SaveRegs { upto } => upto <= 15 && i + 16 <= 0x1000,
            OpCode::LoadRegs { upto } => upto <= 15 && i + 16 <= 0x1000,
            OpCode::BCD { of } => of <= 16 && i + 3 <= 0x1000,
            OpCode::Assign { a, to } => a <= 16 && to <= 16,
            OpCode::Or { a, b } => a <= 16 && b <= 16,
            OpCode::And { a, b } => a <= 16 && b <= 16,
            OpCode::Xor { a, b } => a <= 16 && b <= 16,
            OpCode::Add { a, b } => a <= 16 && b <= 16,
            OpCode::Sub { a, b } => a <= 16 && b <= 16,
            OpCode::ShiftR { a, b } => a <= 16 && b <= 16,
            OpCode::SubN { a, b } => a <= 16 && b <= 16,
            OpCode::ShiftL { a, b } => a <= 16 && b <= 16,
        }
    }

    /// Whether the instruction at the program counter can run now (see
    /// [`can_step`]).
    pub fn can_step_now(&self) -> (b: bool)
        ensures
            b == can_step(self@),
    {
        let pc = self.word(PC_AT);
        if pc as u32 + 2 > 0x1000 {
            return false;
        }
        let fragment = self.word(pc);
        let opcode = OpCode::from(fragment);
        proof {
            let m = self@;
            let hi = m[pc as int];
            let lo = m[pc + 1];
            assert(fragment == hi * 256 + lo);
            assert(fragment / 256 == hi && fragment % 256 == lo);
        }
        assert(opcode == fetch(self@));
        let mut next = self.clone_state();
        next.next_instruction();
        next.can_execute_now(opcode)
    }

    /// A copy of the machine.
    fn clone_state(&self) -> (c: Chip8)
        ensures
            c@ == self@,
    {
        Chip8(self.0)
    }

}

impl Default for Chip8 {
    /// A machine with all memory 0 but the program counter, which points at
    /// the program's start.
    fn default() -> (c: Self)
        ensures
            c@ == reset(),
    {
        let mut c = Chip8([0; 0x1000]);
        assert(c@ =~= Seq::new(MEM_SIZE as nat, |j: int| 0u8));
        c.set_word(PC_AT, 0x200);
        c
    }
}

impl std::ops::Index<std::ops::Range<usize>> for Chip8 {
    type Output = [u8];

    /// The bytes of the memory in the range.
    fn index(&self, index: std::ops::Range<usize>) -> (s: &[u8])
        ensures
            s@ == self@.subrange(index.start as int, index.end as int),
    {
        let all: &[u8] = self.0.as_slice();
        &all[index]
    }
}

impl vstd::std_specs::core::IndexSpecImpl<std::ops::Range<usize>> for Chip8 {
    open spec fn index_req(&self, index: &std::ops::Range<usize>) -> bool {
        index.start <= index.end <= MEM_SIZE
    }
}

#[verifier::external_type_specification]
#[verifier::external_body]
pub struct ExSystemTime(std::time::SystemTime);

/// The time the system clock reads, from `SystemTime::now`. Nothing is
/// stated of it: it is the machine's clock.
#[verifier::external_body]
fn system_now() -> (t: std::time::SystemTime) {
    std::time::SystemTime::now()
}

/// The time elapsed from the Unix epoch to `t`, from
/// `SystemTime::duration_since(UNIX_EPOCH)`; `None` when `t` is before the
/// epoch. Nothing is stated of the duration: `SystemTime` is opaque here.
#[verifier::external_body]
fn since_epoch(t: &std::time::SystemTime) -> (d: Option<std::time::Duration>) {
    t.duration_since(std::time::UNIX_EPOCH).ok()
}

/// The whole milliseconds of `d`, from `Duration::as_millis`, truncated to
/// 64 bits. Nothing is stated of the number: `Duration` is opaque here.
#[verifier::external_body]
fn whole_millis(d: &std::time::Duration) -> (ms: u64) {
    d.as_millis() as u64
}

/// Milliseconds since the Unix epoch that the system clock reads; `None`
/// when it reads a time before the epoch.
fn now_millis() -> (r: Option<u64>) {
    let now = system_now();
    match since_epoch(&now) {
        Some(elapsed) => Some(whole_millis(&elapsed)),
        None => None,
    }
}

/// Running the timers changes nothing but the timers and their time of
/// update.
pub proof fn lemma_timers_only_touch_timers(m: Seq<u8>, now: u64)
    requires
        m.len() == MEM_SIZE,
    ensures
        same_but_timers(m, timers(m, now)),
{
    let elapsed = now - time(m);
    crate::memops::lemma_be_roundtrip((now - elapsed % TICK_MS as int) as nat, 8);
}

/// The timers, and their time of update, do not decide whether an
/// instruction can run.
pub proof fn lemma_can_execute_ignores_timers(m1: Seq<u8>, m2: Seq<u8>, op: OpCode)
    requires
        m1.len() == MEM_SIZE,
        same_but_timers(m1, m2),
    ensures
        can_execute(m1, op) == can_execute(m2, op),
{
    reveal(can_execute);
    assert forall|r: u8| r <= 16 implies v(m1, r) == v(m2, r) by {
        assert(m1[vaddr(r)] == m2[vaddr(r)]);
    }
    assert(i_reg(m1) == i_reg(m2)) by {
        assert(m1[Region::I.start() as int] == m2[Region::I.start() as int]);
        assert(m1[(Region::I.start() + 1) as int] == m2[(Region::I.start() + 1) as int]);
    }
    assert(pc(m1) == pc(m2)) by {
        assert(m1[Region::PC.start() as int] == m2[Region::PC.start() as int]);
        assert(m1[(Region::PC.start() + 1) as int] == m2[(Region::PC.start() + 1) as int]);
    }
    assert(sp(m1) == sp(m2)) by {
        assert(m1[Region::SP.start() as int] == m2[Region::SP.start() as int]);
    }
    assert(m1[Region::KEY.start() as int] == m2[Region::KEY.start() as int]);
    assert(m1[Region::Keys.start() as int] == m2[Region::Keys.start() as int]);
    assert(m1[(Region::Keys.start() + 1) as int] == m2[(Region::Keys.start() + 1) as int]);
}

/// Draws a byte from the thread's random generator with `rand::random`.
/// Nothing is stated of the byte: it depends on the generator's state.
#[verifier::external_body]
fn random_byte() -> (r: u8) {
    rand::random::<u8>()
}

} // verus!
