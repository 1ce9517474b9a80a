use vstd::prelude::*;

verus! {

/// Index of a V register (`0x0..=0xF`).
pub type Reg = u8;

/// A 12-bit address.
pub type Adr = u16;

/// The instructions of the machine, each with the operands its 16-bit
/// big-endian encoding carries (`X`, `Y`, `N` are nibbles, `NN` a byte,
/// `NNN` a 12-bit address).
#[allow(inconsistent_fields)]
#[derive(Debug, Clone, Copy)]
pub enum OpCode {
    /// 0NNN: no operation
    NoOp { val: Adr },
    /// 00E0: clear the screen
    Clear,
    /// DXYN: draw the N-line sprite at I on the screen at (VX, VY)
    Draw { x: Reg, y: Reg, size: u8 },
    /// 00EE: return from a subroutine (pop the stack into PC)
    Return,
    /// 1NNN: jump to NNN
    Jump { to: Adr },
    /// 2NNN: call the subroutine at NNN (push PC)
    Call { at: Adr },
    /// BNNN: jump to V0 + NNN
    JumpReg { by: Adr },
    /// 3XNN: skip the next instruction if VX == NN
    SkipEqK { reg: Reg, val: u8 },
    /// 4XNN: skip the next instruction if VX != NN
    SkipNotEqK { reg: Reg, val: u8 },
    /// 5XY0: skip the next instruction if VX == VY
    SkipEq { a: Reg, b: Reg },
    /// 9XY0: skip the next instruction if VX != VY
    SkipNotEq { a: Reg, b: Reg },
    /// 6XNN: VX = NN
    SetV { reg: Reg, to: u8 },
    /// 7XNN: VX += NN (without flagging an overflow)
    IncV { reg: Reg, by: u8 },
    /// ANNN: I = NNN
    SetI { to: Adr },
    /// CXNN: VX = rand() & NN
    GetRand { reg: Reg, mask: u8 },
    /// EX9E: skip the next instruction if the key is VX
    SkipPressed { key: Reg },
    /// EXA1: skip the next instruction if the key is not VX
    SkipNotPressed { key: Reg },
    /// FX0A: VX = key (waits for a key)
    ReadKey { to: Reg },
    /// FX07: VX = DT
    ReadDelay { to: Reg },
    /// FX15: DT = VX
    SetDelay { with: Reg },
    /// FX18: ST = VX
    SetSound { with: Reg },
    /// FX1E: I += VX
    IncI { with: Reg },
    /// FX29: I = address of the font sprite of VX
    GetFontSprite { of: Reg },
    /// FX55: store V0..=VX at I
    SaveRegs { upto: Reg },
    /// FX65: load V0..=VX from I
    LoadRegs { upto: Reg },
    /// FX33: the decimal digits of VX at I, I+1, I+2
    BCD { of: Reg },
    /// 8XY0: VX = VY
    Assign { a: Reg, to: Reg },
    /// 8XY1: VX |= VY
    Or { a: Reg, b: Reg },
    /// 8XY2: VX &= VY
    And { a: Reg, b: Reg },
    /// 8XY3: VX ^= VY
    Xor { a: Reg, b: Reg },
    /// 8XY4: VX += VY, VF = overflow
    Add { a: Reg, b: Reg },
    /// 8XY5: VX -= VY, VF = no underflow
    Sub { a: Reg, b: Reg },
    /// 8XY6: VX = VY >> 1, VF = lowest bit of VY
    ShiftR { a: Reg, b: Reg },
    /// 8XY7: VX = VY - VX, VF = no underflow
    SubN { a: Reg, b: Reg },
    /// 8XYE: VX = VY << 1, VF = highest bit of VY
    ShiftL { a: Reg, b: Reg },
}

/// The 12-bit number with nibbles `b`, `c`, `d`.
pub open spec fn nnn(b: u8, c: u8, d: u8) -> u16 {
    (b * 256 + c * 16 + d) as u16
}

/// The byte with nibbles `c`, `d`.
pub open spec fn nn(c: u8, d: u8) -> u8 {
    (c * 16 + d) as u8
}

/// The instruction that the nibbles `a b c d` encode; encodings that name no
/// instruction decode to `NoOp { val: 0 }`.
#[verifier::opaque]
pub open spec fn decode_nibbles(a: u8, b: u8, c: u8, d: u8) -> OpCode {
    if a == 0 && b == 0 && c == 0xe && d == 0 {
        OpCode::Clear
    } else if a == 0xd {
        OpCode::Draw { x: b, y: c, size: d }
    } else if a == 0 && b == 0 && c == 0xe && d == 0xe {
        OpCode::Return
    } else if a == 0 {
        OpCode::NoOp { val: nnn(b, c, d) }
    } else if a == 1 {
        OpCode::Jump { to: nnn(b, c, d) }
    } else if a == 2 {
        OpCode::Call { at: nnn(b, c, d) }
    } else if a == 0xb {
        OpCode::JumpReg { by: nnn(b, c, d) }
    } else if a == 3 {
        OpCode::SkipEqK { reg: b, val: nn(c, d) }
    } else if a == 4 {
        OpCode::SkipNotEqK { reg: b, val: nn(c, d) }
    } else if a == 5 && d == 0 {
        OpCode::SkipEq { a: b, b: c }
    } else if a == 9 && d == 0 {
        OpCode::SkipNotEq { a: b, b: c }
    } else if a == 6 {
        OpCode::SetV { reg: b, to: nn(c, d) }
    } else if a == 7 {
        OpCode::IncV { reg: b, by: nn(c, d) }
    } else if a == 0xa {
        OpCode::SetI { to: nnn(b, c, d) }
    } else if a == 0xc {
        OpCode::GetRand { reg: b, mask: nn(c, d) }
    } else if a == 0xe && c == 9 && d == 0xe {
        OpCode::SkipPressed { key: b }
    } else if a == 0xe && c == 0xa && d == 1 {
        OpCode::SkipNotPressed { key: b }
    } else if a == 0xf && c == 0 && d == 0xa {
        OpCode::ReadKey { to: b }
    } else if a == 0xf && c == 0 && d == 7 {
        OpCode::ReadDelay { to: b }
    } else if a == 0xf && c == 1 && d == 5 {
        OpCode::SetDelay { with: b }
    } else if a == 0xf && c == 1 && d == 8 {
        OpCode::SetSound { with: b }
    } else if a == 0xf && c == 1 && d == 0xe {
        OpCode::IncI { with: b }
    } else if a == 0xf && c == 2 && d == 9 {
        OpCode::GetFontSprite { of: b }
    } else if a == 0xf && c == 5 && d == 5 {
        OpCode::SaveRegs { upto: b }
    } else if a == 0xf && c == 6 && d == 5 {
        OpCode::LoadRegs { upto: b }
    } else if a == 0xf && c == 3 && d == 3 {
        OpCode::BCD { of: b }
    } else if a == 8 && d == 0 {
        OpCode::Assign { a: b, to: c }
    } else if a == 8 && d == 1 {
        OpCode::Or { a: b, b: c }
    } else if a == 8 && d == 2 {
        OpCode::And { a: b, b: c }
    } else if a == 8 && d == 3 {
        OpCode::Xor { a: b, b: c }
    } else if a == 8 && d == 4 {
        OpCode::Add { a: b, b: c }
    } else if a == 8 && d == 5 {
        OpCode::Sub { a: b, b: c }
    } else if a == 8 && d == 6 {
        OpCode::ShiftR { a: b, b: c }
    } else if a == 8 && d == 7 {
        OpCode::SubN { a: b, b: c }
    } else if a == 8 && d == 0xe {
        OpCode::ShiftL { a: b, b: c }
    } else {
        OpCode::NoOp { val: 0 }
    }
}

/// The instruction that the big-endian bytes `hi`, `lo` encode.
pub open spec fn decode(hi: u8, lo: u8) -> OpCode {
    decode_nibbles(hi / 16, hi % 16, lo / 16, lo % 16)
}

/// Every register operand of `op` names one of V0..=VF, and `Draw` draws at
/// most 15 lines.
pub open spec fn operands_in_range(op: OpCode) -> bool {
    match op {
        OpCode::Draw { x, y, size } => x < 16 && y < 16 && size < 16,
        OpCode::SkipEqK { reg, .. } => reg < 16,
        OpCode::SkipNotEqK { reg, .. } => reg < 16,
        OpCode::SkipEq { a, b } => a < 16 && b < 16,
        OpCode::SkipNotEq { a, b } => a < 16 && b < 16,
        OpCode::SetV { reg, .. } => reg < 16,
        OpCode::IncV { reg, .. } => reg < 16,
        OpCode::GetRand { reg, .. } => reg < 16,
        OpCode::SkipPressed { key } => key < 16,
        OpCode::SkipNotPressed { key } => key < 16,
        OpCode::ReadKey { to } => to < 16,
        OpCode::ReadDelay { to } => to < 16,
        OpCode::SetDelay { with } => with < 16,
        OpCode::SetSound { with } => with < 16,
        OpCode::IncI { with } => with < 16,
        OpCode::GetFontSprite { of } => of < 16,
        OpCode::SaveRegs { upto } => upto < 16,
        OpCode::LoadRegs { upto } => upto < 16,
        OpCode::BCD { of } => of < 16,
        OpCode::Assign { a, to } => a < 16 && to < 16,
        OpCode::Or { a, b } => a < 16 && b < 16,
        OpCode::And { a, b } => a < 16 && b < 16,
        OpCode::Xor { a, b } => a < 16 && b < 16,
        OpCode::Add { a, b } => a < 16 && b < 16,
        OpCode::Sub { a, b } => a < 16 && b < 16,
        OpCode::ShiftR { a, b } => a < 16 && b < 16,
        OpCode::SubN { a, b } => a < 16 && b < 16,
        OpCode::ShiftL { a, b } => a < 16 && b < 16,
        _ => true,
    }
}

/// Decoding never yields an out-of-range operand: registers come from
/// nibbles, and so do sprite heights.
pub proof fn lemma_decode_operands_in_range(hi: u8, lo: u8)
    ensures
        operands_in_range(decode(hi, lo)),
{
    reveal(decode_nibbles);
}

/// The opcode table, instructions with an address: 00E0, 00EE, 0NNN,
/// 1NNN, 2NNN, ANNN and BNNN, where `NNN` is `x * 256 + kk`.
pub proof fn lemma_decode_addresses(x: u8, kk: u8)
    requires
        x < 16,
    ensures
        decode(0x00, 0xe0) == OpCode::Clear,
        decode(0x00, 0xee) == OpCode::Return,
        !(x == 0 && (kk == 0xe0 || kk == 0xee)) ==> decode(x, kk) == (OpCode::NoOp { val: (x * 256 + kk) as u16 }),
        decode((0x10 + x) as u8, kk) == (OpCode::Jump { to: (x * 256 + kk) as u16 }),
        decode((0x20 + x) as u8, kk) == (OpCode::Call { at: (x * 256 + kk) as u16 }),
        decode((0xa0 + x) as u8, kk) == (OpCode::SetI { to: (x * 256 + kk) as u16 }),
        decode((0xb0 + x) as u8, kk) == (OpCode::JumpReg { by: (x * 256 + kk) as u16 }),
{
    reveal(decode_nibbles);
    assert((kk / 16) * 16 + kk % 16 == kk);
}

/// The opcode table, instructions with a byte operand: 3XNN, 4XNN, 6XNN,
/// 7XNN and CXNN, where `X` is `x` and `NN` is `kk`.
pub proof fn lemma_decode_immediates(x: u8, kk: u8)
    requires
        x < 16,
    ensures
        decode((0x30 + x) as u8, kk) == (OpCode::SkipEqK { reg: x, val: kk }),
        decode((0x40 + x) as u8, kk) == (OpCode::SkipNotEqK { reg: x, val: kk }),
        decode((0x60 + x) as u8, kk) == (OpCode::SetV { reg: x, to: kk }),
        decode((0x70 + x) as u8, kk) == (OpCode::IncV { reg: x, by: kk }),
        decode((0xc0 + x) as u8, kk) == (OpCode::GetRand { reg: x, mask: kk }),
{
    reveal(decode_nibbles);
    assert((kk / 16) * 16 + kk % 16 == kk);
}

/// The opcode table, instructions on two registers: 5XY0, 9XY0 and 8XY0
/// to 8XYE, where `X` is `x` and `Y` is `y`.
pub proof fn lemma_decode_register_pairs(x: u8, y: u8)
    requires
        x < 16,
        y < 16,
    ensures
        decode((0x50 + x) as u8, (y * 16) as u8) == (OpCode::SkipEq { a: x, b: y }),
        decode((0x90 + x) as u8, (y * 16) as u8) == (OpCode::SkipNotEq { a: x, b: y }),
        decode((0x80 + x) as u8, (y * 16 + 0) as u8) == (OpCode::Assign { a: x, to: y }),
        decode((0x80 + x) as u8, (y * 16 + 1) as u8) == (OpCode::Or { a: x, b: y }),
        decode((0x80 + x) as u8, (y * 16 + 2) as u8) == (OpCode::And { a: x, b: y }),
        decode((0x80 + x) as u8, (y * 16 + 3) as u8) == (OpCode::Xor { a: x, b: y }),
        decode((0x80 + x) as u8, (y * 16 + 4) as u8) == (OpCode::Add { a: x, b: y }),
        decode((0x80 + x) as u8, (y * 16 + 5) as u8) == (OpCode::Sub { a: x, b: y }),
        decode((0x80 + x) as u8, (y * 16 + 6) as u8) == (OpCode::ShiftR { a: x, b: y }),
        decode((0x80 + x) as u8, (y * 16 + 7) as u8) == (OpCode::SubN { a: x, b: y }),
        decode((0x80 + x) as u8, (y * 16 + 0xe) as u8) == (OpCode::ShiftL { a: x, b: y }),
{
    reveal(decode_nibbles);
}

/// The opcode table, DXYN, EX9E and EXA1, where `X` is `x`, `Y` is `y`
/// and `N` is `n`.
pub proof fn lemma_decode_screen_and_keys(x: u8, y: u8, n: u8)
    requires
        x < 16,
        y < 16,
        n < 16,
    ensures
        decode((0xd0 + x) as u8, (y * 16 + n) as u8) == (OpCode::Draw { x, y, size: n }),
        decode((0xe0 + x) as u8, 0x9e) == (OpCode::SkipPressed { key: x }),
        decode((0xe0 + x) as u8, 0xa1) == (OpCode::SkipNotPressed { key: x }),
{
    reveal(decode_nibbles);
}

/// The opcode table, FX07 to FX65, where `X` is `x`.
pub proof fn lemma_decode_fx(x: u8)
    requires
        x < 16,
    ensures
        decode((0xf0 + x) as u8, 0x07) == (OpCode::ReadDelay { to: x }),
        decode((0xf0 + x) as u8, 0x0a) == (OpCode::ReadKey { to: x }),
        decode((0xf0 + x) as u8, 0x15) == (OpCode::SetDelay { with: x }),
        decode((0xf0 + x) as u8, 0x18) == (OpCode::SetSound { with: x }),
        decode((0xf0 + x) as u8, 0x1e) == (OpCode::IncI { with: x }),
        decode((0xf0 + x) as u8, 0x29) == (OpCode::GetFontSprite { of: x }),
        decode((0xf0 + x) as u8, 0x33) == (OpCode::BCD { of: x }),
        decode((0xf0 + x) as u8, 0x55) == (OpCode::SaveRegs { upto: x }),
        decode((0xf0 + x) as u8, 0x65) == (OpCode::LoadRegs { upto: x }),
{
    reveal(decode_nibbles);
}

/// The nibbles of an opcode put back together give the opcode.
pub proof fn lemma_nibbles_recombine(hi: u8, lo: u8)
    ensures
        (hi / 16) * 16 + hi % 16 == hi,
        (lo / 16) * 16 + lo % 16 == lo,
        hi / 16 < 16 && hi % 16 < 16 && lo / 16 < 16 && lo % 16 < 16,
{
}

impl OpCode {
    /// The four nibbles of a two-byte opcode, most significant first.
    pub fn as_nibbles(opcode: &[u8; 2]) -> (r: [u8; 4])
        ensures
            r@ == seq![opcode@[0] / 16, opcode@[0] % 16, opcode@[1] / 16, opcode@[1] % 16],
    {
        let hi = opcode[0];
        let lo = opcode[1];
        assert(hi >> 4 == hi / 16 && hi & 0xf == hi % 16) by (bit_vector);
        assert(lo >> 4 == lo / 16 && lo & 0xf == lo % 16) by (bit_vector);
        let r = [hi >> 4, hi & 0xf, lo >> 4, lo & 0xf];
        assert(r@ =~= seq![hi / 16, hi % 16, lo / 16, lo % 16]);
        r
    }

    /// Decodes a two-byte big-endian opcode.
    pub fn decode(value: &[u8; 2]) -> (op: OpCode)
        ensures
            op == decode(value@[0], value@[1]),
    {
        proof {
            reveal(decode_nibbles);
        }
        let n = OpCode::as_nibbles(value);
        let (a, b, c, d) = (n[0], n[1], n[2], n[3]);
        assert(a < 16 && b < 16 && c < 16 && d < 16);
        let adr = (b as u16) * 256 + (c as u16) * 16 + d as u16;
        let byte = c * 16 + d;
        match (a, b, c, d) {
            (0, 0, 0xe, 0) => OpCode::Clear,
            (0xd, x, y, size) => OpCode::Draw { x, y, size },
            (0, 0, 0xe, 0xe) => OpCode::Return,
            (0, _, _, _) => OpCode::NoOp { val: adr },
            (0x1, _, _, _) => OpCode::Jump { to: adr },
            (0x2, _, _, _) => OpCode::Call { at: adr },
            (0xb, _, _, _) => OpCode::JumpReg { by: adr },
            (0x3, reg, _, _) => OpCode::SkipEqK { reg, val: byte },
            (0x4, reg, _, _) => OpCode::SkipNotEqK { reg, val: byte },
            (0x5, a, b, 0) => OpCode::SkipEq { a, b },
            (0x9, a, b, 0) => OpCode::SkipNotEq { a, b },
            (0x6, reg, _, _) => OpCode::SetV { reg, to: byte },
            (0x7, reg, _, _) => OpCode::IncV { reg, by: byte },
            (0xa, _, _, _) => OpCode::SetI { to: adr },
            (0xc, reg, _, _) => OpCode::GetRand { reg, mask: byte },
            (0xe, key, 0x9, 0xe) => OpCode::SkipPressed { key },
            (0xe, key, 0xa, 0x1) => OpCode::SkipNotPressed { key },
            (0xf, to, 0, 0xa) => OpCode::ReadKey { to },
            (0xf, to, 0, 0x7) => OpCode::ReadDelay { to },
            (0xf, with, 0x1, 0x5) => OpCode::SetDelay { with },
            (0xf, with, 0x1, 0x8) => OpCode::SetSound { with },
            (0xf, with, 0x1, 0xe) => OpCode::IncI { with },
            (0xf, of, 0x2, 0x9) => OpCode::GetFontSprite { of },
            (0xf, upto, 0x5, 0x5) => OpCode::SaveRegs { upto },
            (0xf, upto, 0x6, 0x5) => OpCode::LoadRegs { upto },
            (0xf, of, 0x3, 0x3) => OpCode::BCD { of },
            (0x8, a, to, 0) => OpCode::Assign { a, to },
            (0x8, a, b, 1) => OpCode::Or { a, b },
            (0x8, a, b, 2) => OpCode::And { a, b },
            (0x8, a, b, 3) => OpCode::Xor { a, b },
            (0x8, a, b, 4) => OpCode::Add { a, b },
            (0x8, a, b, 5) => OpCode::Sub { a, b },
            (0x8, a, b, 6) => OpCode::ShiftR { a, b },
            (0x8, a, b, 7) => OpCode::SubN { a, b },
            (0x8, a, b, 0xe) => OpCode::ShiftL { a, b },
            _ => OpCode::NoOp { val: 0 },
        }
    }

    /// Decodes a whole program, two bytes per instruction.
    pub fn parse_program(program: &[u8]) -> (ops: Vec<OpCode>)
        requires
            program@.len() % 2 == 0,
        ensures
            ops@.len() == program@.len() / 2,
            forall|k: int|
                0 <= k < ops@.len() ==> #[trigger] ops@[k] == decode(
                    program@[2 * k],
                    program@[2 * k + 1],
                ),
    {
        let mut ops: Vec<OpCode> = Vec::new();
        let mut k: usize = 0;
        let len = program.len();
        let n = len / 2;
        while k < n
            invariant
                len == program@.len(),
                n == program@.len() / 2,
                program@.len() % 2 == 0,
                program@.len() == 2 * n,
                k <= n,
                ops@.len() == k,
                forall|j: int|
                    0 <= j < k ==> #[trigger] ops@[j] == decode(program@[2 * j], program@[2 * j + 1]),
            decreases n - k,
        {
            let pair = [program[2 * k], program[2 * k + 1]];
            ops.push(OpCode::decode(&pair));
            k += 1;
        }
        ops
    }
}


impl From<u16> for OpCode {
    /// Decodes an opcode given as one big-endian 16-bit word.
    fn from(value: u16) -> (op: OpCode) {
        let hi = (value / 256) as u8;
        let lo = (value % 256) as u8;
        OpCode::decode(&[hi, lo])
    }
}

impl vstd::std_specs::convert::FromSpecImpl<u16> for OpCode {
    open spec fn obeys_from_spec() -> bool {
        true
    }

    open spec fn from_spec(v: u16) -> OpCode {
        decode((v / 256) as u8, (v % 256) as u8)
    }
}

impl<'a> From<&'a [u8; 2]> for OpCode {
    /// Decodes a two-byte big-endian opcode.
    fn from(value: &'a [u8; 2]) -> (op: OpCode) {
        OpCode::decode(value)
    }
}

impl<'a> vstd::std_specs::convert::FromSpecImpl<&'a [u8; 2]> for OpCode {
    open spec fn obeys_from_spec() -> bool {
        true
    }

    open spec fn from_spec(v: &'a [u8; 2]) -> OpCode {
        decode(v@[0], v@[1])
    }
}

} // verus!
