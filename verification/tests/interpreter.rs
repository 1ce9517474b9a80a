use chip8::chip8::Chip8;
use chip8::memops::{Offset, Region};
use chip8::opcode::OpCode;

const INITIAL_PC: u16 = Chip8::INITIAL_PC;

/// A default chip8 should be all 0 with a pc at 0x200
#[test]
fn chip8_default() {
    let chip = Chip8::default();

    let pc: u16 = chip.read_u16(Region::PC).unwrap();
    assert!(pc == INITIAL_PC);
}

// Set Display to 0
#[test]
fn chip8_clear() {
    let mut chip = Chip8::default();

    chip.write_u64(0xffffffu64, Region::Display).unwrap();
    println!("Mm: {:032x}", chip.read_u128(Region::Display).unwrap());
    chip.execute(OpCode::Clear).unwrap();
    let display: u128 = chip.read_u128(Region::Display).unwrap();

    assert!(display == 0);
}

// Pop & Set PC
// Push & Set PC NNN
#[test]
fn chip8_subroutines() {
    let mut chip = Chip8::default();
    chip.execute(OpCode::Call { at: 0xfb03 }).unwrap();
    chip.execute(OpCode::Call { at: 0xfb03 }).unwrap();
    chip.execute(OpCode::Call { at: 0xfb03 }).unwrap();
    let pc: u16 = chip.read_u16(Region::PC).unwrap();

    assert!(pc == 0xfb03);

    chip.execute(OpCode::Return).unwrap();
    chip.execute(OpCode::Return).unwrap();
    chip.execute(OpCode::Return).unwrap();
    let pc: u16 = chip.read_u16(Region::PC).unwrap();

    assert!(pc == INITIAL_PC);
}

// Skip if VX == NN
// Skip if VX != NN
// Skip if VX == VY
// Skip if VX != VY
// Skip if VX == key
// Skip if VX != key
#[test]
fn chip8_skips() {
    let mut chip = Chip8::default();
    chip.write_u8(7u8, Offset::new(Region::Vs, 4)).unwrap();

    chip.execute(OpCode::SkipEqK { reg: 4, val: 0 }).unwrap();
    let pc: u16 = chip.read_u16(Region::PC).unwrap();
    assert!(pc == INITIAL_PC);
    chip.execute(OpCode::SkipEqK { reg: 4, val: 7 }).unwrap();
    let pc: u16 = chip.read_u16(Region::PC).unwrap();
    assert!(pc == INITIAL_PC + 2);

    chip.execute(OpCode::SkipNotEqK { reg: 4, val: 7 }).unwrap();
    let pc: u16 = chip.read_u16(Region::PC).unwrap();
    assert!(pc == INITIAL_PC + 2);
    chip.execute(OpCode::SkipNotEqK { reg: 4, val: 0 }).unwrap();
    let pc: u16 = chip.read_u16(Region::PC).unwrap();
    assert!(pc == INITIAL_PC + 4);

    chip.execute(OpCode::SkipEq { a: 4, b: 7 }).unwrap();
    let pc: u16 = chip.read_u16(Region::PC).unwrap();
    assert!(pc == INITIAL_PC + 4);
    chip.execute(OpCode::SkipEq { a: 7, b: 7 }).unwrap();
    let pc: u16 = chip.read_u16(Region::PC).unwrap();
    assert!(pc == INITIAL_PC + 6);

    chip.execute(OpCode::SkipNotEq { a: 7, b: 7 }).unwrap();
    let pc: u16 = chip.read_u16(Region::PC).unwrap();
    assert!(pc == INITIAL_PC + 6);
    chip.execute(OpCode::SkipNotEq { a: 4, b: 7 }).unwrap();
    let pc: u16 = chip.read_u16(Region::PC).unwrap();
    assert!(pc == INITIAL_PC + 8);

    chip.write_u8(7u8, Region::KEY).unwrap();

    chip.execute(OpCode::SkipPressed { key: 0 }).unwrap();
    let pc: u16 = chip.read_u16(Region::PC).unwrap();
    assert!(pc == INITIAL_PC + 8);
    chip.execute(OpCode::SkipPressed { key: 4 }).unwrap();
    let pc: u16 = chip.read_u16(Region::PC).unwrap();
    assert!(pc == INITIAL_PC + 10);

    chip.execute(OpCode::SkipNotPressed { key: 4 }).unwrap();
    let pc: u16 = chip.read_u16(Region::PC).unwrap();
    assert!(pc == INITIAL_PC + 10);
    chip.execute(OpCode::SkipNotPressed { key: 0 }).unwrap();
    let pc: u16 = chip.read_u16(Region::PC).unwrap();
    assert!(pc == INITIAL_PC + 12);
}

// Set PC to NNN
// Set PC to V0 + NNN
// Set I to NNN
// Set I to the sprite location of VX
// Inc I with VX
#[test]
fn chip8_set16() {
    let mut chip = Chip8::default();

    chip.execute(OpCode::Jump { to: 0xfb03 }).unwrap();
    let pc: u16 = chip.read_u16(Region::PC).unwrap();
    assert!(pc == 0xfb03);

    chip.write_u8(7u8, Offset::new(Region::Vs, 0)).unwrap();
    chip.execute(OpCode::JumpReg { by: 0xfb03 }).unwrap();
    let pc: u16 = chip.read_u16(Region::PC).unwrap();
    assert!(pc == 0xfb0a);

    chip.execute(OpCode::SetI { to: 0xfb03 }).unwrap();
    let i: u16 = chip.read_u16(Region::I).unwrap();
    assert!(i == 0xfb03);

    chip.execute(OpCode::GetFontSprite { of: 0 }).unwrap();
    let i: u16 = chip.read_u16(Region::I).unwrap();
    assert!(i == 7 * 5);

    chip.execute(OpCode::IncI { with: 0 }).unwrap();
    let i: u16 = chip.read_u16(Region::I).unwrap();
    assert!(i == 42);
}

// Set DT to VX
// Set ST to VX
// Set VX to DT
// Set VX to NN
// Set VX to KEY (block)
// Set VX to rand & NN
// Inc VX by NN
#[test]
fn chip8_set8() {
    let mut chip = Chip8::default();
    chip.write_u8(7u8, Offset::new(Region::Vs, 4)).unwrap();

    chip.execute(OpCode::SetDelay { with: 4 }).unwrap();
    let dt: u8 = chip.read_u8(Region::DT).unwrap();
    assert!(dt == 7);

    chip.execute(OpCode::SetSound { with: 4 }).unwrap();
    let st: u8 = chip.read_u8(Region::ST).unwrap();
    assert!(st == 7);

    chip.execute(OpCode::ReadDelay { to: 3 }).unwrap();
    let v3: u8 = chip.read_u8(Offset::new(Region::Vs, 3)).unwrap();
    assert!(v3 == 7);

    chip.execute(OpCode::SetV { reg: 2, to: 8 }).unwrap();
    let v2: u8 = chip.read_u8(Offset::new(Region::Vs, 2)).unwrap();
    assert!(v2 == 8);

    chip.execute(OpCode::IncV { reg: 2, by: 8 }).unwrap();
    let v2: u8 = chip.read_u8(Offset::new(Region::Vs, 2)).unwrap();
    assert!(v2 == 16);

    const VAL: u8 = 0b11110000;
    chip.write_u8(VAL, Offset::new(Region::Vs, 9)).unwrap();
    chip.execute(OpCode::GetRand { reg: 9, mask: !VAL }).unwrap();
    let v9: u8 = chip.read_u8(Offset::new(Region::Vs, 9)).unwrap();
    assert!(v9 != VAL);
}

// Save V0..VX to I
// Load V0..VX from I
#[test]
fn chip8_save_load() {
    let mut chip = Chip8::default();
    chip.write_u8(0x77u8, Offset::new(Region::Vs, 7)).unwrap();
    chip.write_u8(0x44u8, Offset::new(Region::Vs, 4)).unwrap();
    chip.write_u16(INITIAL_PC, Region::I).unwrap();
    chip.write_u8(0x55u8, Offset::new(Region::Memory, 5)).unwrap();

    chip.execute(OpCode::SaveRegs { upto: 4 }).unwrap();
    let i: u16 = chip.read_u16(Region::I).unwrap();
    assert!(i == INITIAL_PC + 4 + 1);

    let m04: u8 = chip.read_u8(Offset::new(Region::Memory, 4)).unwrap();
    assert!(m04 == 0x44);

    chip.write_u16(INITIAL_PC, Region::I).unwrap();
    chip.write_u8(0x33u8, Offset::new(Region::Memory, 3)).unwrap();
    chip.execute(OpCode::LoadRegs { upto: 7 }).unwrap();

    let i: u16 = chip.read_u16(Region::I).unwrap();
    assert!(i == INITIAL_PC + 7 + 1);

    let v3: u8 = chip.read_u8(Offset::new(Region::Vs, 3)).unwrap();
    assert!(v3 == 0x33);

    let v7: u8 = chip.read_u8(Offset::new(Region::Vs, 7)).unwrap();
    assert!(v7 == 0x00);
}
