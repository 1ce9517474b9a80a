use chip8::chip8::{Chip8, Chip8Error, PostExecute};
use chip8::clargs::{CliArg, CliToken, Parseable, Tokenizable};
use chip8::keys::{next_keys, translate_key, KeyInput};
use chip8::memops::{Offset, Region};
use chip8::opcode::OpCode;
use chip8::options::{ChipOptions, OptionsErrorKind};
use chip8::timing::pause_nanos;

fn v(chip: &Chip8, r: u16) -> u8 {
    chip.read_u8(Offset::new(Region::Vs, r)).unwrap()
}

fn set_v(chip: &mut Chip8, r: u16, x: u8) {
    chip.write_u8(x, Offset::new(Region::Vs, r)).unwrap();
}

#[test]
fn region_sizes_tile_memory() {
    assert_eq!(Region::Display.size(), 256);
    assert_eq!(Region::Vs.size(), 16);
    assert_eq!(Region::Stack.size(), 32);
    assert_eq!(Region::Memory.size(), 3232);
    assert_eq!(Region::Data.size(), 512);
    assert_eq!(Region::End.size(), 0);
    let all = [
        Region::Display,
        Region::Empty,
        Region::Keys,
        Region::Time,
        Region::KEY,
        Region::ST,
        Region::DT,
        Region::SP,
        Region::PC,
        Region::I,
        Region::Vs,
        Region::Stack,
        Region::Memory,
        Region::Data,
    ];
    let total: usize = all.iter().map(|r| r.size()).sum();
    assert_eq!(total, 0x1000);
    assert_eq!(Region::PC.addr(), 0x0ED2);
}

#[test]
fn write_then_read_gives_the_value_back() {
    let mut chip = Chip8::default();
    chip.write_u16(0xBEEF, 0x300u16).unwrap();
    assert_eq!(chip.read_u16(0x300u16), Some(0xBEEF));
    assert_eq!(chip.read_u8(0x300u16), Some(0xBE));
    assert_eq!(chip.read_u8(0x301u16), Some(0xEF));
    chip.write_u32(0x0102_0304, 0x310u16).unwrap();
    assert_eq!(chip.read_u32(0x310u16), Some(0x0102_0304));
    chip.write_u64(0x0102_0304_0506_0708, 0x320u16).unwrap();
    assert_eq!(chip.read_u64(0x320u16), Some(0x0102_0304_0506_0708));
    assert_eq!(chip.read_u8(0x327u16), Some(0x08));
    chip.write_u128(u128::MAX - 5, 0x330u16).unwrap();
    assert_eq!(chip.read_u128(0x330u16), Some(u128::MAX - 5));
    chip.write_bytes(&[9, 8, 7], Offset::new(Region::Memory, 0x40)).unwrap();
    assert_eq!(chip.read_u8(0x241u16), Some(8));
}

#[test]
fn decode_examples() {
    assert!(matches!(OpCode::from(0x00E0u16), OpCode::Clear));
    assert!(matches!(OpCode::from(0x00EEu16), OpCode::Return));
    assert!(matches!(OpCode::from(0xD123u16), OpCode::Draw { x: 1, y: 2, size: 3 }));
    assert!(matches!(OpCode::from(0x0123u16), OpCode::NoOp { val: 0x123 }));
    assert!(matches!(OpCode::from(0x1234u16), OpCode::Jump { to: 0x234 }));
    assert!(matches!(OpCode::from(0x2FFFu16), OpCode::Call { at: 0xFFF }));
    assert!(matches!(OpCode::from(0x3A42u16), OpCode::SkipEqK { reg: 0xA, val: 0x42 }));
    assert!(matches!(OpCode::from(0x8AB4u16), OpCode::Add { a: 0xA, b: 0xB }));
    assert!(matches!(OpCode::from(0xF265u16), OpCode::LoadRegs { upto: 2 }));
    assert!(matches!(OpCode::from(0xE39Eu16), OpCode::SkipPressed { key: 3 }));
    // 5XY1 names no instruction
    assert!(matches!(OpCode::from(0x5121u16), OpCode::NoOp { val: 0 }));
    assert!(matches!(OpCode::from(&[0x6Au8, 0x07]), OpCode::SetV { reg: 0xA, to: 7 }));
    assert_eq!(OpCode::as_nibbles(&[0xAB, 0xCD]), [0xA, 0xB, 0xC, 0xD]);
    let ops = OpCode::parse_program(&[0x00, 0xE0, 0x12, 0x00]);
    assert_eq!(ops.len(), 2);
    assert!(matches!(ops[0], OpCode::Clear));
    assert!(matches!(ops[1], OpCode::Jump { to: 0x200 }));
}

#[test]
fn draw_xors_and_flags_collisions() {
    let mut chip = Chip8::default();
    chip.write_u8(0b1100_0000, 0x300u16).unwrap();
    chip.write_u16(0x300, Region::I).unwrap();
    set_v(&mut chip, 0, 4); // x
    set_v(&mut chip, 1, 2); // y
    chip.execute(OpCode::Draw { x: 0, y: 1, size: 1 }).unwrap();
    // row 2, columns 4 and 5
    assert_eq!(chip.read_u64(Offset::new(Region::Display, 16)), Some(0x0C00_0000_0000_0000));
    assert_eq!(v(&chip, 0xf), 0);
    chip.execute(OpCode::Draw { x: 0, y: 1, size: 1 }).unwrap();
    assert_eq!(chip.read_u64(Offset::new(Region::Display, 16)), Some(0));
    assert_eq!(v(&chip, 0xf), 1);
}

#[test]
fn drawing_a_full_line_twice_erases_it_and_flags_it() {
    let mut chip = Chip8::default();
    chip.write_u8(0xFF, 0x300u16).unwrap();
    chip.write_u16(0x300, Region::I).unwrap();
    assert_eq!(chip.execute(OpCode::Draw { x: 0, y: 1, size: 1 }), Some(PostExecute::Next));
    assert_eq!(chip.0[0xF00], 0xFF);
    assert_eq!(chip.0[0xECF], 0);
    assert_eq!(chip.execute(OpCode::Draw { x: 0, y: 1, size: 1 }), Some(PostExecute::Next));
    assert_eq!(chip.0[0xF00..0xF08], [0u8; 8]);
    assert_eq!(chip.0[0xECF], 1);
}

#[test]
fn draw_flag_covers_every_line_of_the_sprite() {
    let mut chip = Chip8::default();
    // The first line meets a lit pixel, the second does not.
    chip.write_u8(0x80, 0x300u16).unwrap();
    chip.write_u8(0x01, 0x301u16).unwrap();
    chip.write_u16(0x300, Region::I).unwrap();
    chip.write_u8(0x80, Region::Display).unwrap();
    chip.execute(OpCode::Draw { x: 0, y: 1, size: 2 }).unwrap();
    assert_eq!(chip.0[0xF00], 0);
    assert_eq!(chip.0[0xF08], 0x01);
    assert_eq!(v(&chip, 0xf), 1);
    // No line meets a lit pixel.
    chip.write_u8(0x40, 0x300u16).unwrap();
    chip.write_u8(0x02, 0x301u16).unwrap();
    chip.execute(OpCode::Draw { x: 0, y: 1, size: 2 }).unwrap();
    assert_eq!(v(&chip, 0xf), 0);
    // A size of 0 draws nothing and clears the flag.
    set_v(&mut chip, 0xf, 1);
    chip.execute(OpCode::Draw { x: 0, y: 1, size: 0 }).unwrap();
    assert_eq!(v(&chip, 0xf), 0);
}

#[test]
fn draw_wraps_position_and_clips_rows() {
    let mut chip = Chip8::default();
    chip.write_u8(0xFF, 0x300u16).unwrap();
    chip.write_u8(0xFF, 0x301u16).unwrap();
    chip.write_u16(0x300, Region::I).unwrap();
    set_v(&mut chip, 0, 64 + 60); // x wraps to 60
    set_v(&mut chip, 1, 31); // last row; the second line falls off
    chip.execute(OpCode::Draw { x: 0, y: 1, size: 2 }).unwrap();
    assert_eq!(chip.read_u64(Offset::new(Region::Display, 248)), Some(0xF));
    assert_eq!(chip.read_u128(Offset::new(Region::Display, 0)), Some(0));
}

#[test]
fn alu_flags() {
    let mut chip = Chip8::default();
    set_v(&mut chip, 1, 200);
    set_v(&mut chip, 2, 100);
    chip.execute(OpCode::Add { a: 1, b: 2 }).unwrap();
    assert_eq!((v(&chip, 1), v(&chip, 0xf)), (44, 1));
    chip.execute(OpCode::Sub { a: 1, b: 2 }).unwrap();
    assert_eq!((v(&chip, 1), v(&chip, 0xf)), (200, 0));
    chip.execute(OpCode::Sub { a: 1, b: 2 }).unwrap();
    assert_eq!((v(&chip, 1), v(&chip, 0xf)), (100, 1));
    chip.execute(OpCode::SubN { a: 2, b: 1 }).unwrap();
    assert_eq!((v(&chip, 2), v(&chip, 0xf)), (0, 1));
    set_v(&mut chip, 3, 0b1000_0011);
    chip.execute(OpCode::ShiftR { a: 4, b: 3 }).unwrap();
    assert_eq!((v(&chip, 4), v(&chip, 0xf)), (0b0100_0001, 1));
    chip.execute(OpCode::ShiftL { a: 4, b: 3 }).unwrap();
    assert_eq!((v(&chip, 4), v(&chip, 0xf)), (0b0000_0110, 1));
    chip.execute(OpCode::Or { a: 3, b: 4 }).unwrap();
    assert_eq!(v(&chip, 3), 0b1000_0111);
    chip.execute(OpCode::And { a: 3, b: 4 }).unwrap();
    assert_eq!(v(&chip, 3), 0b0000_0110);
    chip.execute(OpCode::Xor { a: 3, b: 4 }).unwrap();
    assert_eq!(v(&chip, 3), 0);
    chip.execute(OpCode::Assign { a: 5, to: 2 }).unwrap();
    assert_eq!(v(&chip, 5), 0);
    set_v(&mut chip, 6, 250);
    chip.execute(OpCode::IncV { reg: 6, by: 10 }).unwrap();
    assert_eq!((v(&chip, 6), v(&chip, 0xf)), (4, 1));
}

#[test]
fn bcd_writes_the_decimal_digits() {
    let mut chip = Chip8::default();
    set_v(&mut chip, 3, 234);
    chip.write_u16(0x400, Region::I).unwrap();
    chip.execute(OpCode::BCD { of: 3 }).unwrap();
    assert_eq!(chip.read_u8(0x400u16), Some(2));
    assert_eq!(chip.read_u8(0x401u16), Some(3));
    assert_eq!(chip.read_u8(0x402u16), Some(4));
}

#[test]
fn read_key_waits_for_a_key() {
    let mut chip = Chip8::default();
    assert_eq!(chip.execute(OpCode::ReadKey { to: 1 }), Some(PostExecute::Wait));
    chip.load_key(0b0010_0000_0000_0000).unwrap();
    assert_eq!(chip.read_u8(Region::KEY), Some(13));
    assert_eq!(chip.execute(OpCode::ReadKey { to: 1 }), Some(PostExecute::Next));
    assert_eq!(v(&chip, 1), 13);
    assert_eq!(chip.execute(OpCode::SetDelay { with: 1 }), Some(PostExecute::UpdateDt));
    assert_eq!(chip.execute(OpCode::SetSound { with: 1 }), Some(PostExecute::UpdateSt));
}

#[test]
fn load_key_keeps_the_newly_pressed_keys() {
    let mut chip = Chip8::default();
    chip.load_key(0b1010).unwrap();
    assert_eq!(chip.read_u16(Region::Keys), Some(0b1010));
    assert_eq!(chip.read_u8(Region::KEY), Some(1));
    chip.load_key(0b1110).unwrap();
    assert_eq!(chip.read_u16(Region::Keys), Some(0b1110));
    assert_eq!(chip.read_u8(Region::KEY), Some(2));
    chip.load_key(0).unwrap();
    assert_eq!(chip.read_u16(Region::Keys), Some(0));
    assert_eq!(chip.read_u8(Region::KEY), Some(16));
}

#[test]
fn held_keys_stay_pressed() {
    let mut chip = Chip8::new().unwrap();
    assert_eq!(chip.load_key(0x0028), Ok(()));
    assert_eq!(chip.read_u16(Region::Keys), Some(0x0028));
    assert_eq!(chip.read_u8(Region::KEY), Some(3));
    assert_eq!(chip.load_key(0x0028), Ok(()));
    assert_eq!(chip.read_u16(Region::Keys), Some(0x0028));
    assert_eq!(chip.read_u8(Region::KEY), Some(16));
}

#[test]
fn read_key_waits_while_keys_are_only_held() {
    let mut chip = Chip8::default();
    chip.load_key(1 << 5).unwrap();
    assert_eq!(chip.execute(OpCode::ReadKey { to: 1 }), Some(PostExecute::Next));
    assert_eq!(v(&chip, 1), 5);
    set_v(&mut chip, 1, 0);
    chip.load_key(1 << 5).unwrap();
    assert_eq!(chip.read_u8(Region::KEY), Some(16));
    assert!(chip.can_execute_now(OpCode::ReadKey { to: 1 }));
    assert_eq!(chip.execute(OpCode::ReadKey { to: 1 }), Some(PostExecute::Wait));
    assert_eq!(v(&chip, 1), 0);
    chip.load_key((1 << 5) | (1 << 9)).unwrap();
    assert_eq!(chip.execute(OpCode::ReadKey { to: 1 }), Some(PostExecute::Next));
    assert_eq!(v(&chip, 1), 9);
}

#[test]
fn read_key_sees_low_keys_too() {
    let mut chip = Chip8::default();
    chip.load_key(0b0100).unwrap();
    assert_eq!(chip.execute(OpCode::ReadKey { to: 1 }), Some(PostExecute::Next));
    assert_eq!(v(&chip, 1), 2);
}

#[test]
fn step_stays_on_read_key_until_a_key_is_pressed() {
    let mut chip = Chip8::new().unwrap();
    chip.load_program(&[0xF1, 0x0A, 0x61, 0x07]).unwrap();
    set_v(&mut chip, 1, 9);
    assert_eq!(chip.step(), Ok(PostExecute::Wait));
    assert_eq!(chip.read_u16(Region::PC), Some(0x200));
    assert_eq!(v(&chip, 1), 9);
    assert_eq!(chip.step(), Ok(PostExecute::Wait));
    assert_eq!(chip.read_u16(Region::PC), Some(0x200));
    chip.load_key(1 << 5).unwrap();
    assert_eq!(chip.step(), Ok(PostExecute::Next));
    assert_eq!(chip.read_u16(Region::PC), Some(0x202));
    assert_eq!(v(&chip, 1), 5);
}

#[test]
fn the_stack_holds_sixteen_return_addresses() {
    let mut chip = Chip8::default();
    for k in 0..16u16 {
        chip.write_u16(0x300 + 2 * k, Region::PC).unwrap();
        assert!(chip.can_execute_now(OpCode::Call { at: 0x400 }));
        chip.execute(OpCode::Call { at: 0x400 }).unwrap();
        assert_eq!(chip.read_u8(Region::SP), Some((2 * k + 2) as u8));
    }
    assert!(!chip.can_execute_now(OpCode::Call { at: 0x400 }));
    for k in (0..16u16).rev() {
        chip.execute(OpCode::Return).unwrap();
        assert_eq!(chip.read_u16(Region::PC), Some(0x300 + 2 * k));
        assert_eq!(chip.read_u8(Region::SP), Some((2 * k) as u8));
    }
    assert!(!chip.can_execute_now(OpCode::Return));
}

#[test]
fn byte_arrays_read_back_what_was_written() {
    let mut chip = Chip8::default();
    chip.write_bytes(&[1, 2, 3, 4, 5], 0x300u16).unwrap();
    assert_eq!(chip.read_bytes::<5, u16>(0x300), Some([1, 2, 3, 4, 5]));
    assert_eq!(chip.read_bytes::<3, u16>(0x302), Some([3, 4, 5]));
    assert_eq!(chip.read_bytes::<2, u16>(0x2FE), Some([0, 0]));
    chip.write_bytes(&[9, 9], 0x310u16).unwrap();
    assert_eq!(chip.read_bytes::<5, u16>(0x300), Some([1, 2, 3, 4, 5]));
    assert_eq!(chip.read_bytes::<2, Region>(Region::PC), Some([0x02, 0x00]));
}

#[test]
fn timers_count_down_in_whole_ticks() {
    let mut chip = Chip8::new_at(1000);
    assert_eq!(chip.read_u64(Region::Time), Some(1000));
    assert_eq!(chip.read_u16(Region::PC), Some(0x200));
    chip.write_u8(10, Region::DT).unwrap();
    chip.write_u8(2, Region::ST).unwrap();
    chip.step_timers_at(1050).unwrap();
    assert_eq!(chip.read_u8(Region::DT), Some(7));
    assert_eq!(chip.read_u8(Region::ST), Some(0));
    assert_eq!(chip.read_u64(Region::Time), Some(1048));
    chip.step_timers_at(1063).unwrap();
    assert_eq!(chip.read_u8(Region::DT), Some(7));
    assert_eq!(chip.read_u64(Region::Time), Some(1048));
    chip.step_timers_at(1066).unwrap();
    assert_eq!(chip.read_u8(Region::DT), Some(6));
    assert_eq!(chip.read_u64(Region::Time), Some(1064));
    assert_eq!(chip.step_timers_at(10), Err(Chip8Error::ClockWentBack));
    assert_eq!(chip.read_u8(Region::DT), Some(6));
    assert_eq!(chip.read_u64(Region::Time), Some(1064));
}

#[test]
fn two_timer_runs_equal_one() {
    let mut split = Chip8::new_at(1000);
    split.write_u8(200, Region::DT).unwrap();
    split.write_u8(3, Region::ST).unwrap();
    let mut whole = split.clone();
    split.step_timers_at(1030).unwrap();
    split.step_timers_at(1100).unwrap();
    whole.step_timers_at(1100).unwrap();
    assert_eq!(split.0, whole.0);
    assert_eq!(whole.read_u8(Region::DT), Some(194));
    assert_eq!(whole.read_u8(Region::ST), Some(0));
    assert_eq!(whole.read_u64(Region::Time), Some(1096));
}

#[test]
fn step_at_runs_with_the_given_clock_and_byte() {
    let mut chip = Chip8::new_at(1000);
    chip.load_program(&[0x60, 0x2A, 0x12, 0x00]).unwrap();
    assert_eq!(chip.step_at(1000, 0), Ok(PostExecute::Next));
    assert_eq!(v(&chip, 0), 0x2A);
    assert_eq!(chip.read_u16(Region::PC), Some(0x202));
    assert_eq!(chip.step_at(1016, 0), Ok(PostExecute::Next));
    assert_eq!(chip.read_u16(Region::PC), Some(0x200));
    assert_eq!(v(&chip, 0), 0x2A);
    // A clock that went back fails the step with only the program counter moved.
    let before = chip.clone();
    assert_eq!(chip.step_at(500, 0), Err(Chip8Error::ClockWentBack));
    assert_eq!(chip.read_u16(Region::PC), Some(0x202));
    assert_eq!(chip.0[..0xED2], before.0[..0xED2]);
    assert_eq!(chip.0[0xED4..], before.0[0xED4..]);
}

#[test]
fn step_at_draws_the_given_random_byte() {
    let mut chip = Chip8::new_at(0);
    chip.load_program(&[0xC3, 0x0F, 0xF4, 0x15]).unwrap();
    assert_eq!(chip.step_at(0, 0xAB), Ok(PostExecute::Next));
    assert_eq!(v(&chip, 3), 0x0B);
    set_v(&mut chip, 4, 9);
    assert_eq!(chip.step_at(40, 0), Ok(PostExecute::UpdateDt));
    assert_eq!(chip.read_u8(Region::DT), Some(9));
    assert_eq!(chip.read_u64(Region::Time), Some(32));
}

#[test]
fn regions_and_offsets_add_up() {
    assert_eq!(u16::from(Region::Vs + 4u8), 0x0EC4);
    assert_eq!(u16::from(Region::Memory + 0x10u16), 0x0210);
    assert_eq!(u16::from(Region::Stack + 6i32), 0x0EA6);
    assert_eq!(u16::from(Offset::new(Region::Vs, 2) + 3u8), 0x0EC5);
    let mut chip = Chip8::default();
    chip.write_u8(7, Region::Vs + 0xfu8).unwrap();
    assert_eq!(v(&chip, 0xf), 7);
}

#[test]
fn memory_ranges_index_the_bytes() {
    let mut chip = Chip8::default();
    chip.load_program(&[1, 2, 3, 4]).unwrap();
    assert_eq!(&chip[0x200..0x204], &[1, 2, 3, 4]);
    assert_eq!(&chip[0x1FF..0x201], &[0, 1]);
    assert_eq!(chip[0xF00..0xF00].len(), 0);
}

#[test]
fn timers_refuse_a_clock_that_went_back() {
    let mut chip = Chip8::new().unwrap();
    chip.write_u8(6, Region::DT).unwrap();
    chip.write_u64(u64::MAX, Region::Time).unwrap();
    assert_eq!(chip.step_timers(), Err(Chip8Error::ClockWentBack));
    assert_eq!(chip.read_u8(Region::DT), Some(6));
    assert_eq!(chip.read_u64(Region::Time), Some(u64::MAX));
}

#[test]
fn step_runs_the_program() {
    let mut chip = Chip8::new().unwrap();
    chip.load_program(&[0x6A, 0x05, 0x7A, 0x03, 0x12, 0x00]).unwrap();
    assert!(chip.can_step_now());
    assert_eq!(chip.step(), Ok(PostExecute::Next));
    assert_eq!(v(&chip, 0xA), 5);
    assert_eq!(chip.read_u16(Region::PC), Some(0x202));
    chip.step().unwrap();
    assert_eq!(v(&chip, 0xA), 8);
    chip.step().unwrap();
    assert_eq!(chip.read_u16(Region::PC), Some(0x200));
}

#[test]
fn can_step_refuses_a_return_on_an_empty_stack() {
    let mut chip = Chip8::default();
    chip.load_program(&[0x00, 0xEE]).unwrap();
    assert!(!chip.can_step_now());
    chip.write_u16(0x0FFF, Region::PC).unwrap();
    assert!(!chip.can_step_now());
}

#[test]
fn save_then_load_restores_registers() {
    let mut chip = Chip8::default();
    for r in 0..16u16 {
        set_v(&mut chip, r, (r as u8) * 3 + 1);
    }
    chip.write_u16(0x500, Region::I).unwrap();
    chip.execute(OpCode::SaveRegs { upto: 15 }).unwrap();
    for r in 0..16u16 {
        set_v(&mut chip, r, 0);
    }
    chip.write_u16(0x500, Region::I).unwrap();
    chip.execute(OpCode::LoadRegs { upto: 15 }).unwrap();
    for r in 0..16u16 {
        assert_eq!(v(&chip, r), (r as u8) * 3 + 1);
    }
    assert_eq!(chip.read_u16(Region::I), Some(0x510));
}

#[test]
fn load_data_and_clear() {
    let mut chip = Chip8::default();
    chip.load_data(&[0xF0, 0x90]).unwrap();
    assert_eq!(chip.read_u16(Region::Data), Some(0xF090));
    chip.write_u8(0xFF, Offset::new(Region::Display, 255)).unwrap();
    chip.execute(OpCode::Clear).unwrap();
    assert_eq!(chip.read_u8(Offset::new(Region::Display, 255)), Some(0));
    assert_eq!(chip.read_u16(Region::Data), Some(0xF090));
}

#[test]
fn keys_map_and_input_events() {
    assert_eq!(translate_key('q'), 1);
    assert_eq!(translate_key('v'), 1 << 0xb);
    assert_eq!(translate_key('p'), 1 << 0xf);
    assert_eq!(translate_key('y'), 0);
    let (keys, stop) = next_keys(0, KeyInput::Press('w'));
    assert_eq!((keys, stop), (0b10, false));
    let (keys, _) = next_keys(keys, KeyInput::Press('e'));
    assert_eq!(keys, 0b110);
    let (keys, _) = next_keys(keys, KeyInput::Release('w'));
    assert_eq!(keys, 0b100);
    assert_eq!(next_keys(keys, KeyInput::Interrupt), (0b100, true));
    assert_eq!(next_keys(keys, KeyInput::Other), (0b100, false));
}

#[test]
fn command_line_tokens_and_arguments() {
    assert_eq!(CliToken::from("-p"), CliToken::Flag("-p"));
    assert_eq!(CliToken::from("test.ch8"), CliToken::Value("test.ch8"));
    let words = vec!["game.ch8", "-f", "x.ch8", "-p", "--fps", "60", "-g"];
    let mut parse = words.tokenize().parse();
    assert_eq!(parse.next(), Some(CliArg::DefaultValue("game.ch8")));
    assert_eq!(parse.next(), Some(CliArg::Value("-f", "x.ch8")));
    assert_eq!(parse.next(), Some(CliArg::Flag("-p")));
    assert_eq!(parse.next(), Some(CliArg::Value("--fps", "60")));
    assert_eq!(parse.next(), Some(CliArg::Flag("-g")));
    assert_eq!(parse.next(), None);
    let again = vec!["game.ch8", "-f", "x.ch8", "-p", "--fps", "60", "-g"];
    let all = again.tokenize().parse().collect_args();
    assert_eq!(
        all,
        vec![
            CliArg::DefaultValue("game.ch8"),
            CliArg::Value("-f", "x.ch8"),
            CliArg::Flag("-p"),
            CliArg::Value("--fps", "60"),
            CliArg::Flag("-g"),
        ]
    );
    let mut tokens = vec!["-a", "b"].tokenize();
    assert_eq!(tokens.next(), Some(CliToken::Flag("-a")));
    assert_eq!(tokens.next(), Some(CliToken::Value("b")));
    assert_eq!(tokens.next(), None);
}

fn args(words: &[&str]) -> Vec<String> {
    words.iter().map(|w| w.to_string()).collect()
}

#[test]
fn options_from_the_command_line() {
    let o = ChipOptions::from_args(&args(&["chip8"])).unwrap();
    assert!(o.graphics && !o.only_parse && o.fps.is_none());
    assert_eq!(o.program_path, "./roms/test.ch8");
    let o = ChipOptions::from_args(&args(&["chip8", "-p", "--no-graphics", "-s", "+30", "a.ch8"]))
        .unwrap();
    assert!(!o.graphics && o.only_parse);
    assert_eq!(o.fps, Some(30));
    assert_eq!(o.program_path, "a.ch8");
    let o = ChipOptions::from_args(&args(&["chip8", "b.ch8", "--file", "c.ch8"])).unwrap();
    assert_eq!(o.program_path, "c.ch8");
    let e = ChipOptions::from_args(&args(&["chip8", "--fps"])).unwrap_err();
    assert_eq!((e.kind, e.word.as_str()), (OptionsErrorKind::NeedsArgument, "--fps"));
    let e = ChipOptions::from_args(&args(&["chip8", "-s", "fast"])).unwrap_err();
    assert_eq!((e.kind, e.word.as_str()), (OptionsErrorKind::NeedsFps, "-s"));
    let e = ChipOptions::from_args(&args(&["chip8", "-f"])).unwrap_err();
    assert_eq!((e.kind, e.word.as_str()), (OptionsErrorKind::NeedsPath, "-f"));
    assert_eq!(ChipOptions::frame_nanos(Some(60)), 16_666_666);
    assert_eq!(ChipOptions::frame_nanos(None), 0);
}

#[test]
fn addresses_of_regions_and_offsets() {
    assert_eq!(u16::from(Region::PC), 0x0ED2);
    assert_eq!(u16::from(Offset::new(Region::Vs, 3)), 0x0EC3);
    assert_eq!(u16::from(Offset::new(Region::Display, 256)), 0x1000);
}

#[test]
fn frame_pacing_waits_for_the_rest_of_the_frame() {
    assert_eq!(pause_nanos(3, 10), 7);
    assert_eq!(pause_nanos(10, 10), 0);
    assert_eq!(pause_nanos(12, 10), 0);
}
