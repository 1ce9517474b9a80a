use vstd::prelude::*;

verus! {

/// The bit of the hex keypad key that a keyboard key stands for, or 0 for
/// a keyboard key that stands for none.
///
/// ```text
/// q w e r      0 1 2 3
/// a s d f  ->  4 5 6 7
/// z x c v      8 9 A B
/// j k l p      C D E F
/// ```
pub open spec fn key_bit(key: char) -> u16 {
    match key {
        'q' => 1u16 << 0x0u16,
        'w' => 1u16 << 0x1u16,
        'e' => 1u16 << 0x2u16,
        'r' => 1u16 << 0x3u16,
        'a' => 1u16 << 0x4u16,
        's' => 1u16 << 0x5u16,
        'd' => 1u16 << 0x6u16,
        'f' => 1u16 << 0x7u16,
        'z' => 1u16 << 0x8u16,
        'x' => 1u16 << 0x9u16,
        'c' => 1u16 << 0xau16,
        'v' => 1u16 << 0xbu16,
        'j' => 1u16 << 0xcu16,
        'k' => 1u16 << 0xdu16,
        'l' => 1u16 << 0xeu16,
        'p' => 1u16 << 0xfu16,
        _ => 0,
    }
}

/// The bit of the hex keypad key that a keyboard key stands for (see
/// [`key_bit`]).
pub fn translate_key(key: char) -> (bit: u16)
    ensures
        bit == key_bit(key),
{
    match key {
        'q' => 1 << 0x0,
        'w' => 1 << 0x1,
        'e' => 1 << 0x2,
        'r' => 1 << 0x3,
        'a' => 1 << 0x4,
        's' => 1 << 0x5,
        'd' => 1 << 0x6,
        'f' => 1 << 0x7,
        'z' => 1 << 0x8,
        'x' => 1 << 0x9,
        'c' => 1 << 0xa,
        'v' => 1 << 0xb,
        'j' => 1 << 0xc,
        'k' => 1 << 0xd,
        'l' => 1 << 0xe,
        'p' => 1 << 0xf,
        _ => 0,
    }
}

/// A keyboard event, as far as the keypad cares.
#[derive(Debug, Clone, Copy, PartialEq, Eq, Structural)]
pub enum KeyInput {
    /// A key without modifiers went down.
    Press(char),
    /// A key without modifiers went up.
    Release(char),
    /// Control-C was pressed.
    Interrupt,
    /// Anything else.
    Other,
}

/// The pressed keys after an event, and whether to stop reading input.
pub open spec fn after_input(keys: u16, input: KeyInput) -> (u16, bool) {
    match input {
        KeyInput::Press(c) => (keys | key_bit(c), false),
        KeyInput::Release(c) => (keys & !key_bit(c), false),
        KeyInput::Interrupt => (keys, true),
        KeyInput::Other => (keys, false),
    }
}

/// Takes the bitmap of pressed keys and an event; gives the new bitmap and
/// whether to stop reading input.
pub fn next_keys(keys: u16, input: KeyInput) -> (r: (u16, bool))
    ensures
        r == after_input(keys, input),
{
    match input {
        KeyInput::Press(c) => (keys | translate_key(c), false),
        KeyInput::Release(c) => (keys & !translate_key(c), false),
        KeyInput::Interrupt => (keys, true),
        KeyInput::Other => (keys, false),
    }
}

/// Each keyboard key stands for at most one keypad key, and two different
/// keyboard keys never stand for the same one.
pub proof fn lemma_key_bits_distinct(a: char, b: char)
    ensures
        key_bit(a) == 0 || exists|k: u16| k < 16 && key_bit(a) == 1u16 << k,
        a != b && key_bit(a) != 0 ==> key_bit(a) != key_bit(b),
{
    assert(1u16 << 0x0u16 == 1 && 1u16 << 0x1u16 == 2 && 1u16 << 0x2u16 == 4 && 1u16 << 0x3u16 == 8
        && 1u16 << 0x4u16 == 16 && 1u16 << 0x5u16 == 32 && 1u16 << 0x6u16 == 64 && 1u16 << 0x7u16
        == 128 && 1u16 << 0x8u16 == 256 && 1u16 << 0x9u16 == 512 && 1u16 << 0xau16 == 1024 && 1u16
        << 0xbu16 == 2048 && 1u16 << 0xcu16 == 4096 && 1u16 << 0xdu16 == 8192 && 1u16 << 0xeu16
        == 16384 && 1u16 << 0xfu16 == 32768) by (bit_vector);
}

/// The keyboard keys that stand for the keypad keys 0 to F, in order.
pub open spec fn keyboard_layout() -> Seq<char> {
    seq!['q', 'w', 'e', 'r', 'a', 's', 'd', 'f', 'z', 'x', 'c', 'v', 'j', 'k', 'l', 'p']
}

/// The keypad layout: the keyboard keys `q w e r a s d f z x c v j k l p`,
/// in this order, stand for the keypad keys 0 to F, and every other
/// keyboard key stands for none.
pub proof fn lemma_key_layout(c: char)
    ensures
        forall|k: int|
            0 <= k < 16 ==> #[trigger] key_bit(keyboard_layout()[k]) == 1u16 << (k as u16),
        !keyboard_layout().contains(c)
            ==> key_bit(c) == 0,
{
    let layout = keyboard_layout();
    assert forall|k: int| 0 <= k < 16 implies #[trigger] key_bit(layout[k]) == 1u16 << (k as u16) by {
        assert(layout[0] == 'q' && layout[1] == 'w' && layout[2] == 'e' && layout[3] == 'r');
        assert(layout[4] == 'a' && layout[5] == 's' && layout[6] == 'd' && layout[7] == 'f');
        assert(layout[8] == 'z' && layout[9] == 'x' && layout[10] == 'c' && layout[11] == 'v');
        assert(layout[12] == 'j' && layout[13] == 'k' && layout[14] == 'l' && layout[15] == 'p');
    }
    if !layout.contains(c) {
        assert(c != layout[0] && c != layout[1] && c != layout[2] && c != layout[3]);
        assert(c != layout[4] && c != layout[5] && c != layout[6] && c != layout[7]);
        assert(c != layout[8] && c != layout[9] && c != layout[10] && c != layout[11]);
        assert(c != layout[12] && c != layout[13] && c != layout[14] && c != layout[15]);
    }
}

/// Pressing a key and letting it go leaves the other keys as they were and
/// that key up; pressing it leaves it down.
pub proof fn lemma_press_release(keys: u16, c: char)
    ensures
        after_input(after_input(keys, KeyInput::Press(c)).0, KeyInput::Release(c)).0 == keys & !key_bit(c),
        after_input(keys, KeyInput::Press(c)).0 & key_bit(c) == key_bit(c),
        after_input(keys, KeyInput::Press(c)).0 & !key_bit(c) == keys & !key_bit(c),
{
    let b = key_bit(c);
    assert((keys | b) & !b == keys & !b) by (bit_vector);
    assert((keys | b) & b == b) by (bit_vector);
}

} // verus!
