use vstd::prelude::*;
use vstd::string::StringExecFns;

verus! {

/// The `n` low hexadecimal digits of `v`, most significant first.
pub open spec fn hex_nibbles(v: nat, n: nat) -> Seq<u8>
    decreases n,
{
    if n == 0 {
        Seq::empty()
    } else {
        hex_nibbles(v / 16, (n - 1) as nat).push((v % 16) as u8)
    }
}

/// The lowercase hexadecimal digit for `d` (below 16).
pub open spec fn hex_char(d: u8) -> char {
    if d < 10 {
        ((0x30 + d) as u8) as char
    } else {
        ((0x61 + d - 10) as u8) as char
    }
}

/// Escape sequence that switches to bold text.
pub open spec fn bold() -> Seq<char> {
    "\x1B[0m\x1B[1;39;49m"@
}

/// Escape sequence that switches to dim text.
pub open spec fn dim() -> Seq<char> {
    "\x1B[0m\x1B[2;39;49m"@
}

/// Escape sequence that switches back to plain text.
pub open spec fn plain() -> Seq<char> {
    "\x1B[0m"@
}

/// The first `k` register bytes, as hex pairs, each after the style of its
/// position: bold for even positions, dim for odd ones.
pub open spec fn styled_pairs(nibbles: Seq<u8>, k: nat) -> Seq<char>
    decreases k,
{
    if k == 0 {
        Seq::empty()
    } else {
        let j = (k - 1) as nat;
        styled_pairs(nibbles, j) + (if j % 2 == 0 {
            bold()
        } else {
            dim()
        }) + seq![hex_char(nibbles[2 * j as int]), hex_char(nibbles[2 * j as int + 1])]
    }
}

/// The text of the 16 V registers packed in `regs` (V0 most significant):
/// 32 hex digits, each register's pair bold or dim in turn, then plain.
pub open spec fn register_text(regs: u128) -> Seq<char> {
    styled_pairs(hex_nibbles(regs as nat, 32), 16) + plain()
}

/// The hex digit for `d` as a one-character string.
fn hex_str(d: u8) -> (s: &'static str)
    requires
        d < 16,
    ensures
        s@ == seq![hex_char(d)],
{
    proof {
        reveal_strlit("0");
        reveal_strlit("1");
        reveal_strlit("2");
        reveal_strlit("3");
        reveal_strlit("4");
        reveal_strlit("5");
        reveal_strlit("6");
        reveal_strlit("7");
        reveal_strlit("8");
        reveal_strlit("9");
        reveal_strlit("a");
        reveal_strlit("b");
        reveal_strlit("c");
        reveal_strlit("d");
        reveal_strlit("e");
        reveal_strlit("f");
    }
    match d {
        0 => "0",
        1 => "1",
        2 => "2",
        3 => "3",
        4 => "4",
        5 => "5",
        6 => "6",
        7 => "7",
        8 => "8",
        9 => "9",
        10 => "a",
        11 => "b",
        12 => "c",
        13 => "d",
        14 => "e",
        _ => "f",
    }
}

/// The hex digits of `regs`, 32 of them, most significant first.
fn nibbles_of(regs: u128) -> (a: [u8; 32])
    ensures
        a@ == hex_nibbles(regs as nat, 32),
        forall|k: int| 0 <= k < 32 ==> #[trigger] a@[k] < 16,
{
    let mut a = [0u8; 32];
    let mut w: u128 = regs;
    let mut j: usize = 32;
    while j > 0
        invariant
            j <= 32,
            a@.len() == 32,
            hex_nibbles(regs as nat, 32) =~= hex_nibbles(w as nat, j as nat) + a@.subrange(
                j as int,
                32,
            ),
            forall|k: int| j <= k < 32 ==> #[trigger] a@[k] < 16,
        decreases j,
    {
        let ghost before = a@;
        let d = (w % 16) as u8;
        a[j - 1] = d;
        proof {
            let rest = hex_nibbles((w / 16) as nat, (j - 1) as nat);
            assert(hex_nibbles(w as nat, j as nat) == rest.push(d));
            assert(a@.subrange(j - 1, 32) =~= seq![d] + before.subrange(j as int, 32));
            assert(rest.push(d) + before.subrange(j as int, 32) =~= rest + a@.subrange(j - 1, 32));
        }
        w = w / 16;
        j -= 1;
    }
    assert(a@ =~= hex_nibbles(regs as nat, 32));
    a
}

/// Renders the 16 V registers packed in `regs` for a terminal (see
/// [`register_text`]).
pub fn format_registers(regs: u128) -> (s: String)
    ensures
        s@ == register_text(regs),
{
    let nibbles = nibbles_of(regs);
    let mut s = String::new();
    let mut k: usize = 0;
    while k < 16
        invariant
            k <= 16,
            nibbles@ == hex_nibbles(regs as nat, 32),
            forall|t: int| 0 <= t < 32 ==> #[trigger] nibbles@[t] < 16,
            s@ == styled_pairs(nibbles@, k as nat),
        decreases 16 - k,
    {
        if k % 2 == 0 {
            s.append("\x1B[0m\x1B[1;39;49m");
        } else {
            s.append("\x1B[0m\x1B[2;39;49m");
        }
        s.append(hex_str(nibbles[2 * k]));
        s.append(hex_str(nibbles[2 * k + 1]));
        assert(s@ =~= styled_pairs(nibbles@, (k + 1) as nat));
        k += 1;
    }
    s.append("\x1B[0m");
    s
}

} // verus!
