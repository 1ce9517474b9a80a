use vstd::prelude::*;
use vstd::string::{StringExecFns, StringSliceAdditionalSpecFns};
use vstd::utf8::encode_utf8;

verus! {

/// How the emulator was asked to run.
#[derive(Debug, Clone)]
pub struct ChipOptions {
    /// Draw the screen.
    pub graphics: bool,
    /// Only decode the program and print its instructions.
    pub only_parse: bool,
    /// Path of the program to run.
    pub program_path: String,
    /// Frames per second, or as fast as possible when `None`.
    pub fps: Option<u32>,
}

/// The options in mathematical form: graphics, only-parse, program path and
/// frames per second.
pub type OptionsView = (bool, bool, Seq<char>, Option<u32>);

impl View for ChipOptions {
    type V = OptionsView;

    open spec fn view(&self) -> OptionsView {
        (self.graphics, self.only_parse, self.program_path@, self.fps)
    }
}

/// Which argument a flag lacks.
#[derive(Debug, Clone, Copy, PartialEq, Eq, Structural)]
pub enum OptionsErrorKind {
    /// `-s`/`--fps` at the end of the command line.
    NeedsArgument,
    /// `-s`/`--fps` followed by something that is not a number.
    NeedsFps,
    /// `-f`/`--file` at the end of the command line.
    NeedsPath,
}

/// A flag that lacks its argument, with the flag as it was written.
#[derive(Debug, Clone)]
pub struct OptionsError {
    pub kind: OptionsErrorKind,
    pub word: String,
}

impl View for OptionsError {
    type V = (OptionsErrorKind, Seq<char>);

    open spec fn view(&self) -> (OptionsErrorKind, Seq<char>) {
        (self.kind, self.word@)
    }
}

/// The program path used when none is given.
pub open spec fn default_path() -> Seq<char> {
    "./roms/test.ch8"@
}

/// Options before any argument: graphics on, no parse-only mode, the
/// default path, as fast as possible.
pub open spec fn default_options() -> OptionsView {
    (true, false, default_path(), None)
}

impl Default for ChipOptions {
    fn default() -> (o: Self)
        ensures
            o@ == default_options(),
    {
        ChipOptions {
            graphics: true,
            only_parse: false,
            program_path: String::from_str("./roms/test.ch8"),
            fps: None,
        }
    }
}

/// The value of a sequence of decimal digits.
pub open spec fn digits_value(ds: Seq<u8>) -> nat
    decreases ds.len(),
{
    if ds.len() == 0 {
        0
    } else {
        digits_value(ds.drop_last()) * 10 + (ds.last() - 0x30) as nat
    }
}

/// The number that the bytes spell in decimal, as `u32::from_str` reads
/// them: an optional `+`, then at least one digit and nothing else, with a
/// value that fits in 32 bits.
pub open spec fn decimal_u32(bytes: Seq<u8>) -> Option<u32> {
    let ds = if bytes.len() > 0 && bytes[0] == 0x2b {
        bytes.skip(1)
    } else {
        bytes
    };
    if ds.len() > 0 && (forall|k: int| 0 <= k < ds.len() ==> 0x30 <= #[trigger] ds[k] <= 0x39)
        && digits_value(ds) <= u32::MAX {
        Some(digits_value(ds) as u32)
    } else {
        None
    }
}

/// Reads a `u32` written in decimal with `str::parse::<u32>` (the standard
/// `FromStr` of `u32`), which accepts an optional `+` followed by digits
/// and nothing else, and fails on an empty string or on overflow.
#[verifier::external_body]
fn parse_u32(s: &str) -> (r: Option<u32>)
    ensures
        r == decimal_u32(s.spec_bytes()),
{
    s.parse::<u32>().ok()
}

/// The UTF-8 bytes of a word are exactly `lit`.
pub open spec fn word_is(w: Seq<char>, lit: Seq<u8>) -> bool {
    encode_utf8(w) == lit
}

/// The flag `-p` / `--parse`.
pub open spec fn is_parse_flag(w: Seq<char>) -> bool {
    word_is(w, seq![0x2du8, 0x70]) || word_is(
        w,
        seq![0x2du8, 0x2d, 0x70, 0x61, 0x72, 0x73, 0x65],
    )
}

/// The flag `-g` / `--no-graphics`.
pub open spec fn is_graphics_flag(w: Seq<char>) -> bool {
    word_is(w, seq![0x2du8, 0x67]) || word_is(
        w,
        seq![0x2du8, 0x2d, 0x6e, 0x6f, 0x2d, 0x67, 0x72, 0x61, 0x70, 0x68, 0x69, 0x63, 0x73],
    )
}

/// The flag `-s` / `--fps`.
pub open spec fn is_fps_flag(w: Seq<char>) -> bool {
    word_is(w, seq![0x2du8, 0x73]) || word_is(w, seq![0x2du8, 0x2d, 0x66, 0x70, 0x73])
}

/// The flag `-f` / `--file`.
pub open spec fn is_file_flag(w: Seq<char>) -> bool {
    word_is(w, seq![0x2du8, 0x66]) || word_is(w, seq![0x2du8, 0x2d, 0x66, 0x69, 0x6c, 0x65])
}

/// The options that the words make, starting from `o`: `-p` and `-g` set
/// their switch, `-s N` sets the frames per second, `-f PATH` and any
/// other word set the program path; a later word overrides an earlier one.
/// A flag without its argument is an error that names the flag.
pub open spec fn options_from(words: Seq<Seq<char>>, o: OptionsView) -> Result<
    OptionsView,
    (OptionsErrorKind, Seq<char>),
>
    decreases words.len(),
{
    if words.len() == 0 {
        Ok(o)
    } else {
        let w = words[0];
        if is_parse_flag(w) {
            options_from(words.skip(1), (o.0, true, o.2, o.3))
        } else if is_graphics_flag(w) {
            options_from(words.skip(1), (false, o.1, o.2, o.3))
        } else if is_fps_flag(w) {
            if words.len() < 2 {
                Err((OptionsErrorKind::NeedsArgument, w))
            } else {
                match decimal_u32(encode_utf8(words[1])) {
                    Some(n) => options_from(words.skip(2), (o.0, o.1, o.2, Some(n))),
                    None => Err((OptionsErrorKind::NeedsFps, w)),
                }
            }
        } else if is_file_flag(w) {
            if words.len() < 2 {
                Err((OptionsErrorKind::NeedsPath, w))
            } else {
                options_from(words.skip(2), (o.0, o.1, words[1], o.3))
            }
        } else {
            options_from(words.skip(1), (o.0, o.1, w, o.3))
        }
    }
}

/// How one word of the command line acts on the options `o`, by the
/// word's UTF-8 bytes: `-p` or `--parse` turns parse-only mode on, `-g` or
/// `--no-graphics` turns graphics off, `-s` or `--fps` reads the next word
/// as the frames per second, `-f` or `--file` takes the next word as the
/// program path, and any other word is the program path.
pub proof fn lemma_option_words(w: Seq<char>, ws: Seq<Seq<char>>, o: OptionsView)
    ensures
        ({
            let b = encode_utf8(w);
            let r = options_from(seq![w] + ws, o);
            let parse = b == seq![0x2du8, 0x70] || b == seq![0x2du8, 0x2d, 0x70, 0x61, 0x72, 0x73, 0x65];
            let graphics = b == seq![0x2du8, 0x67] || b == seq![
                0x2du8, 0x2d, 0x6e, 0x6f, 0x2d, 0x67, 0x72, 0x61, 0x70, 0x68, 0x69, 0x63, 0x73,
            ];
            let fps = b == seq![0x2du8, 0x73] || b == seq![0x2du8, 0x2d, 0x66, 0x70, 0x73];
            let file = b == seq![0x2du8, 0x66] || b == seq![0x2du8, 0x2d, 0x66, 0x69, 0x6c, 0x65];
            &&& parse ==> r == options_from(ws, (o.0, true, o.2, o.3))
            &&& graphics ==> r == options_from(ws, (false, o.1, o.2, o.3))
            &&& fps && ws.len() == 0 ==> r == Err::<OptionsView, (OptionsErrorKind, Seq<char>)>(
                (OptionsErrorKind::NeedsArgument, w),
            )
            &&& fps && ws.len() > 0 ==> r == match decimal_u32(encode_utf8(ws[0])) {
                Some(n) => options_from(ws.skip(1), (o.0, o.1, o.2, Some(n))),
                None => Err::<OptionsView, (OptionsErrorKind, Seq<char>)>(
                    (OptionsErrorKind::NeedsFps, w),
                ),
            }
            &&& file && ws.len() == 0 ==> r == Err::<OptionsView, (OptionsErrorKind, Seq<char>)>(
                (OptionsErrorKind::NeedsPath, w),
            )
            &&& file && ws.len() > 0 ==> r == options_from(ws.skip(1), (o.0, o.1, ws[0], o.3))
            &&& !parse && !graphics && !fps && !file ==> r == options_from(ws, (o.0, o.1, w, o.3))
        }),
{
    let words = seq![w] + ws;
    assert(words[0] == w);
    assert(words.skip(1) =~= ws);
    if ws.len() > 0 {
        assert(words[1] == ws[0]);
        assert(words.skip(2) =~= ws.skip(1));
    }
    let b = encode_utf8(w);
    if b.len() == 2 {
        assert(seq![0x2du8, 0x70][1] == 0x70u8);
        assert(seq![0x2du8, 0x67][1] == 0x67u8);
        assert(seq![0x2du8, 0x73][1] == 0x73u8);
        assert(seq![0x2du8, 0x66][1] == 0x66u8);
    }
}

/// The words of a command line after the program's name.
pub open spec fn arg_words(args: Seq<String>) -> Seq<Seq<char>> {
    if args.len() == 0 {
        Seq::empty()
    } else {
        args.skip(1).map_values(|s: String| s@)
    }
}

/// Whether two byte strings are equal.
fn bytes_equal(a: &[u8], b: &[u8]) -> (r: bool)
    ensures
        r == (a@ == b@),
{
    if a.len() != b.len() {
        return false;
    }
    let mut k: usize = 0;
    while k < a.len()
        invariant
            a@.len() == b@.len(),
            k <= a@.len(),
            forall|j: int| 0 <= j < k ==> a@[j] == b@[j],
        decreases a@.len() - k,
    {
        if a[k] != b[k] {
            return false;
        }
        k += 1;
    }
    assert(a@ =~= b@);
    true
}

impl ChipOptions {
    /// Reads the options from the command line, whose first word (the
    /// program's name) is skipped.
    pub fn from_args(args: &[String]) -> (r: Result<ChipOptions, OptionsError>)
        ensures
            r matches Ok(o) ==> options_from(arg_words(args@), default_options()) == Ok::<
                OptionsView,
                (OptionsErrorKind, Seq<char>),
            >(o@),
            r matches Err(e) ==> options_from(arg_words(args@), default_options()) == Err::<
                OptionsView,
                (OptionsErrorKind, Seq<char>),
            >(e@),
    {
        let mut res = ChipOptions::default();
        if args.len() == 0 {
            return Ok(res);
        }
        let ghost words = arg_words(args@);
        let mut k: usize = 1;
        while k < args.len()
            invariant
                1 <= k <= args@.len(),
                words == args@.skip(1).map_values(|s: String| s@),
                options_from(words, default_options()) == options_from(
                    args@.skip(k as int).map_values(|s: String| s@),
                    res@,
                ),
            decreases args@.len() - k,
        {
            let ghost rest = args@.skip(k as int).map_values(|s: String| s@);
            let word = &args[k];
            let b = word.as_str().as_bytes();
            assert(rest[0] == word@);
            assert(args@.skip(k + 1).map_values(|s: String| s@) =~= rest.skip(1));
            if bytes_equal(b, &[0x2d, 0x70]) || bytes_equal(
                b,
                &[0x2d, 0x2d, 0x70, 0x61, 0x72, 0x73, 0x65],
            ) {
                res.only_parse = true;
                k += 1;
            } else if bytes_equal(b, &[0x2d, 0x67]) || bytes_equal(
                b,
                &[0x2d, 0x2d, 0x6e, 0x6f, 0x2d, 0x67, 0x72, 0x61, 0x70, 0x68, 0x69, 0x63, 0x73],
            ) {
                res.graphics = false;
                k += 1;
            } else if bytes_equal(b, &[0x2d, 0x73]) || bytes_equal(
                b,
                &[0x2d, 0x2d, 0x66, 0x70, 0x73],
            ) {
                if k + 1 >= args.len() {
                    return Err(OptionsError { kind: OptionsErrorKind::NeedsArgument, word: word.clone() });
                }
                assert(rest[1] == args@[k + 1]@);
                assert(args@.skip(k + 2).map_values(|s: String| s@) =~= rest.skip(2));
                match parse_u32(args[k + 1].as_str()) {
                    Some(n) => res.fps = Some(n),
                    None => {
                        return Err(OptionsError { kind: OptionsErrorKind::NeedsFps, word: word.clone() });
                    },
                }
                k += 2;
            } else if bytes_equal(b, &[0x2d, 0x66]) || bytes_equal(
                b,
                &[0x2d, 0x2d, 0x66, 0x69, 0x6c, 0x65],
            ) {
                if k + 1 >= args.len() {
                    return Err(OptionsError { kind: OptionsErrorKind::NeedsPath, word: word.clone() });
                }
                assert(rest[1] == args@[k + 1]@);
                assert(args@.skip(k + 2).map_values(|s: String| s@) =~= rest.skip(2));
                res.program_path = args[k + 1].clone();
                k += 2;
            } else {
                res.program_path = word.clone();
                k += 1;
            }
        }
        assert(args@.skip(k as int).map_values(|s: String| s@) =~= Seq::<Seq<char>>::empty());
        Ok(res)
    }

    /// Length of a frame in nanoseconds: a second divided by the frames per
    /// second, or 0 to run as fast as possible.
    pub fn frame_nanos(fps: Option<u32>) -> (n: u64)
        requires
            fps != Some(0u32),
        ensures
            n == match fps {
                Some(f) => 1_000_000_000int / (f as int),
                None => 0int,
            },
    {
        match fps {
            Some(f) => 1_000_000_000 / (f as u64),
            None => 0,
        }
    }
}

} // verus!
