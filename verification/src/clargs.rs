use vstd::prelude::*;
use vstd::string::StringSliceAdditionalSpecFns;

verus! {

/// A word of the command line: a flag (`-p`, `--parse`) or a value
/// (`test.ch8`).
#[derive(Debug, PartialEq, Eq, PartialOrd, Ord, Clone, Copy)]
pub enum CliToken<'a> {
    Flag(&'a str),
    Value(&'a str),
}

/// An argument of the command line: a flag alone (`-p`), a flag with its
/// value (`-f file.ch8`), or a value that no flag names (`file.ch8`).
#[derive(Debug, PartialEq, Eq, PartialOrd, Ord, Clone)]
pub enum CliArg<'a> {
    Flag(&'a str),
    Value(&'a str, &'a str),
    DefaultValue(&'a str),
}

/// The word starts with `-`.
pub open spec fn starts_with_dash(s: &str) -> bool {
    s.spec_bytes().len() > 0 && s.spec_bytes()[0] == 0x2d
}

/// The token of a word: a flag when it starts with `-`, else a value.
pub open spec fn token_of<'a>(s: &'a str) -> CliToken<'a> {
    if starts_with_dash(s) {
        CliToken::Flag(s)
    } else {
        CliToken::Value(s)
    }
}

/// A word is a flag exactly when its first byte is `-` (0x2d), and its
/// token keeps the word.
pub proof fn lemma_token_kinds<'a>(s: &'a str)
    ensures
        (token_of(s) is Flag) <==> (s.spec_bytes().len() > 0 && s.spec_bytes()[0] == 0x2du8),
        (token_of(s) is Value) <==> !(s.spec_bytes().len() > 0 && s.spec_bytes()[0] == 0x2du8),
        token_of(s).text() == s,
{
}

impl<'a> CliToken<'a> {
    /// The word of the token.
    pub open spec fn text(self) -> &'a str {
        match self {
            CliToken::Flag(s) => s,
            CliToken::Value(s) => s,
        }
    }

    /// The word of the token.
    pub fn as_str(&self) -> (s: &'a str)
        ensures
            s == self.text(),
    {
        match self {
            CliToken::Flag(s) => s,
            CliToken::Value(s) => s,
        }
    }
}

impl<'a> From<&'a str> for CliToken<'a> {
    /// Classifies a word by its first byte.
    fn from(value: &'a str) -> (t: Self) {
        let bytes = value.as_bytes();
        if bytes.len() > 0 && bytes[0] == 0x2d {
            CliToken::Flag(value)
        } else {
            CliToken::Value(value)
        }
    }
}

impl<'a> vstd::std_specs::convert::FromSpecImpl<&'a str> for CliToken<'a> {
    open spec fn obeys_from_spec() -> bool {
        true
    }

    open spec fn from_spec(v: &'a str) -> CliToken<'a> {
        token_of(v)
    }
}

/// The first argument that the tokens start with, and how many tokens it
/// takes: a value alone is a default value; a flag takes the value that
/// follows it, if one does.
pub open spec fn next_arg<'a>(ts: Seq<CliToken<'a>>) -> Option<(CliArg<'a>, nat)> {
    if ts.len() == 0 {
        None
    } else {
        match ts[0] {
            CliToken::Value(s) => Some((CliArg::DefaultValue(s), 1)),
            CliToken::Flag(f) => if ts.len() > 1 && ts[1] is Value {
                Some((CliArg::Value(f, ts[1].text()), 2))
            } else {
                Some((CliArg::Flag(f), 1))
            },
        }
    }
}

/// All the arguments that the tokens make, in order.
pub open spec fn parse_all<'a>(ts: Seq<CliToken<'a>>) -> Seq<CliArg<'a>>
    decreases ts.len(),
{
    match next_arg(ts) {
        None => Seq::empty(),
        Some((a, n)) => if 0 < n <= ts.len() {
            seq![a] + parse_all(ts.skip(n as int))
        } else {
            Seq::empty()
        },
    }
}

/// The words that an argument was made of.
pub open spec fn words_of<'a>(a: CliArg<'a>) -> Seq<&'a str> {
    match a {
        CliArg::Flag(f) => seq![f],
        CliArg::Value(f, v) => seq![f, v],
        CliArg::DefaultValue(v) => seq![v],
    }
}

/// The words that the arguments were made of, in order.
pub open spec fn words_of_all<'a>(args: Seq<CliArg<'a>>) -> Seq<&'a str>
    decreases args.len(),
{
    if args.len() == 0 {
        Seq::empty()
    } else {
        words_of(args[0]) + words_of_all(args.skip(1))
    }
}

/// Parsing loses no word and adds none: the words of the arguments, in
/// order, are the words of the tokens.
pub proof fn lemma_parse_keeps_words<'a>(ts: Seq<CliToken<'a>>)
    ensures
        words_of_all(parse_all(ts)) == ts.map_values(|t: CliToken<'a>| t.text()),
    decreases ts.len(),
{
    if ts.len() == 0 {
        assert(ts.map_values(|t: CliToken<'a>| t.text()) =~= Seq::<&'a str>::empty());
    } else {
        let (a, n) = next_arg(ts).unwrap();
        let rest = ts.skip(n as int);
        lemma_parse_keeps_words(rest);
        let args = parse_all(ts);
        assert(args == seq![a] + parse_all(rest));
        assert(args[0] == a);
        assert(args.skip(1) =~= parse_all(rest));
        assert(ts.map_values(|t: CliToken<'a>| t.text()) =~= words_of(a) + rest.map_values(
            |t: CliToken<'a>| t.text(),
        ));
    }
}

/// The tokens that an argument was made of.
pub open spec fn tokens_of<'a>(a: CliArg<'a>) -> Seq<CliToken<'a>> {
    match a {
        CliArg::Flag(f) => seq![CliToken::Flag(f)],
        CliArg::Value(f, v) => seq![CliToken::Flag(f), CliToken::Value(v)],
        CliArg::DefaultValue(v) => seq![CliToken::Value(v)],
    }
}

/// The tokens that the arguments were made of, in order.
pub open spec fn tokens_of_all<'a>(args: Seq<CliArg<'a>>) -> Seq<CliToken<'a>>
    decreases args.len(),
{
    if args.len() == 0 {
        Seq::empty()
    } else {
        tokens_of(args[0]) + tokens_of_all(args.skip(1))
    }
}

/// Parsing can be undone: spelling each argument out as the tokens it was
/// made of gives back the tokens, each once and in their order.
pub proof fn lemma_parse_round_trip<'a>(ts: Seq<CliToken<'a>>)
    ensures
        tokens_of_all(parse_all(ts)) == ts,
    decreases ts.len(),
{
    if ts.len() > 0 {
        let (a, n) = next_arg(ts).unwrap();
        let rest = ts.skip(n as int);
        lemma_parse_round_trip(rest);
        let args = parse_all(ts);
        assert(args == seq![a] + parse_all(rest));
        assert(args[0] == a);
        assert(args.skip(1) =~= parse_all(rest));
        if n == 2 {
            assert(ts[1] == CliToken::Value(ts[1].text()));
        }
        assert(tokens_of(a) =~= ts.take(n as int));
        assert(ts =~= ts.take(n as int) + rest);
    }
}

/// Turns a sequence of words into tokens, one by one.
pub struct Tokenize<'a> {
    words: Vec<&'a str>,
    next: usize,
}

impl<'a> Tokenize<'a> {
    /// The words not yet turned into tokens.
    pub closed spec fn rest(&self) -> Seq<&'a str> {
        self.words@.skip(self.next as int)
    }

    #[verifier::type_invariant]
    spec fn within(&self) -> bool {
        self.next <= self.words@.len()
    }

    /// The token of the next word, if a word is left.
    pub fn next(&mut self) -> (r: Option<CliToken<'a>>)
        ensures
            old(self).rest().len() == 0 ==> r is None && final(self).rest() == old(self).rest(),
            old(self).rest().len() > 0 ==> r == Some(token_of(old(self).rest()[0]))
                && final(self).rest() == old(self).rest().skip(1),
    {
        proof {
            use_type_invariant(&*self);
        }
        if self.next < self.words.len() {
            let word = self.words[self.next];
            self.next = self.next + 1;
            assert(self.rest() =~= old(self).rest().skip(1));
            Some(CliToken::from(word))
        } else {
            None
        }
    }
}

/// Turns words into tokens.
pub trait Tokenizable<'a> {
    fn tokenize(self) -> Tokenize<'a>;
}

impl<'a> Tokenizable<'a> for Vec<&'a str> {
    /// Starts turning the words into tokens.
    fn tokenize(self) -> (t: Tokenize<'a>)
        ensures
            t.rest() == self@,
    {
        let t = Tokenize { words: self, next: 0 };
        assert(t.rest() =~= t.words@);
        t
    }
}

/// Turns a sequence of tokens into arguments, one by one.
pub struct Parse<'a> {
    tokens: Vec<CliToken<'a>>,
    next: usize,
}

impl<'a> Parse<'a> {
    /// The tokens not yet turned into arguments.
    pub closed spec fn rest(&self) -> Seq<CliToken<'a>> {
        self.tokens@.skip(self.next as int)
    }

    #[verifier::type_invariant]
    spec fn within(&self) -> bool {
        self.next <= self.tokens@.len()
    }

    /// The next argument, if a token is left (see [`next_arg`]).
    pub fn next(&mut self) -> (r: Option<CliArg<'a>>)
        ensures
            match next_arg(old(self).rest()) {
                None => r is None && final(self).rest() == old(self).rest(),
                Some((a, n)) => r == Some(a)
                    && final(self).rest() == old(self).rest().skip(n as int),
            },
    {
        proof {
            use_type_invariant(&*self);
        }
        if self.next >= self.tokens.len() {
            return None;
        }
        let next = self.tokens[self.next];
        self.next = self.next + 1;
        match next {
            CliToken::Value(s) => {
                assert(self.rest() =~= old(self).rest().skip(1));
                Some(CliArg::DefaultValue(s))
            },
            CliToken::Flag(f) => {
                if self.next < self.tokens.len() {
                    match self.tokens[self.next] {
                        CliToken::Value(v) => {
                            self.next = self.next + 1;
                            assert(self.rest() =~= old(self).rest().skip(2));
                            return Some(CliArg::Value(f, v));
                        },
                        CliToken::Flag(_) => {},
                    }
                }
                assert(self.rest() =~= old(self).rest().skip(1));
                Some(CliArg::Flag(f))
            },
        }
    }
}

impl<'a> Parse<'a> {
    /// All the arguments that the tokens left make, in order (see
    /// [`parse_all`]).
    pub fn collect_args(self) -> (args: Vec<CliArg<'a>>)
        ensures
            args@ == parse_all(self.rest()),
            tokens_of_all(args@) == self.rest(),
    {
        proof {
            lemma_parse_round_trip(self.rest());
        }
        let mut p = self;
        let ghost ts = p.rest();
        let mut args: Vec<CliArg<'a>> = Vec::new();
        loop
            invariant
                parse_all(ts) == args@ + parse_all(p.rest()),
            ensures
                args@ == parse_all(ts),
            decreases p.rest().len(),
        {
            let ghost before = p.rest();
            match p.next() {
                Some(a) => {
                    assert(parse_all(before) == seq![a] + parse_all(p.rest()));
                    assert(args@ + (seq![a] + parse_all(p.rest())) =~= args@.push(a) + parse_all(
                        p.rest(),
                    ));
                    args.push(a);
                },
                None => {
                    assert(args@ + parse_all(p.rest()) =~= args@);
                    break;
                },
            }
        }
        args
    }
}

/// Turns tokens into arguments.
pub trait Parseable<'a> {
    fn parse(self) -> Parse<'a>;
}

impl<'a> Parseable<'a> for Vec<CliToken<'a>> {
    /// Starts turning the tokens into arguments.
    fn parse(self) -> (p: Parse<'a>)
        ensures
            p.rest() == self@,
    {
        let p = Parse { tokens: self, next: 0 };
        assert(p.rest() =~= p.tokens@);
        p
    }
}

impl<'a> Parseable<'a> for Tokenize<'a> {
    /// Starts turning the tokens of the words left into arguments.
    fn parse(self) -> (p: Parse<'a>)
        ensures
            p.rest() == self.rest().map_values(|w: &'a str| token_of(w)),
    {
        let mut t = self;
        let ghost words = t.rest();
        let mut tokens: Vec<CliToken<'a>> = Vec::new();
        loop
            invariant
                words.len() == tokens@.len() + t.rest().len(),
                t.rest() == words.skip(tokens@.len() as int),
                forall|k: int| 0 <= k < tokens@.len() ==> tokens@[k] == token_of(words[k]),
            ensures
                tokens@ =~= words.map_values(|w: &'a str| token_of(w)),
            decreases t.rest().len(),
        {
            let ghost before = t.rest();
            match t.next() {
                Some(tok) => {
                    assert(words.skip(tokens@.len() as int)[0] == words[tokens@.len() as int]);
                    tokens.push(tok);
                    assert(t.rest() =~= words.skip(tokens@.len() as int));
                },
                None => {
                    break;
                },
            }
        }
        tokens.parse()
    }
}

} // verus!
