use vstd::prelude::*;

use crate::chip8::Chip8;

verus! {

/// Number of bytes of the machine's memory.
pub const MEM_SIZE: usize = 0x1000;

/// The regions of the machine's memory, listed from the top of the address
/// space down. Each region runs from its own start address up to the start
/// of the region listed before it.
///
/// ```text
/// 0x1000 | End            (0)
/// 0x0F00 | Display        (256)   64x32 monochrome pixels, one u64 per row
/// 0x0EE2 | Empty          (30)
/// 0x0EE0 | Keys           (2)     bitmap of the pressed keys
/// 0x0ED8 | Time           (8)     milliseconds of the last timer update
/// 0x0ED7 | KEY            (1)     lowest newly pressed key, 16 if none
/// 0x0ED6 | ST             (1)     sound timer
/// 0x0ED5 | DT             (1)     delay timer
/// 0x0ED4 | SP             (1)     stack pointer
/// 0x0ED2 | PC             (2)     program counter
/// 0x0ED0 | I              (2)     address register
/// 0x0EC0 | Vs             (16)    V registers
/// 0x0EA0 | Stack          (32)    call stack
/// 0x0200 | Memory         (3232)  program memory
/// 0x0000 | Data           (512)   internal data (font)
/// ```
#[derive(Debug, Clone, Copy, PartialEq, Eq, Structural)]
pub enum Region {
    End,
    Display,
    Empty,
    Keys,
    Time,
    KEY,
    ST,
    DT,
    SP,
    PC,
    I,
    Vs,
    Stack,
    Memory,
    Data,
}

impl Region {
    /// First address of the region.
    pub open spec fn start(self) -> nat {
        match self {
            Region::End => 0x1000,
            Region::Display => 0x0F00,
            Region::Empty => 0x0EE2,
            Region::Keys => 0x0EE0,
            Region::Time => 0x0ED8,
            Region::KEY => 0x0ED7,
            Region::ST => 0x0ED6,
            Region::DT => 0x0ED5,
            Region::SP => 0x0ED4,
            Region::PC => 0x0ED2,
            Region::I => 0x0ED0,
            Region::Vs => 0x0EC0,
            Region::Stack => 0x0EA0,
            Region::Memory => 0x0200,
            Region::Data => 0x0000,
        }
    }

    /// The region that lies directly above this one (`End` for `End` itself).
    pub open spec fn above(self) -> Region {
        match self {
            Region::End => Region::End,
            Region::Display => Region::End,
            Region::Empty => Region::Display,
            Region::Keys => Region::Empty,
            Region::Time => Region::Keys,
            Region::KEY => Region::Time,
            Region::ST => Region::KEY,
            Region::DT => Region::ST,
            Region::SP => Region::DT,
            Region::PC => Region::SP,
            Region::I => Region::PC,
            Region::Vs => Region::I,
            Region::Stack => Region::Vs,
            Region::Memory => Region::Stack,
            Region::Data => Region::Memory,
        }
    }

    /// Number of bytes in the region.
    pub open spec fn span(self) -> nat {
        match self {
            Region::End => 0,
            Region::Display => 256,
            Region::Empty => 30,
            Region::Keys => 2,
            Region::Time => 8,
            Region::KEY => 1,
            Region::ST => 1,
            Region::DT => 1,
            Region::SP => 1,
            Region::PC => 2,
            Region::I => 2,
            Region::Vs => 16,
            Region::Stack => 32,
            Region::Memory => 3232,
            Region::Data => 512,
        }
    }

    /// Start address of the region.
    pub fn addr(&self) -> (a: u16)
        ensures
            a == self.start(),
    {
        match self {
            Region::End => 0x1000,
            Region::Display => 0x0F00,
            Region::Empty => 0x0EE2,
            Region::Keys => 0x0EE0,
            Region::Time => 0x0ED8,
            Region::KEY => 0x0ED7,
            Region::ST => 0x0ED6,
            Region::DT => 0x0ED5,
            Region::SP => 0x0ED4,
            Region::PC => 0x0ED2,
            Region::I => 0x0ED0,
            Region::Vs => 0x0EC0,
            Region::Stack => 0x0EA0,
            Region::Memory => 0x0200,
            Region::Data => 0x0000,
        }
    }

    /// Size of the region in bytes: the distance to the region above it.
    pub fn size(&self) -> (s: usize)
        ensures
            s == self.span(),
            self != Region::End ==> s + self.start() == self.above().start(),
    {
        match self {
            Region::End => 0,
            Region::Display => Region::End.addr() as usize - Region::Display.addr() as usize,
            Region::Empty => Region::Display.addr() as usize - Region::Empty.addr() as usize,
            Region::Keys => Region::Empty.addr() as usize - Region::Keys.addr() as usize,
            Region::Time => Region::Keys.addr() as usize - Region::Time.addr() as usize,
            Region::KEY => Region::Time.addr() as usize - Region::KEY.addr() as usize,
            Region::ST => Region::KEY.addr() as usize - Region::ST.addr() as usize,
            Region::DT => Region::ST.addr() as usize - Region::DT.addr() as usize,
            Region::SP => Region::DT.addr() as usize - Region::SP.addr() as usize,
            Region::PC => Region::SP.addr() as usize - Region::PC.addr() as usize,
            Region::I => Region::PC.addr() as usize - Region::I.addr() as usize,
            Region::Vs => Region::I.addr() as usize - Region::Vs.addr() as usize,
            Region::Stack => Region::Vs.addr() as usize - Region::Stack.addr() as usize,
            Region::Memory => Region::Stack.addr() as usize - Region::Memory.addr() as usize,
            Region::Data => Region::Memory.addr() as usize - Region::Data.addr() as usize,
        }
    }
}

/// The regions tile the whole memory: the lowest starts at 0, each one ends
/// where the one above it starts, and the topmost ends at the memory's size.
pub proof fn lemma_regions_tile(r: Region)
    ensures
        Region::Data.start() == 0,
        Region::End.start() == MEM_SIZE,
        r != Region::End ==> r.start() + r.span() == r.above().start(),
        r.start() + r.span() <= MEM_SIZE,
{
}


/// A location inside a region: the region and a distance from its start
/// that is at most the region's size.
#[derive(Debug)]
pub struct Offset(Region, u16);

impl Offset {
    #[verifier::type_invariant]
    spec fn within(self) -> bool {
        self.1 <= self.0.span()
    }

    /// The region the offset is taken in.
    pub closed spec fn region(self) -> Region {
        self.0
    }

    /// The distance from the region's start.
    pub closed spec fn offset(self) -> nat {
        self.1 as nat
    }

    /// The location `offset` bytes into `region`; the offset may reach the
    /// region's end but not go past it.
    pub fn new(region: Region, offset: u16) -> (o: Offset)
        requires
            offset <= region.span(),
        ensures
            o.region() == region,
            o.offset() == offset,
    {
        Offset(region, offset)
    }
}

impl std::ops::Add<u8> for Region {
    type Output = Offset;

    /// The location `rhs` bytes into the region.
    fn add(self, rhs: u8) -> (o: Offset)
        ensures
            o.region() == self,
            o.offset() == rhs,
    {
        Offset::new(self, rhs as u16)
    }
}

impl vstd::std_specs::ops::AddSpecImpl<u8> for Region {
    open spec fn obeys_add_spec() -> bool {
        true
    }

    open spec fn add_req(self, rhs: u8) -> bool {
        rhs <= self.span()
    }

    closed spec fn add_spec(self, rhs: u8) -> Offset {
        Offset(self, rhs as u16)
    }
}

impl std::ops::Add<u16> for Region {
    type Output = Offset;

    /// The location `rhs` bytes into the region.
    fn add(self, rhs: u16) -> (o: Offset)
        ensures
            o.region() == self,
            o.offset() == rhs,
    {
        Offset::new(self, rhs)
    }
}

impl vstd::std_specs::ops::AddSpecImpl<u16> for Region {
    open spec fn obeys_add_spec() -> bool {
        true
    }

    open spec fn add_req(self, rhs: u16) -> bool {
        rhs <= self.span()
    }

    closed spec fn add_spec(self, rhs: u16) -> Offset {
        Offset(self, rhs)
    }
}

impl std::ops::Add<i32> for Region {
    type Output = Offset;

    /// The location `rhs` bytes into the region, `rhs` taken modulo `2^16`.
    fn add(self, rhs: i32) -> (o: Offset)
        ensures
            o.region() == self,
            o.offset() == rhs as u16,
    {
        self + rhs as u16
    }
}

impl vstd::std_specs::ops::AddSpecImpl<i32> for Region {
    open spec fn obeys_add_spec() -> bool {
        true
    }

    open spec fn add_req(self, rhs: i32) -> bool {
        rhs as u16 <= self.span()
    }

    closed spec fn add_spec(self, rhs: i32) -> Offset {
        Offset(self, rhs as u16)
    }
}

impl std::ops::Add<u8> for Offset {
    type Output = Offset;

    /// The location `rhs` bytes further into the same region.
    fn add(self, rhs: u8) -> (o: Offset)
        ensures
            o.region() == self.region(),
            o.offset() == self.offset() + rhs,
    {
        Offset::new(self.0, self.1 + rhs as u16)
    }
}

impl vstd::std_specs::ops::AddSpecImpl<u8> for Offset {
    open spec fn obeys_add_spec() -> bool {
        true
    }

    open spec fn add_req(self, rhs: u8) -> bool {
        self.offset() + rhs <= self.region().span()
    }

    closed spec fn add_spec(self, rhs: u8) -> Offset {
        Offset(self.region(), (self.offset() + rhs) as u16)
    }
}

/// Anything that names an address of the memory: a raw address, the start
/// of a region, or an offset into a region.
pub trait Address {
    /// The address that is named.
    spec fn location(&self) -> int;

    /// Computes the address that is named.
    fn address(&self) -> (a: u16)
        ensures
            a as int == self.location(),
    ;
}

impl Address for u16 {
    open spec fn location(&self) -> int {
        *self as int
    }

    fn address(&self) -> (a: u16) {
        *self
    }
}

impl Address for Region {
    open spec fn location(&self) -> int {
        self.start() as int
    }

    fn address(&self) -> (a: u16) {
        self.addr()
    }
}

impl Address for Offset {
    open spec fn location(&self) -> int {
        (self.region().start() + self.offset()) as int
    }

    fn address(&self) -> (a: u16) {
        proof {
            use_type_invariant(self);
        }
        self.0.addr() + self.1
    }
}

impl From<Region> for u16 {
    /// The start address of the region.
    fn from(value: Region) -> (a: u16) {
        value.addr()
    }
}

impl vstd::std_specs::convert::FromSpecImpl<Region> for u16 {
    open spec fn obeys_from_spec() -> bool {
        true
    }

    open spec fn from_spec(v: Region) -> u16 {
        v.start() as u16
    }
}

impl From<Offset> for u16 {
    /// The address the offset names.
    fn from(value: Offset) -> (a: u16) {
        value.address()
    }
}

impl vstd::std_specs::convert::FromSpecImpl<Offset> for u16 {
    open spec fn obeys_from_spec() -> bool {
        true
    }

    open spec fn from_spec(v: Offset) -> u16 {
        v.location() as u16
    }
}

/// `256` to the power `n`.
pub open spec fn pow256(n: nat) -> nat
    decreases n,
{
    if n == 0 {
        1
    } else {
        256 * pow256((n - 1) as nat)
    }
}

/// The number that `bytes` spell in big-endian order.
pub open spec fn be_value(bytes: Seq<u8>) -> nat
    decreases bytes.len(),
{
    if bytes.len() == 0 {
        0
    } else {
        be_value(bytes.drop_last()) * 256 + bytes.last() as nat
    }
}

/// The `n` low bytes of `v`, most significant first.
pub open spec fn be_bytes(v: nat, n: nat) -> Seq<u8>
    decreases n,
{
    if n == 0 {
        Seq::empty()
    } else {
        be_bytes(v / 256, (n - 1) as nat).push((v % 256) as u8)
    }
}

/// The big-endian number held by the `n` bytes of `mem` from `at` on.
pub open spec fn load(mem: Seq<u8>, at: int, n: nat) -> nat {
    be_value(mem.subrange(at, at + n))
}

/// `mem` with `bytes` written from `at` on, everything else kept.
pub open spec fn store(mem: Seq<u8>, at: int, bytes: Seq<u8>) -> Seq<u8> {
    Seq::new(mem.len(), |j: int| if at <= j < at + bytes.len() { bytes[j - at] } else { mem[j] })
}

/// `mem` with the `n`-byte big-endian form of `v` written from `at` on.
pub open spec fn store_be(mem: Seq<u8>, at: int, v: nat, n: nat) -> Seq<u8> {
    store(mem, at, be_bytes(v, n))
}

/// Powers of 256 are positive.
pub proof fn lemma_pow256_positive(n: nat)
    ensures
        pow256(n) > 0,
    decreases n,
{
    if n > 0 {
        lemma_pow256_positive((n - 1) as nat);
    }
}

/// `n` bytes hold numbers below `256^n`.
pub proof fn lemma_be_value_bound(bytes: Seq<u8>)
    ensures
        be_value(bytes) < pow256(bytes.len()),
    decreases bytes.len(),
{
    if bytes.len() > 0 {
        let init = bytes.drop_last();
        lemma_be_value_bound(init);
        let a = be_value(init);
        let p = pow256(init.len());
        let b = bytes.last() as nat;
        assert(a * 256 + b < 256 * p) by (nonlinear_arith)
            requires
                a < p,
                b < 256,
        ;
    }
}

/// Reading back the big-endian form of `v` gives `v` modulo `256^n`.
pub proof fn lemma_be_roundtrip(v: nat, n: nat)
    ensures
        be_bytes(v, n).len() == n,
        be_value(be_bytes(v, n)) == v % pow256(n),
    decreases n,
{
    if n == 0 {
    } else {
        let m = (n - 1) as nat;
        lemma_be_roundtrip(v / 256, m);
        lemma_pow256_positive(m);
        let bs = be_bytes(v, n);
        assert(bs.drop_last() =~= be_bytes(v / 256, m));
        vstd::arithmetic::div_mod::lemma_mod_breakdown(v as int, 256, pow256(m) as int);
        assert(pow256(n) == 256 * pow256(m));
        assert(((v % 256) as u8) as nat == v % 256);
    }
}

/// What a store of `n` bytes at `at` leaves in memory: a load of the same
/// width from the same address gives back the stored value (modulo `256^n`),
/// every other byte is unchanged and the length stays the same.
pub proof fn lemma_load_store(mem: Seq<u8>, at: int, v: nat, n: nat)
    requires
        0 <= at,
        at + n <= mem.len(),
    ensures
        store_be(mem, at, v, n).len() == mem.len(),
        load(store_be(mem, at, v, n), at, n) == v % pow256(n),
        forall|j: int| 0 <= j < mem.len() && !(at <= j < at + n) ==> #[trigger] store_be(mem, at, v, n)[j] == mem[j],
{
    lemma_be_roundtrip(v, n);
    let m2 = store_be(mem, at, v, n);
    assert(m2.subrange(at, at + n) =~= be_bytes(v, n));
}


/// Bytes stored from `at` on are read back from there, and the bytes of
/// any range that the store does not reach are read as before.
pub proof fn lemma_store_then_read(mem: Seq<u8>, at: int, bytes: Seq<u8>, from: int, n: int)
    requires
        0 <= at,
        at + bytes.len() <= mem.len(),
        0 <= from,
        0 <= n,
        from + n <= mem.len(),
    ensures
        store(mem, at, bytes).len() == mem.len(),
        store(mem, at, bytes).subrange(at, at + bytes.len()) == bytes,
        from + n <= at || at + bytes.len() <= from ==> store(mem, at, bytes).subrange(
            from,
            from + n,
        ) == mem.subrange(from, from + n),
{
    assert(store(mem, at, bytes).subrange(at, at + bytes.len()) =~= bytes);
    if from + n <= at || at + bytes.len() <= from {
        assert(store(mem, at, bytes).subrange(from, from + n) =~= mem.subrange(from, from + n));
    }
}

/// `mem` after each of `writes` in turn; a write is a start address and
/// the bytes written from there on.
pub open spec fn store_all(mem: Seq<u8>, writes: Seq<(int, Seq<u8>)>) -> Seq<u8>
    decreases writes.len(),
{
    if writes.len() == 0 {
        mem
    } else {
        store_all(store(mem, writes[0].0, writes[0].1), writes.skip(1))
    }
}

/// The write stays inside a memory of `len` bytes and misses the `n` bytes
/// from `at` on.
pub open spec fn write_misses(w: (int, Seq<u8>), at: int, n: int, len: int) -> bool {
    &&& 0 <= w.0
    &&& w.0 + w.1.len() <= len
    &&& (w.0 + w.1.len() <= at || at + n <= w.0)
}

/// Writes that miss a range leave its bytes as they were.
pub proof fn lemma_writes_elsewhere(mem: Seq<u8>, at: int, n: int, writes: Seq<(int, Seq<u8>)>)
    requires
        0 <= at,
        0 <= n,
        at + n <= mem.len(),
        forall|k: int| 0 <= k < writes.len() ==> #[trigger] write_misses(writes[k], at, n, mem.len() as int),
    ensures
        store_all(mem, writes).len() == mem.len(),
        store_all(mem, writes).subrange(at, at + n) == mem.subrange(at, at + n),
    decreases writes.len(),
{
    if writes.len() > 0 {
        let w = writes[0];
        assert(write_misses(writes[0], at, n, mem.len() as int));
        lemma_store_then_read(mem, w.0, w.1, at, n);
        let m1 = store(mem, w.0, w.1);
        let rest = writes.skip(1);
        assert forall|k: int| 0 <= k < rest.len() implies #[trigger] write_misses(
            rest[k],
            at,
            n,
            m1.len() as int,
        ) by {
            assert(rest[k] == writes[k + 1]);
            assert(write_misses(writes[k + 1], at, n, mem.len() as int));
        }
        lemma_writes_elsewhere(m1, at, n, rest);
    }
}

/// A read after a write gives back what was written, however many writes
/// come in between, as long as each of them misses the bytes written.
pub proof fn lemma_read_after_writes(
    mem: Seq<u8>,
    at: int,
    bytes: Seq<u8>,
    writes: Seq<(int, Seq<u8>)>,
)
    requires
        0 <= at,
        at + bytes.len() <= mem.len(),
        forall|k: int|
            0 <= k < writes.len() ==> #[trigger] write_misses(
                writes[k],
                at,
                bytes.len() as int,
                mem.len() as int,
            ),
    ensures
        store_all(store(mem, at, bytes), writes).subrange(at, at + bytes.len()) == bytes,
{
    lemma_store_then_read(mem, at, bytes, at, 0);
    lemma_writes_elsewhere(store(mem, at, bytes), at, bytes.len() as int, writes);
}

/// A big-endian read of `n` bytes after a write of `v` at the same address
/// gives `v` back (modulo `256^n`), however many writes come in between, as
/// long as each of them misses the bytes written.
pub proof fn lemma_load_after_writes(
    mem: Seq<u8>,
    at: int,
    v: nat,
    n: nat,
    writes: Seq<(int, Seq<u8>)>,
)
    requires
        0 <= at,
        at + n <= mem.len(),
        forall|k: int|
            0 <= k < writes.len() ==> #[trigger] write_misses(writes[k], at, n as int, mem.len() as int),
    ensures
        load(store_all(store_be(mem, at, v, n), writes), at, n) == v % pow256(n),
{
    lemma_be_roundtrip(v, n);
    lemma_read_after_writes(mem, at, be_bytes(v, n), writes);
}

/// The powers of 256 for the widths of the integer types; `256^16 = 2^128`
/// is the first number that does not fit in a `u128`.
pub proof fn lemma_pow256_values()
    ensures
        pow256(1) == 0x100,
        pow256(2) == 0x1_0000,
        pow256(4) == 0x1_0000_0000,
        pow256(8) == 0x1_0000_0000_0000_0000,
        pow256(16) == 0x1_0000_0000_0000_0000_0000_0000_0000_0000,
{
    reveal_with_fuel(pow256, 17);
}

/// Powers of 256 grow with the exponent.
pub proof fn lemma_pow256_mono(a: nat, b: nat)
    requires
        a <= b,
    ensures
        pow256(a) <= pow256(b),
    decreases b,
{
    if a < b {
        lemma_pow256_mono(a, (b - 1) as nat);
        lemma_pow256_positive((b - 1) as nat);
    }
}

impl Chip8 {
    /// The `n`-byte big-endian number stored from `at` on.
    pub(crate) fn load_be(&self, at: usize, n: usize) -> (v: u128)
        requires
            at + n <= MEM_SIZE,
            n <= 16,
        ensures
            v as nat == load(self@, at as int, n as nat),
            (v as nat) < pow256(n as nat),
    {
        let mut v: u128 = 0;
        let mut k: usize = 0;
        while k < n
            invariant
                k <= n,
                n <= 16,
                at + n <= MEM_SIZE,
                self@.len() == MEM_SIZE,
                v as nat == be_value(self@.subrange(at as int, at + k)),
            decreases n - k,
        {
            proof {
                lemma_be_value_bound(self@.subrange(at as int, at + k));
                lemma_pow256_mono(k as nat, 15);
                lemma_pow256_values();
                assert(pow256(16) == 256 * pow256(15));
                assert(v * 256 + 255 < pow256(16)) by (nonlinear_arith)
                    requires
                        v < pow256(15),
                        pow256(16) == 256 * pow256(15),
                ;
            }
            let b = self.0[at + k];
            v = v * 256 + b as u128;
            assert(self@.subrange(at as int, at + k + 1).drop_last() =~= self@.subrange(
                at as int,
                at + k,
            ));
            k += 1;
        }
        proof {
            lemma_be_value_bound(self@.subrange(at as int, at + n));
        }
        v
    }

    /// Writes the `n` low bytes of `v`, most significant first, from `at` on.
    pub(crate) fn store_be(&mut self, v: u128, at: usize, n: usize)
        requires
            at + n <= MEM_SIZE,
        ensures
            final(self)@ == store_be(old(self)@, at as int, v as nat, n as nat),
    {
        let ghost whole = be_bytes(v as nat, n as nat);
        let mut w: u128 = v;
        let mut j: usize = n;
        while j > 0
            invariant
                j <= n,
                at + n <= MEM_SIZE,
                self@.len() == MEM_SIZE,
                old(self)@.len() == MEM_SIZE,
                whole == be_bytes(v as nat, n as nat),
                whole =~= be_bytes(w as nat, j as nat) + self@.subrange(at + j, at + n),
                forall|t: int|
                    0 <= t < MEM_SIZE && !(at + j <= t < at + n) ==> self@[t] == old(self)@[t],
            decreases j,
        {
            let ghost before = self@;
            let b = (w % 256) as u8;
            self.0[at + j - 1] = b;
            proof {
                let rest = be_bytes((w / 256) as nat, (j - 1) as nat);
                assert(be_bytes(w as nat, j as nat) == rest.push(b));
                assert(self@.subrange(at + j - 1, at + n) =~= seq![b] + before.subrange(
                    at + j,
                    at + n,
                ));
                assert(rest.push(b) + before.subrange(at + j, at + n) =~= rest + self@.subrange(
                    at + j - 1,
                    at + n,
                ));
            }
            w = w / 256;
            j -= 1;
        }
        proof {
            lemma_be_roundtrip(v as nat, n as nat);
            assert(self@ =~= store_be(old(self)@, at as int, v as nat, n as nat));
        }
    }

    /// Reads the big-endian `u8` stored at `from`.
    pub fn read_u8<A: Address>(&self, from: A) -> (r: Option<u8>)
        requires
            0 <= from.location(),
            from.location() + 1 <= MEM_SIZE,
        ensures
            r == Some(self@[from.location()]),
    {
        let at = from.address() as usize;
        let v = self.load_be(at, 1);
        proof {
            lemma_pow256_values();
        }
        proof {
            assert(self@.subrange(from.location(), from.location() + 1).drop_last() =~= Seq::<u8>::empty());
        }
        Some(v as u8)
    }

    /// Writes `data` in big-endian order at `at`.
    pub fn write_u8<A: Address>(&mut self, data: u8, at: A) -> (r: Option<()>)
        requires
            0 <= at.location(),
            at.location() + 1 <= MEM_SIZE,
        ensures
            r == Some(()),
            final(self)@ == store_be(old(self)@, at.location(), data as nat, 1),
            final(self)@ == old(self)@.update(at.location(), data),
    {
        let at = at.address() as usize;
        self.store_be(data as u128, at, 1);
        assert(be_bytes(data as nat, 1) =~= seq![data]) by {
            reveal_with_fuel(be_bytes, 2);
        }
        assert(self@ =~= old(self)@.update(at as int, data));
        Some(())
    }

    /// Reads the big-endian `u16` stored at `from`.
    pub fn read_u16<A: Address>(&self, from: A) -> (r: Option<u16>)
        requires
            0 <= from.location(),
            from.location() + 2 <= MEM_SIZE,
        ensures
            r == Some(load(self@, from.location(), 2) as u16),
    {
        let at = from.address() as usize;
        let v = self.load_be(at, 2);
        proof {
            lemma_pow256_values();
        }
        Some(v as u16)
    }

    /// Writes `data` in big-endian order at `at`.
    pub fn write_u16<A: Address>(&mut self, data: u16, at: A) -> (r: Option<()>)
        requires
            0 <= at.location(),
            at.location() + 2 <= MEM_SIZE,
        ensures
            r == Some(()),
            final(self)@ == store_be(old(self)@, at.location(), data as nat, 2),
    {
        let at = at.address() as usize;
        self.store_be(data as u128, at, 2);
        Some(())
    }

    /// Reads the big-endian `u32` stored at `from`.
    pub fn read_u32<A: Address>(&self, from: A) -> (r: Option<u32>)
        requires
            0 <= from.location(),
            from.location() + 4 <= MEM_SIZE,
        ensures
            r == Some(load(self@, from.location(), 4) as u32),
    {
        let at = from.address() as usize;
        let v = self.load_be(at, 4);
        proof {
            lemma_pow256_values();
        }
        Some(v as u32)
    }

    /// Writes `data` in big-endian order at `at`.
    pub fn write_u32<A: Address>(&mut self, data: u32, at: A) -> (r: Option<()>)
        requires
            0 <= at.location(),
            at.location() + 4 <= MEM_SIZE,
        ensures
            r == Some(()),
            final(self)@ == store_be(old(self)@, at.location(), data as nat, 4),
    {
        let at = at.address() as usize;
        self.store_be(data as u128, at, 4);
        Some(())
    }

    /// Reads the big-endian `u64` stored at `from`.
    pub fn read_u64<A: Address>(&self, from: A) -> (r: Option<u64>)
        requires
            0 <= from.location(),
            from.location() + 8 <= MEM_SIZE,
        ensures
            r == Some(load(self@, from.location(), 8) as u64),
    {
        let at = from.address() as usize;
        let v = self.load_be(at, 8);
        proof {
            lemma_pow256_values();
        }
        Some(v as u64)
    }

    /// Writes `data` in big-endian order at `at`.
    pub fn write_u64<A: Address>(&mut self, data: u64, at: A) -> (r: Option<()>)
        requires
            0 <= at.location(),
            at.location() + 8 <= MEM_SIZE,
        ensures
            r == Some(()),
            final(self)@ == store_be(old(self)@, at.location(), data as nat, 8),
    {
        let at = at.address() as usize;
        self.store_be(data as u128, at, 8);
        Some(())
    }

    /// Reads the big-endian `u128` stored at `from`.
    pub fn read_u128<A: Address>(&self, from: A) -> (r: Option<u128>)
        requires
            0 <= from.location(),
            from.location() + 16 <= MEM_SIZE,
        ensures
            r == Some(load(self@, from.location(), 16) as u128),
    {
        let at = from.address() as usize;
        let v = self.load_be(at, 16);
        proof {
            lemma_pow256_values();
        }
        Some(v as u128)
    }

    /// Writes `data` in big-endian order at `at`.
    pub fn write_u128<A: Address>(&mut self, data: u128, at: A) -> (r: Option<()>)
        requires
            0 <= at.location(),
            at.location() + 16 <= MEM_SIZE,
        ensures
            r == Some(()),
            final(self)@ == store_be(old(self)@, at.location(), data as nat, 16),
    {
        let at = at.address() as usize;
        self.store_be(data as u128, at, 16);
        Some(())
    }

    /// Copies the `K` bytes from `from` on out of memory.
    pub fn read_bytes<const K: usize, A: Address>(&self, from: A) -> (r: Option<[u8; K]>)
        requires
            0 <= from.location(),
            from.location() + K <= MEM_SIZE,
        ensures
            r is Some,
            r.unwrap()@ == self@.subrange(from.location(), from.location() + K),
    {
        let at = from.address() as usize;
        let mut a = [0u8; K];
        let mut k: usize = 0;
        while k < K
            invariant
                k <= K,
                at + K <= MEM_SIZE,
                self@.len() == MEM_SIZE,
                a@.len() == K,
                forall|t: int| 0 <= t < k ==> a@[t] == self@[at + t],
            decreases K - k,
        {
            a[k] = self.0[at + k];
            k += 1;
        }
        assert(a@ =~= self@.subrange(at as int, at + K));
        Some(a)
    }

    /// Copies `data` into memory from `at` on.
    pub fn write_bytes<A: Address>(&mut self, data: &[u8], at: A) -> (r: Option<()>)
        requires
            0 <= at.location(),
            at.location() + data@.len() <= MEM_SIZE,
        ensures
            r == Some(()),
            final(self)@ == store(old(self)@, at.location(), data@),
    {
        let at = at.address() as usize;
        let mut k: usize = 0;
        while k < data.len()
            invariant
                k <= data@.len(),
                at + data@.len() <= MEM_SIZE,
                self@.len() == MEM_SIZE,
                forall|t: int|
                    0 <= t < MEM_SIZE ==> self@[t] == (if at <= t < at + k {
                        data@[t - at]
                    } else {
                        old(self)@[t]
                    }),
            decreases data@.len() - k,
        {
            self.0[at + k] = data[k];
            k += 1;
        }
        assert(self@ =~= store(old(self)@, at as int, data@));
        Some(())
    }

}

} // verus!
