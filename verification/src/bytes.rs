use vstd::prelude::*;

use crate::memops::{be_bytes, be_value, lemma_be_value_bound, lemma_pow256_mono, lemma_pow256_values, pow256};

verus! {

/// Something that hands out its items as a slice.
pub trait ToSlice<T> {
    /// The items, in order.
    spec fn items(&self) -> Seq<T>;

    fn to_slice(&self) -> (s: &[T])
        ensures
            s@ == self.items(),
    ;
}

impl<const K: usize> ToSlice<u8> for [u8; K] {
    open spec fn items(&self) -> Seq<u8> {
        self@
    }

    fn to_slice(&self) -> (s: &[u8]) {
        self.as_slice()
    }
}

/// A value with a fixed-width byte encoding (big-endian for integers).
pub trait ByteList<'a>: Sized {
    /// The bytes of an encoding.
    type Output: ToSlice<u8>;

    /// Number of bytes of the encoding.
    spec fn width() -> nat;

    /// Whether `from` takes a value from these bytes.
    spec fn accepts(data: Seq<u8>) -> bool;

    /// The encoding of the value.
    spec fn encoding(self) -> Seq<u8>;

    /// The value whose encoding the first bytes of `data` are, if `data` is
    /// accepted.
    fn from(data: &'a [u8]) -> (r: Option<Self>)
        ensures
            r is Some <==> Self::accepts(data@),
            r matches Some(v) ==> v.encoding() == data@.subrange(0, Self::width() as int),
    ;

    /// The encoding of the value.
    fn to_list(self) -> (l: Self::Output)
        ensures
            l.items() == self.encoding(),
    ;
}

/// Encoding a number read from big-endian bytes gives those bytes back.
pub proof fn lemma_be_bytes_of_value(bs: Seq<u8>)
    ensures
        be_bytes(be_value(bs), bs.len()) == bs,
    decreases bs.len(),
{
    if bs.len() > 0 {
        let init = bs.drop_last();
        lemma_be_bytes_of_value(init);
        let a = be_value(init);
        let b = bs.last() as nat;
        assert((a * 256 + b) / 256 == a && (a * 256 + b) % 256 == b) by (nonlinear_arith)
            requires
                b < 256,
        ;
        assert(be_bytes(be_value(bs), bs.len()) =~= init.push(bs.last()));
    }
}

/// The number spelled by the first `n` bytes of `data`.
fn be_from(data: &[u8], n: usize) -> (v: u128)
    requires
        n <= 16,
        n <= data@.len(),
    ensures
        v as nat == be_value(data@.subrange(0, n as int)),
        (v as nat) < pow256(n as nat),
{
    let mut v: u128 = 0;
    let mut k: usize = 0;
    while k < n
        invariant
            k <= n,
            n <= 16,
            n <= data@.len(),
            v as nat == be_value(data@.subrange(0, k as int)),
        decreases n - k,
    {
        proof {
            lemma_be_value_bound(data@.subrange(0, k as int));
            lemma_pow256_mono(k as nat, 15);
            lemma_pow256_values();
            assert(pow256(16) == 256 * pow256(15));
            assert(v * 256 + 255 < pow256(16)) by (nonlinear_arith)
                requires
                    v < pow256(15),
                    pow256(16) == 256 * pow256(15),
            ;
        }
        v = v * 256 + data[k] as u128;
        assert(data@.subrange(0, k + 1).drop_last() =~= data@.subrange(0, k as int));
        k += 1;
    }
    proof {
        lemma_be_value_bound(data@.subrange(0, n as int));
    }
    v
}

/// The `N` low bytes of `v`, most significant first.
fn be_to<const N: usize>(v: u128) -> (a: [u8; N])
    ensures
        a@ == be_bytes(v as nat, N as nat),
{
    let mut a = [0u8; N];
    let mut w: u128 = v;
    let mut j: usize = N;
    while j > 0
        invariant
            j <= N,
            a@.len() == N,
            be_bytes(v as nat, N as nat) =~= be_bytes(w as nat, j as nat) + a@.subrange(
                j as int,
                N as int,
            ),
        decreases j,
    {
        let ghost before = a@;
        let b = (w % 256) as u8;
        a[j - 1] = b;
        proof {
            let rest = be_bytes((w / 256) as nat, (j - 1) as nat);
            assert(be_bytes(w as nat, j as nat) == rest.push(b));
            assert(a@.subrange(j - 1, N as int) =~= seq![b] + before.subrange(j as int, N as int));
            assert(rest.push(b) + before.subrange(j as int, N as int) =~= rest + a@.subrange(
                j - 1,
                N as int,
            ));
        }
        w = w / 256;
        j -= 1;
    }
    assert(a@ =~= be_bytes(v as nat, N as nat));
    a
}

impl<'a> ByteList<'a> for u8 {
    type Output = [u8; 1];

    open spec fn width() -> nat {
        1
    }

    open spec fn accepts(data: Seq<u8>) -> bool {
        data.len() >= 1
    }

    open spec fn encoding(self) -> Seq<u8> {
        be_bytes(self as nat, 1)
    }

    fn from(data: &'a [u8]) -> (r: Option<Self>) {
        if data.len() < 1 {
            return None;
        }
        let v = be_from(data, 1);
        proof {
            lemma_pow256_values();
            lemma_be_bytes_of_value(data@.subrange(0, 1));
        }
        Some(v as u8)
    }

    fn to_list(self) -> (l: [u8; 1]) {
        be_to::<1>(self as u128)
    }
}

impl<'a> ByteList<'a> for u16 {
    type Output = [u8; 2];

    open spec fn width() -> nat {
        2
    }

    open spec fn accepts(data: Seq<u8>) -> bool {
        data.len() >= 2
    }

    open spec fn encoding(self) -> Seq<u8> {
        be_bytes(self as nat, 2)
    }

    fn from(data: &'a [u8]) -> (r: Option<Self>) {
        if data.len() < 2 {
            return None;
        }
        let v = be_from(data, 2);
        proof {
            lemma_pow256_values();
            lemma_be_bytes_of_value(data@.subrange(0, 2));
        }
        Some(v as u16)
    }

    fn to_list(self) -> (l: [u8; 2]) {
        be_to::<2>(self as u128)
    }
}

impl<'a> ByteList<'a> for u32 {
    type Output = [u8; 4];

    open spec fn width() -> nat {
        4
    }

    open spec fn accepts(data: Seq<u8>) -> bool {
        data.len() >= 4
    }

    open spec fn encoding(self) -> Seq<u8> {
        be_bytes(self as nat, 4)
    }

    fn from(data: &'a [u8]) -> (r: Option<Self>) {
        if data.len() < 4 {
            return None;
        }
        let v = be_from(data, 4);
        proof {
            lemma_pow256_values();
            lemma_be_bytes_of_value(data@.subrange(0, 4));
        }
        Some(v as u32)
    }

    fn to_list(self) -> (l: [u8; 4]) {
        be_to::<4>(self as u128)
    }
}

impl<'a> ByteList<'a> for u64 {
    type Output = [u8; 8];

    open spec fn width() -> nat {
        8
    }

    open spec fn accepts(data: Seq<u8>) -> bool {
        data.len() >= 8
    }

    open spec fn encoding(self) -> Seq<u8> {
        be_bytes(self as nat, 8)
    }

    fn from(data: &'a [u8]) -> (r: Option<Self>) {
        if data.len() < 8 {
            return None;
        }
        let v = be_from(data, 8);
        proof {
            lemma_pow256_values();
            lemma_be_bytes_of_value(data@.subrange(0, 8));
        }
        Some(v as u64)
    }

    fn to_list(self) -> (l: [u8; 8]) {
        be_to::<8>(self as u128)
    }
}

impl<'a> ByteList<'a> for u128 {
    type Output = [u8; 16];

    open spec fn width() -> nat {
        16
    }

    open spec fn accepts(data: Seq<u8>) -> bool {
        data.len() >= 16
    }

    open spec fn encoding(self) -> Seq<u8> {
        be_bytes(self as nat, 16)
    }

    fn from(data: &'a [u8]) -> (r: Option<Self>) {
        if data.len() < 16 {
            return None;
        }
        let v = be_from(data, 16);
        proof {
            lemma_be_bytes_of_value(data@.subrange(0, 16));
        }
        Some(v)
    }

    fn to_list(self) -> (l: [u8; 16]) {
        be_to::<16>(self)
    }
}

impl<'a, const K: usize> ByteList<'a> for [u8; K] {
    type Output = [u8; K];

    open spec fn width() -> nat {
        K as nat
    }

    open spec fn accepts(data: Seq<u8>) -> bool {
        data.len() == K
    }

    open spec fn encoding(self) -> Seq<u8> {
        self@
    }

    fn from(data: &'a [u8]) -> (r: Option<Self>) {
        if data.len() != K {
            return None;
        }
        let mut a = [0u8; K];
        let mut k: usize = 0;
        while k < K
            invariant
                k <= K,
                data@.len() == K,
                a@.len() == K,
                forall|j: int| 0 <= j < k ==> a@[j] == data@[j],
            decreases K - k,
        {
            a[k] = data[k];
            k += 1;
        }
        assert(a@ =~= data@.subrange(0, K as int));
        Some(a)
    }

    fn to_list(self) -> (l: [u8; K]) {
        self
    }
}

} // verus!
