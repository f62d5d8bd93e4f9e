//! Plain-data values that can be packed into a byte buffer and read back.
use vstd::prelude::*;

verus! {

/// `256` raised to `n`: one more than the largest number `n` bytes hold.
pub open spec fn byte_bound(n: nat) -> nat
    decreases n,
{
    if n == 0 {
        1
    } else {
        256 * byte_bound((n - 1) as nat)
    }
}

/// The `n` lowest bytes of `v`, least significant first.
pub open spec fn le_bytes(v: nat, n: nat) -> Seq<u8>
    decreases n,
{
    if n == 0 {
        Seq::empty()
    } else {
        seq![(v % 256) as u8] + le_bytes(v / 256, (n - 1) as nat)
    }
}

/// The number whose bytes, least significant first, are `b`.
pub open spec fn le_value(b: Seq<u8>) -> nat
    decreases b.len(),
{
    if b.len() == 0 {
        0
    } else {
        b[0] as nat + 256 * le_value(b.drop_first())
    }
}

/// Writing a number that fits in `n` bytes and reading it back gives the number.
pub proof fn lemma_le_round_trip(v: nat, n: nat)
    requires
        v < byte_bound(n),
    ensures
        le_bytes(v, n).len() == n,
        le_value(le_bytes(v, n)) == v,
    decreases n,
{
    if n > 0 {
        let m = (n - 1) as nat;
        let bb = byte_bound(m);
        assert(v / 256 < bb) by (nonlinear_arith)
            requires
                v < 256 * bb,
        ;
        lemma_le_round_trip(v / 256, m);
        let b = le_bytes(v, n);
        assert(b.drop_first() =~= le_bytes(v / 256, m));
        assert(v == (v % 256) + 256 * (v / 256)) by (nonlinear_arith);
    }
}

proof fn lemma_byte_bound_mono(a: nat, b: nat)
    requires
        a <= b,
    ensures
        byte_bound(a) <= byte_bound(b),
    decreases b,
{
    if a < b {
        lemma_byte_bound_mono(a, (b - 1) as nat);
    }
}

proof fn lemma_byte_bound_8()
    ensures
        byte_bound(8) == 0x1_0000_0000_0000_0000,
        byte_bound(4) == 0x1_0000_0000,
        byte_bound(2) == 0x1_0000,
        byte_bound(1) == 0x100,
{
    reveal_with_fuel(byte_bound, 9);
}

/// The `n` lowest bytes of `v`, least significant first.
fn write_le(v: u64, n: usize) -> (r: Vec<u8>)
    ensures
        r@ == le_bytes(v as nat, n as nat),
{
    let mut out: Vec<u8> = Vec::new();
    let mut rest: u64 = v;
    let mut i: usize = 0;
    while i < n
        invariant
            i <= n,
            out@ + le_bytes(rest as nat, (n - i) as nat) == le_bytes(v as nat, n as nat),
        decreases n - i,
    {
        let ghost tail = le_bytes(rest as nat, (n - i) as nat);
        let ghost next = le_bytes((rest / 256) as nat, (n - i - 1) as nat);
        assert(tail == seq![(rest % 256) as u8] + next);
        out.push((rest % 256) as u8);
        assert(out@ + next =~= out@.drop_last() + tail);
        rest = rest / 256;
        i = i + 1;
    }
    assert(out@ + le_bytes(rest as nat, 0) =~= out@);
    out
}

/// The number stored least significant byte first in `data[start..start + n]`.
fn read_le(data: &Vec<u8>, start: usize, n: usize) -> (r: u64)
    requires
        start + n <= data@.len(),
        n <= 8,
    ensures
        r as nat == le_value(data@.subrange(start as int, start + n)),
{
    let mut acc: u64 = 0;
    let mut i: usize = n;
    let len: usize = data.len();
    proof {
        lemma_byte_bound_8();
    }
    while i > 0
        invariant
            i <= n <= 8,
            start + n <= data@.len() == len,
            acc as nat == le_value(data@.subrange(start + i, start + n)),
            acc < byte_bound((n - i) as nat),
        decreases i,
    {
        i = i - 1;
        let ghost m = (n - i) as nat;
        let ghost b = data@.subrange(start + i, start + n);
        assert(b.drop_first() =~= data@.subrange(start + i + 1, start + n));
        let d = data[start + i];
        let ghost bb = byte_bound((m - 1) as nat);
        proof {
            lemma_byte_bound_mono(m, 8);
            lemma_byte_bound_8();
            assert(acc * 256 + d < 256 * bb) by (nonlinear_arith)
                requires
                    acc < bb,
                    d < 256,
            ;
        }
        acc = acc * 256 + d as u64;
    }
    acc
}

/// A plain-data type whose values are stored as a fixed number of bytes.
pub trait Element: Sized {
    /// Number of bytes that one value takes.
    spec fn width() -> nat;

    /// The bytes that stand for `v`.
    spec fn bytes_of(v: Self) -> Seq<u8>;

    /// The value that `b` stands for.
    spec fn from_bytes(b: Seq<u8>) -> Self;

    /// Every value takes exactly `width()` bytes and reads back unchanged.
    proof fn lemma_round_trip(v: Self)
        ensures
            Self::bytes_of(v).len() == Self::width(),
            Self::from_bytes(Self::bytes_of(v)) == v,
    ;

    /// Number of bytes that one value takes.
    fn size() -> (r: usize)
        ensures
            r as nat == Self::width(),
    ;

    /// The bytes that stand for this value.
    fn encode(&self) -> (r: Vec<u8>)
        ensures
            r@ == Self::bytes_of(*self),
    ;

    /// The value stored at `data[start..start + width()]`.
    fn decode(data: &Vec<u8>, start: usize) -> (r: Self)
        requires
            start + Self::width() <= data@.len(),
        ensures
            r == Self::from_bytes(data@.subrange(start as int, start + Self::width())),
    ;
}

impl Element for u8 {
    open spec fn width() -> nat {
        1
    }

    open spec fn bytes_of(v: u8) -> Seq<u8> {
        le_bytes(v as nat, 1)
    }

    open spec fn from_bytes(b: Seq<u8>) -> u8 {
        le_value(b) as u8
    }

    proof fn lemma_round_trip(v: u8) {
        lemma_byte_bound_8();
        lemma_le_round_trip(v as nat, 1);
    }

    fn size() -> (r: usize) {
        1
    }

    fn encode(&self) -> (r: Vec<u8>) {
        write_le(*self as u64, 1)
    }

    fn decode(data: &Vec<u8>, start: usize) -> (r: u8) {
        read_le(data, start, 1) as u8
    }
}

impl Element for u16 {
    open spec fn width() -> nat {
        2
    }

    open spec fn bytes_of(v: u16) -> Seq<u8> {
        le_bytes(v as nat, 2)
    }

    open spec fn from_bytes(b: Seq<u8>) -> u16 {
        le_value(b) as u16
    }

    proof fn lemma_round_trip(v: u16) {
        lemma_byte_bound_8();
        lemma_le_round_trip(v as nat, 2);
    }

    fn size() -> (r: usize) {
        2
    }

    fn encode(&self) -> (r: Vec<u8>) {
        write_le(*self as u64, 2)
    }

    fn decode(data: &Vec<u8>, start: usize) -> (r: u16) {
        read_le(data, start, 2) as u16
    }
}

impl Element for u32 {
    open spec fn width() -> nat {
        4
    }

    open spec fn bytes_of(v: u32) -> Seq<u8> {
        le_bytes(v as nat, 4)
    }

    open spec fn from_bytes(b: Seq<u8>) -> u32 {
        le_value(b) as u32
    }

    proof fn lemma_round_trip(v: u32) {
        lemma_byte_bound_8();
        lemma_le_round_trip(v as nat, 4);
    }

    fn size() -> (r: usize) {
        4
    }

    fn encode(&self) -> (r: Vec<u8>) {
        write_le(*self as u64, 4)
    }

    fn decode(data: &Vec<u8>, start: usize) -> (r: u32) {
        read_le(data, start, 4) as u32
    }
}

impl Element for u64 {
    open spec fn width() -> nat {
        8
    }

    open spec fn bytes_of(v: u64) -> Seq<u8> {
        le_bytes(v as nat, 8)
    }

    open spec fn from_bytes(b: Seq<u8>) -> u64 {
        le_value(b) as u64
    }

    proof fn lemma_round_trip(v: u64) {
        lemma_byte_bound_8();
        lemma_le_round_trip(v as nat, 8);
    }

    fn size() -> (r: usize) {
        8
    }

    fn encode(&self) -> (r: Vec<u8>) {
        write_le(*self as u64, 8)
    }

    fn decode(data: &Vec<u8>, start: usize) -> (r: u64) {
        read_le(data, start, 8) as u64
    }
}

/// Stored as the bytes of the unsigned number with the same bits.
impl Element for i8 {
    open spec fn width() -> nat {
        1
    }

    open spec fn bytes_of(v: i8) -> Seq<u8> {
        le_bytes((v as u8) as nat, 1)
    }

    open spec fn from_bytes(b: Seq<u8>) -> i8 {
        (le_value(b) as u8) as i8
    }

    proof fn lemma_round_trip(v: i8) {
        lemma_byte_bound_8();
        lemma_le_round_trip((v as u8) as nat, 1);
        assert((v as u8) as i8 == v) by (bit_vector);
    }

    fn size() -> (r: usize) {
        1
    }

    fn encode(&self) -> (r: Vec<u8>) {
        write_le((*self as u8) as u64, 1)
    }

    fn decode(data: &Vec<u8>, start: usize) -> (r: i8) {
        (read_le(data, start, 1) as u8) as i8
    }
}

/// Stored as the bytes of the unsigned number with the same bits.
impl Element for i16 {
    open spec fn width() -> nat {
        2
    }

    open spec fn bytes_of(v: i16) -> Seq<u8> {
        le_bytes((v as u16) as nat, 2)
    }

    open spec fn from_bytes(b: Seq<u8>) -> i16 {
        (le_value(b) as u16) as i16
    }

    proof fn lemma_round_trip(v: i16) {
        lemma_byte_bound_8();
        lemma_le_round_trip((v as u16) as nat, 2);
        assert((v as u16) as i16 == v) by (bit_vector);
    }

    fn size() -> (r: usize) {
        2
    }

    fn encode(&self) -> (r: Vec<u8>) {
        write_le((*self as u16) as u64, 2)
    }

    fn decode(data: &Vec<u8>, start: usize) -> (r: i16) {
        (read_le(data, start, 2) as u16) as i16
    }
}

/// Stored as the bytes of the unsigned number with the same bits.
impl Element for i32 {
    open spec fn width() -> nat {
        4
    }

    open spec fn bytes_of(v: i32) -> Seq<u8> {
        le_bytes((v as u32) as nat, 4)
    }

    open spec fn from_bytes(b: Seq<u8>) -> i32 {
        (le_value(b) as u32) as i32
    }

    proof fn lemma_round_trip(v: i32) {
        lemma_byte_bound_8();
        lemma_le_round_trip((v as u32) as nat, 4);
        assert((v as u32) as i32 == v) by (bit_vector);
    }

    fn size() -> (r: usize) {
        4
    }

    fn encode(&self) -> (r: Vec<u8>) {
        write_le((*self as u32) as u64, 4)
    }

    fn decode(data: &Vec<u8>, start: usize) -> (r: i32) {
        (read_le(data, start, 4) as u32) as i32
    }
}

/// Stored as the bytes of the unsigned number with the same bits.
impl Element for i64 {
    open spec fn width() -> nat {
        8
    }

    open spec fn bytes_of(v: i64) -> Seq<u8> {
        le_bytes((v as u64) as nat, 8)
    }

    open spec fn from_bytes(b: Seq<u8>) -> i64 {
        (le_value(b) as u64) as i64
    }

    proof fn lemma_round_trip(v: i64) {
        lemma_byte_bound_8();
        lemma_le_round_trip((v as u64) as nat, 8);
        assert((v as u64) as i64 == v) by (bit_vector);
    }

    fn size() -> (r: usize) {
        8
    }

    fn encode(&self) -> (r: Vec<u8>) {
        write_le((*self as u64) as u64, 8)
    }

    fn decode(data: &Vec<u8>, start: usize) -> (r: i64) {
        (read_le(data, start, 8) as u64) as i64
    }
}

/// Stored as one byte, `1` for true and `0` for false; any nonzero byte reads as true.
impl Element for bool {
    open spec fn width() -> nat {
        1
    }

    open spec fn bytes_of(v: bool) -> Seq<u8> {
        seq![if v { 1u8 } else { 0u8 }]
    }

    open spec fn from_bytes(b: Seq<u8>) -> bool {
        b[0] != 0
    }

    proof fn lemma_round_trip(v: bool) {
    }

    fn size() -> (r: usize) {
        1
    }

    fn encode(&self) -> (r: Vec<u8>) {
        let mut out: Vec<u8> = Vec::new();
        out.push(if *self { 1u8 } else { 0u8 });
        assert(out@ =~= Self::bytes_of(*self));
        out
    }

    fn decode(data: &Vec<u8>, start: usize) -> (r: bool) {
        data[start] != 0
    }
}

} // verus!
