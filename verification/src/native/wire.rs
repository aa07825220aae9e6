//! Numbers and strings as they travel on the wire: fixed-width little-endian
//! integers, variable-length integers and length-prefixed strings.
use vstd::prelude::*;
use vstd::utf8::*;

use crate::text::string_from_utf8;

verus! {

/// The longest string that is read off the wire.
pub const MAX_STRING_SIZE: u64 = 1073741824;

/// `256` to the power of `n`.
pub open spec fn pow256(n: nat) -> nat
    decreases n,
{
    if n == 0 {
        1
    } else {
        256 * pow256((n - 1) as nat)
    }
}

/// The number whose little-endian digits in base 256 are the given bytes.
pub open spec fn le_nat(s: Seq<u8>) -> nat
    decreases s.len(),
{
    if s.len() == 0 {
        0
    } else {
        s[0] as nat + 256 * le_nat(s.skip(1))
    }
}

/// A number as `width` little-endian bytes.
pub open spec fn le_bytes(n: nat, width: nat) -> Seq<u8>
    decreases width,
{
    if width == 0 {
        Seq::empty()
    } else {
        seq![(n % 256) as u8] + le_bytes(n / 256, (width - 1) as nat)
    }
}

/// Two's complement: the number that `v` stands for in `width` bytes, with or without a sign.
pub open spec fn with_sign(v: nat, width: nat, signed: bool) -> int {
    if signed && 2 * v >= pow256(width) {
        v - pow256(width)
    } else {
        v as int
    }
}

/// The inverse of `with_sign`.
pub open spec fn without_sign(v: int, width: nat) -> nat {
    if v < 0 {
        (v + pow256(width)) as nat
    } else {
        v as nat
    }
}

/// A number lies in the range of a two's complement integer of `width` bytes.
pub open spec fn fits(v: int, width: nat, signed: bool) -> bool {
    if signed {
        -pow256(width) <= 2 * v < pow256(width)
    } else {
        0 <= v < pow256(width)
    }
}

/// Little-endian bytes stay below the power of 256 that their count gives.
pub proof fn lemma_le_nat_bound(s: Seq<u8>)
    ensures
        le_nat(s) < pow256(s.len()),
    decreases s.len(),
{
    if s.len() > 0 {
        lemma_le_nat_bound(s.skip(1));
    }
}

/// Writing a number in little-endian bytes and reading them gives the number back.
pub proof fn le_bytes_read_back(n: nat, width: nat)
    requires
        n < pow256(width),
    ensures
        le_bytes(n, width).len() == width,
        le_nat(le_bytes(n, width)) == n,
    decreases width,
{
    if width > 0 {
        assert(n / 256 < pow256((width - 1) as nat));
        le_bytes_read_back(n / 256, (width - 1) as nat);
        let s = le_bytes(n, width);
        assert(s.skip(1) =~= le_bytes(n / 256, (width - 1) as nat));
        assert(s[0] == (n % 256) as u8);
    }
}

/// Reading little-endian bytes and writing the number gives the bytes back.
pub proof fn le_nat_writes_back(s: Seq<u8>)
    ensures
        le_bytes(le_nat(s), s.len()) == s,
    decreases s.len(),
{
    if s.len() > 0 {
        le_nat_writes_back(s.skip(1));
        let n = le_nat(s);
        assert(n % 256 == s[0] as nat && n / 256 == le_nat(s.skip(1)));
        assert(le_bytes(n, s.len()) =~= seq![s[0]] + s.skip(1));
        assert(seq![s[0]] + s.skip(1) =~= s);
    } else {
        assert(le_bytes(0, 0) =~= s);
    }
}

/// The first byte of a little-endian number is its least significant one, and a further byte at the
/// end counts 256 times as much as one before it would.
pub proof fn first_bytes_count_least(s: Seq<u8>, b: u8)
    ensures
        le_nat(seq![b]) == b,
        le_nat(seq![b] + s) == b + 256 * le_nat(s),
        le_nat(s.push(b)) == le_nat(s) + b * pow256(s.len()),
    decreases s.len(),
{
    reveal_with_fuel(le_nat, 2);
    assert((seq![b] + s).skip(1) =~= s);
    assert(seq![b].skip(1) =~= Seq::empty());
    if s.len() == 0 {
        assert(s.push(b) =~= seq![b]);
        assert(b * pow256(0) == b) by (nonlinear_arith)
            requires
                pow256(0) == 1,
        ;
    } else {
        first_bytes_count_least(s.skip(1), b);
        assert(s.push(b).skip(1) =~= s.skip(1).push(b));
        let p = pow256((s.len() - 1) as nat);
        assert(256 * (b * p) == b * (256 * p)) by (nonlinear_arith);
    }
}

/// A signed number of some width is the unsigned one with the same bytes, less the whole range where
/// it is negative; it lies in the range of its width, half below zero.
pub proof fn signs_keep_the_bytes(v: nat, width: nat)
    requires
        v < pow256(width),
        width > 0,
    ensures
        with_sign(v, width, false) == v,
        with_sign(v, width, true) == v || with_sign(v, width, true) == v - pow256(width),
        with_sign(v, width, true) < 0 <==> 2 * v >= pow256(width),
        -pow256(width) <= 2 * with_sign(v, width, true) < pow256(width),
        without_sign(with_sign(v, width, true), width) == v,
        without_sign(with_sign(v, width, false), width) == v,
        fits(with_sign(v, width, true), width, true),
        fits(with_sign(v, width, false), width, false),
{
}

/// The powers of 256 for the widths that scalars have.
pub proof fn lemma_pow256_values()
    ensures
        pow256(0) == 1,
        pow256(1) == 0x100,
        pow256(2) == 0x1_0000,
        pow256(4) == 0x1_0000_0000,
        pow256(8) == 0x1_0000_0000_0000_0000,
        pow256(15) == 0x1_0000_0000_0000_0000_0000_0000_0000_00,
        pow256(16) == 0x1_0000_0000_0000_0000_0000_0000_0000_0000,
{
    reveal_with_fuel(pow256, 17);
}

/// A wider field holds larger numbers.
pub proof fn lemma_pow256_monotone(a: nat, b: nat)
    requires
        a <= b,
    ensures
        pow256(a) <= pow256(b),
        0 < pow256(a),
    decreases b,
{
    if a < b {
        lemma_pow256_monotone(a, (b - 1) as nat);
    } else if b > 0 {
        lemma_pow256_monotone((a - 1) as nat, (b - 1) as nat);
    }
}

/// Reads `width` bytes at `pos` as a little-endian number.
pub fn read_le(bytes: &[u8], pos: usize, width: usize) -> (r: u128)
    requires
        pos + width <= bytes@.len(),
        width <= 16,
    ensures
        r == le_nat(bytes@.subrange(pos as int, pos + width)),
        r < pow256(width as nat),
{
    let ghost s = bytes@.subrange(pos as int, pos + width);
    let len: usize = bytes.len();
    let mut acc: u128 = 0;
    let mut i: usize = width;
    proof {
        assert(s.skip(width as int) =~= Seq::<u8>::empty());
    }
    while i > 0
        invariant
            i <= width <= 16,
            pos + width <= bytes@.len() == len,
            s == bytes@.subrange(pos as int, pos + width),
            acc == le_nat(s.skip(i as int)),
        decreases i,
    {
        i -= 1;
        proof {
            assert(s.skip(i as int).skip(1) =~= s.skip(i + 1));
            lemma_le_nat_bound(s.skip(i + 1));
            lemma_pow256_monotone((width - i - 1) as nat, 15);
            lemma_pow256_values();
        }
        acc = acc * 256 + bytes[pos + i] as u128;
    }
    proof {
        assert(s.skip(0) =~= s);
        lemma_le_nat_bound(s);
    }
    acc
}

/// A fixed-width integer that is stored in little-endian order.
pub trait LeScalar: Sized + Copy {
    /// The number of bytes that one value takes.
    spec fn spec_width() -> nat;

    /// Whether the type holds negative numbers.
    spec fn spec_signed() -> bool;

    /// The number that a value stands for.
    spec fn value(self) -> int;

    fn width() -> (r: usize)
        ensures
            r == Self::spec_width(),
            0 < r <= 16,
    ;

    fn from_le_slice(bytes: &[u8], pos: usize) -> (r: Self)
        requires
            pos + Self::spec_width() <= bytes@.len(),
        ensures
            r.value() == with_sign(
                le_nat(bytes@.subrange(pos as int, pos + Self::spec_width())),
                Self::spec_width(),
                Self::spec_signed(),
            ),
    ;
}

impl LeScalar for u8 {
    open spec fn spec_width() -> nat {
        1
    }

    open spec fn spec_signed() -> bool {
        false
    }

    open spec fn value(self) -> int {
        self as int
    }

    fn width() -> (r: usize) {
        1
    }

    fn from_le_slice(bytes: &[u8], pos: usize) -> (r: Self) {
        proof {
            lemma_pow256_values();
        }
        read_le(bytes, pos, 1) as u8
    }
}

impl LeScalar for i8 {
    open spec fn spec_width() -> nat {
        1
    }

    open spec fn spec_signed() -> bool {
        true
    }

    open spec fn value(self) -> int {
        self as int
    }

    fn width() -> (r: usize) {
        1
    }

    fn from_le_slice(bytes: &[u8], pos: usize) -> (r: Self) {
        proof {
            lemma_pow256_values();
        }
        let u: u8 = read_le(bytes, pos, 1) as u8;
        assert(u as i8 == if u < 0x80 { u as int } else { u - 0x100 }) by (bit_vector);
        u as i8
    }
}

impl LeScalar for u16 {
    open spec fn spec_width() -> nat {
        2
    }

    open spec fn spec_signed() -> bool {
        false
    }

    open spec fn value(self) -> int {
        self as int
    }

    fn width() -> (r: usize) {
        2
    }

    fn from_le_slice(bytes: &[u8], pos: usize) -> (r: Self) {
        proof {
            lemma_pow256_values();
        }
        read_le(bytes, pos, 2) as u16
    }
}

impl LeScalar for i16 {
    open spec fn spec_width() -> nat {
        2
    }

    open spec fn spec_signed() -> bool {
        true
    }

    open spec fn value(self) -> int {
        self as int
    }

    fn width() -> (r: usize) {
        2
    }

    fn from_le_slice(bytes: &[u8], pos: usize) -> (r: Self) {
        proof {
            lemma_pow256_values();
        }
        let u: u16 = read_le(bytes, pos, 2) as u16;
        assert(u as i16 == if u < 0x8000 { u as int } else { u - 0x1_0000 }) by (bit_vector);
        u as i16
    }
}

impl LeScalar for u32 {
    open spec fn spec_width() -> nat {
        4
    }

    open spec fn spec_signed() -> bool {
        false
    }

    open spec fn value(self) -> int {
        self as int
    }

    fn width() -> (r: usize) {
        4
    }

    fn from_le_slice(bytes: &[u8], pos: usize) -> (r: Self) {
        proof {
            lemma_pow256_values();
        }
        read_le(bytes, pos, 4) as u32
    }
}

impl LeScalar for i32 {
    open spec fn spec_width() -> nat {
        4
    }

    open spec fn spec_signed() -> bool {
        true
    }

    open spec fn value(self) -> int {
        self as int
    }

    fn width() -> (r: usize) {
        4
    }

    fn from_le_slice(bytes: &[u8], pos: usize) -> (r: Self) {
        proof {
            lemma_pow256_values();
        }
        let u: u32 = read_le(bytes, pos, 4) as u32;
        assert(u as i32 == if u < 0x8000_0000 { u as int } else { u - 0x1_0000_0000 }) by (bit_vector);
        u as i32
    }
}

impl LeScalar for u64 {
    open spec fn spec_width() -> nat {
        8
    }

    open spec fn spec_signed() -> bool {
        false
    }

    open spec fn value(self) -> int {
        self as int
    }

    fn width() -> (r: usize) {
        8
    }

    fn from_le_slice(bytes: &[u8], pos: usize) -> (r: Self) {
        proof {
            lemma_pow256_values();
        }
        read_le(bytes, pos, 8) as u64
    }
}

impl LeScalar for i64 {
    open spec fn spec_width() -> nat {
        8
    }

    open spec fn spec_signed() -> bool {
        true
    }

    open spec fn value(self) -> int {
        self as int
    }

    fn width() -> (r: usize) {
        8
    }

    fn from_le_slice(bytes: &[u8], pos: usize) -> (r: Self) {
        proof {
            lemma_pow256_values();
        }
        let u: u64 = read_le(bytes, pos, 8) as u64;
        assert(u as i64 == if u < 0x8000_0000_0000_0000 {
            u as int
        } else {
            u - 0x1_0000_0000_0000_0000
        }) by (bit_vector);
        u as i64
    }
}

impl LeScalar for u128 {
    open spec fn spec_width() -> nat {
        16
    }

    open spec fn spec_signed() -> bool {
        false
    }

    open spec fn value(self) -> int {
        self as int
    }

    fn width() -> (r: usize) {
        16
    }

    fn from_le_slice(bytes: &[u8], pos: usize) -> (r: Self) {
        read_le(bytes, pos, 16)
    }
}

impl LeScalar for i128 {
    open spec fn spec_width() -> nat {
        16
    }

    open spec fn spec_signed() -> bool {
        true
    }

    open spec fn value(self) -> int {
        self as int
    }

    fn width() -> (r: usize) {
        16
    }

    fn from_le_slice(bytes: &[u8], pos: usize) -> (r: Self) {
        proof {
            lemma_pow256_values();
        }
        let u: u128 = read_le(bytes, pos, 16);
        assert(u as i128 == if u < 0x8000_0000_0000_0000_0000_0000_0000_0000 {
            u as int
        } else {
            u - 0x1_0000_0000_0000_0000_0000_0000_0000_0000
        }) by (bit_vector);
        u as i128
    }
}

/// Why bytes could not be read as a variable-length integer or a string.
#[derive(Debug)]
pub enum WireError {
    /// The bytes end before the value does.
    Truncated,
    /// A variable-length integer exceeds 64 bits.
    VarUintOverflow,
    /// A string is announced as longer than `MAX_STRING_SIZE`.
    StringTooLong(u64),
    /// A string that has to be UTF-8 is not.
    NotUtf8,
}

/// A variable-length integer whose digit number `k` comes first: seven bits per byte,
/// least significant first, the top bit set on all bytes but the last. The tenth byte
/// holds the one bit that is left of 64.
pub open spec fn varuint_digits(s: Seq<u8>, k: nat) -> Result<(nat, nat), WireError>
    decreases 10 - k,
{
    if s.len() == 0 {
        Err(WireError::Truncated)
    } else if k >= 9 {
        if s[0] <= 1 {
            Ok((s[0] as nat, 1))
        } else {
            Err(WireError::VarUintOverflow)
        }
    } else if s[0] < 128 {
        Ok((s[0] as nat, 1))
    } else {
        match varuint_digits(s.skip(1), k + 1) {
            Ok((v, used)) => Ok(((s[0] - 128 + 128 * v) as nat, used + 1)),
            Err(e) => Err(e),
        }
    }
}

/// The variable-length integer at the start of the bytes, and how many bytes it takes.
pub open spec fn varuint(s: Seq<u8>) -> Result<(nat, nat), WireError> {
    varuint_digits(s, 0)
}

/// A number as a variable-length integer.
pub open spec fn varuint_bytes(n: nat) -> Seq<u8>
    decreases n,
{
    if n < 128 {
        seq![n as u8]
    } else {
        seq![(128 + n % 128) as u8] + varuint_bytes(n / 128)
    }
}

/// A variable-length integer takes a byte for every seven bits, the lowest first; the top bit of a byte
/// says that more follow.
pub proof fn numbers_take_seven_bits_per_byte(n: nat)
    ensures
        n < 128 ==> varuint_bytes(n) == seq![n as u8],
        n >= 128 ==> varuint_bytes(n).len() == 1 + varuint_bytes(n / 128).len(),
        varuint_bytes(n)[0] % 128 == n % 128,
        varuint_bytes(n)[0] >= 128 <==> n >= 128,
        varuint_bytes(n).len() > 0,
        varuint_bytes(n).last() < 128,
    decreases n,
{
    if n >= 128 {
        numbers_take_seven_bits_per_byte(n / 128);
    }
}

/// The bound on what the digits from number `k` on can hold.
pub open spec fn varuint_bound(k: nat) -> nat
    decreases 10 - k,
{
    if k >= 9 {
        2
    } else {
        128 * varuint_bound(k + 1)
    }
}

/// A variable-length integer fits in 64 bits.
pub proof fn lemma_varuint_bound(s: Seq<u8>, k: nat)
    requires
        k <= 9,
    ensures
        varuint_digits(s, k) matches Ok((v, used)) ==> v < varuint_bound(k) && 1 <= used
            <= s.len() && used <= 10 - k,
        128 <= varuint_bound(k) || k == 9,
        varuint_bound(0) == 0x1_0000_0000_0000_0000,
    decreases 10 - k,
{
    reveal_with_fuel(varuint_bound, 11);
    if k < 9 {
        lemma_varuint_bound(s.skip(1), k + 1);
    }
}

/// What follows a variable-length integer does not matter to reading it.
pub proof fn lemma_varuint_extends(s: Seq<u8>, rest: Seq<u8>, k: nat)
    requires
        k <= 9,
        varuint_digits(s, k) != Err::<(nat, nat), WireError>(WireError::Truncated),
    ensures
        varuint_digits(s + rest, k) == varuint_digits(s, k),
    decreases 10 - k,
{
    if s.len() > 0 && k < 9 && s[0] >= 128 {
        assert((s + rest).skip(1) =~= s.skip(1) + rest);
        lemma_varuint_extends(s.skip(1), rest, k + 1);
    }
}

proof fn lemma_varuint_digits_read_back(n: nat, rest: Seq<u8>, k: nat)
    requires
        k <= 9,
        n < varuint_bound(k),
    ensures
        varuint_digits(varuint_bytes(n) + rest, k) == Ok::<(nat, nat), WireError>(
            (n, varuint_bytes(n).len()),
        ),
    decreases 10 - k,
{
    let s = varuint_bytes(n) + rest;
    reveal_with_fuel(varuint_bound, 2);
    if n >= 128 {
        assert(n / 128 < varuint_bound(k + 1));
        lemma_varuint_digits_read_back(n / 128, rest, k + 1);
        assert(s.skip(1) =~= varuint_bytes(n / 128) + rest);
        assert(s[0] == (128 + n % 128) as u8);
    } else {
        assert(s[0] == n as u8);
    }
}

/// Writing a 64-bit number as a variable-length integer and reading it gives the number
/// back, whatever follows.
pub proof fn varuint_reads_back(n: nat, rest: Seq<u8>)
    requires
        n <= u64::MAX,
    ensures
        varuint(varuint_bytes(n) + rest) == Ok::<(nat, nat), WireError>(
            (n, varuint_bytes(n).len()),
        ),
{
    lemma_varuint_bound(Seq::empty(), 0);
    lemma_varuint_digits_read_back(n, rest, 0);
}

fn read_varuint_digits(bytes: &[u8], pos: usize, k: u8) -> (r: Result<(u64, usize), WireError>)
    requires
        pos <= bytes@.len(),
        k <= 9,
    ensures
        (match r {
            Ok((v, next)) => pos < next <= bytes@.len() && varuint_digits(
                bytes@.skip(pos as int),
                k as nat,
            ) == Ok::<(nat, nat), WireError>((v as nat, (next - pos) as nat)),
            Err(e) => varuint_digits(bytes@.skip(pos as int), k as nat) == Err::<
                (nat, nat),
                WireError,
            >(e),
        }),
    decreases 10 - k,
{
    if pos >= bytes.len() {
        return Err(WireError::Truncated);
    }
    let b: u8 = bytes[pos];
    let ghost s = bytes@.skip(pos as int);
    proof {
        assert(s[0] == b);
    }
    if k == 9 {
        if b <= 1 {
            return Ok((b as u64, pos + 1));
        }
        return Err(WireError::VarUintOverflow);
    }
    if b < 128 {
        return Ok((b as u64, pos + 1));
    }
    proof {
        assert(s.skip(1) =~= bytes@.skip(pos + 1));
        lemma_varuint_bound(s, k as nat);
        lemma_varuint_bound(s.skip(1), (k + 1) as nat);
        lemma_varuint_bound_le(k as nat);
    }
    match read_varuint_digits(bytes, pos + 1, k + 1) {
        Ok((v, next)) => Ok(((b - 128) as u64 + 128 * v, next)),
        Err(e) => Err(e),
    }
}

proof fn lemma_varuint_bound_le(k: nat)
    requires
        k <= 9,
    ensures
        varuint_bound(k) <= varuint_bound(0),
    decreases k,
{
    if k > 0 {
        lemma_varuint_bound_le((k - 1) as nat);
    }
}

/// Reads a variable-length integer at `pos`; gives it with the position behind it.
pub fn read_var_uint(bytes: &[u8], pos: usize) -> (r: Result<(u64, usize), WireError>)
    requires
        pos <= bytes@.len(),
    ensures
        (match r {
            Ok((v, next)) => pos < next <= bytes@.len() && varuint(bytes@.skip(pos as int)) == Ok::<
                (nat, nat),
                WireError,
            >((v as nat, (next - pos) as nat)),
            Err(e) => varuint(bytes@.skip(pos as int)) == Err::<(nat, nat), WireError>(e),
        }),
{
    read_varuint_digits(bytes, pos, 0)
}

/// Appends a number as a variable-length integer.
pub fn write_var_uint(out: &mut Vec<u8>, value: u64)
    ensures
        final(out)@ == old(out)@ + varuint_bytes(value as nat),
{
    let mut rest: u64 = value;
    let ghost start = out@;
    while rest >= 128
        invariant
            start + varuint_bytes(value as nat) == out@ + varuint_bytes(rest as nat),
        decreases rest,
    {
        let ghost before = out@;
        out.push((128 + rest % 128) as u8);
        proof {
            assert(before + varuint_bytes(rest as nat) =~= out@ + varuint_bytes(
                (rest / 128) as nat,
            ));
        }
        rest = rest / 128;
    }
    let ghost before = out@;
    out.push(rest as u8);
    proof {
        assert(before + varuint_bytes(rest as nat) =~= out@);
    }
}

/// The string at the start of the bytes: its length as a variable-length integer, then
/// that many bytes.
pub open spec fn string_bytes(s: Seq<u8>) -> Result<(Seq<u8>, nat), WireError> {
    match varuint(s) {
        Err(e) => Err(e),
        Ok((len, used)) => if len > MAX_STRING_SIZE {
            Err(WireError::StringTooLong(len as u64))
        } else if used + len > s.len() {
            Err(WireError::Truncated)
        } else {
            Ok((s.subrange(used as int, (used + len) as int), used + len))
        },
    }
}

/// A string as it is written: its length, then its bytes.
pub open spec fn string_wire(s: Seq<u8>) -> Seq<u8> {
    varuint_bytes(s.len()) + s
}

/// Writing a string and reading it gives its bytes back, whatever follows.
pub proof fn string_reads_back(s: Seq<u8>, rest: Seq<u8>)
    requires
        s.len() <= MAX_STRING_SIZE,
    ensures
        string_bytes(string_wire(s) + rest) == Ok::<(Seq<u8>, nat), WireError>(
            (s, string_wire(s).len()),
        ),
{
    let w = string_wire(s) + rest;
    let head = varuint_bytes(s.len());
    assert(w =~= head + (s + rest));
    varuint_reads_back(s.len(), s + rest);
    assert(w.subrange(head.len() as int, (head.len() + s.len()) as int) =~= s);
}

/// What follows a string does not matter to reading it.
pub proof fn lemma_string_extends(s: Seq<u8>, rest: Seq<u8>)
    requires
        string_bytes(s) != Err::<(Seq<u8>, nat), WireError>(WireError::Truncated),
    ensures
        string_bytes(s + rest) == string_bytes(s),
        string_bytes(s) matches Ok((_, used)) ==> used <= s.len(),
{
    lemma_varuint_extends(s, rest, 0);
    lemma_varuint_bound(s, 0);
    if let Ok((len, used)) = varuint(s) {
        if used + len <= s.len() {
            assert((s + rest).subrange(used as int, (used + len) as int) =~= s.subrange(
                used as int,
                (used + len) as int,
            ));
        }
    }
}

/// The bytes from `from` up to `to`.
pub fn slice_between(bytes: &[u8], from: usize, to: usize) -> (out: Vec<u8>)
    requires
        from <= to <= bytes@.len(),
    ensures
        out@ == bytes@.subrange(from as int, to as int),
{
    let mut out: Vec<u8> = Vec::new();
    let mut i: usize = from;
    while i < to
        invariant
            from <= i <= to <= bytes@.len(),
            out@ == bytes@.subrange(from as int, i as int),
        decreases to - i,
    {
        proof {
            assert(bytes@.subrange(from as int, i + 1) =~= bytes@.subrange(
                from as int,
                i as int,
            ).push(bytes@[i as int]));
        }
        out.push(bytes[i]);
        i += 1;
    }
    out
}

/// Reads a string at `pos`; gives its bytes with the position behind it.
pub fn read_string(bytes: &[u8], pos: usize) -> (r: Result<(Vec<u8>, usize), WireError>)
    requires
        pos <= bytes@.len(),
    ensures
        (match r {
            Ok((v, next)) => pos < next <= bytes@.len() && string_bytes(bytes@.skip(pos as int))
                == Ok::<(Seq<u8>, nat), WireError>((v@, (next - pos) as nat)),
            Err(e) => string_bytes(bytes@.skip(pos as int)) == Err::<(Seq<u8>, nat), WireError>(e),
        }),
{
    let (len, start) = match read_var_uint(bytes, pos) {
        Ok(v) => v,
        Err(e) => {
            return Err(e);
        },
    };
    if len > MAX_STRING_SIZE {
        return Err(WireError::StringTooLong(len));
    }
    let len: usize = len as usize;
    if len > bytes.len() - start {
        return Err(WireError::Truncated);
    }
    let v = slice_between(bytes, start, start + len);
    proof {
        assert(v@ =~= bytes@.skip(pos as int).subrange(start - pos, start - pos + len));
    }
    Ok((v, start + len))
}

/// The string at the start of the bytes, where it has to be UTF-8.
pub open spec fn utf8_string(s: Seq<u8>) -> Result<(Seq<char>, nat), WireError> {
    match string_bytes(s) {
        Err(e) => Err(e),
        Ok((b, used)) => if valid_utf8(b) {
            Ok((decode_utf8(b), used))
        } else {
            Err(WireError::NotUtf8)
        },
    }
}

/// Reads a UTF-8 string at `pos`; gives it with the position behind it.
pub fn read_utf8_string(bytes: &[u8], pos: usize) -> (r: Result<(String, usize), WireError>)
    requires
        pos <= bytes@.len(),
    ensures
        (match r {
            Ok((v, next)) => pos < next <= bytes@.len() && utf8_string(bytes@.skip(pos as int))
                == Ok::<(Seq<char>, nat), WireError>((v@, (next - pos) as nat)),
            Err(e) => utf8_string(bytes@.skip(pos as int)) == Err::<(Seq<char>, nat), WireError>(e),
        }),
{
    match read_string(bytes, pos) {
        Err(e) => Err(e),
        Ok((v, next)) => match string_from_utf8(v) {
            Some(s) => Ok((s, next)),
            None => Err(WireError::NotUtf8),
        },
    }
}

/// A string that is announced as longer than 1 GiB is refused before any of it is read, and so is one
/// that ends too early.
pub proof fn long_strings_are_refused(s: Seq<u8>)
    ensures
        varuint(s) matches Ok((len, used)) ==> (len > 1024 * 1024 * 1024 ==> string_bytes(s) == Err::<
            (Seq<u8>, nat),
            WireError,
        >(WireError::StringTooLong(len as u64))) && (len <= 1024 * 1024 * 1024 && used + len > s.len()
            ==> string_bytes(s) == Err::<(Seq<u8>, nat), WireError>(WireError::Truncated)),
        string_bytes(s) matches Ok((b, used)) ==> b.len() <= 1024 * 1024 * 1024 && used <= s.len() && b
            == s.subrange(used - b.len(), used as int),
{
    lemma_varuint_bound(s, 0);
}

/// A text is read exactly from bytes that encode one.
pub proof fn texts_are_read_from_valid_bytes(s: Seq<u8>)
    ensures
        string_bytes(s) matches Ok((b, used)) ==> utf8_string(s) == if valid_utf8(b) {
            Ok((decode_utf8(b), used))
        } else {
            Err(WireError::NotUtf8)
        },
        string_bytes(s) matches Err(e) ==> utf8_string(s) == Err::<(Seq<char>, nat), WireError>(e),
{
}

} // verus!
