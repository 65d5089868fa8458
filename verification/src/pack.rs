//! Packing small codes into bytes.
//!
//! A chunk of codes is one number whose digits, the least significant first, are
//! the codes; its bytes are the digits of the same number in base 256. This is a
//! little-endian bit stream within each chunk.
use vstd::arithmetic::power::*;
use vstd::prelude::*;

verus! {

/// The width of a code in bits.
#[derive(Clone, Copy, Debug, PartialEq, Eq, Structural)]
pub enum Width {
    One,
    Two,
    Three,
    Four,
    Six,
}

/// The number of values a code can take.
pub open spec fn base(w: Width) -> int {
    match w {
        Width::One => 2,
        Width::Two => 4,
        Width::Three => 8,
        Width::Four => 16,
        Width::Six => 64,
    }
}

/// The number of codes in a chunk.
pub open spec fn chunk_codes(w: Width) -> int {
    match w {
        Width::One => 8,
        Width::Two => 4,
        Width::Three => 8,
        Width::Four => 2,
        Width::Six => 4,
    }
}

/// The number of bytes in a chunk.
pub open spec fn chunk_bytes(w: Width) -> int {
    match w {
        Width::Three => 3,
        Width::Six => 3,
        _ => 1,
    }
}

/// `n` codes make whole chunks.
pub open spec fn in_chunks(n: int, w: Width) -> bool {
    match w {
        Width::One => n % 8 == 0,
        Width::Two => n % 4 == 0,
        Width::Three => n % 8 == 0,
        Width::Four => n % 2 == 0,
        Width::Six => n % 4 == 0,
    }
}

/// `n` bytes make whole chunks.
pub open spec fn bytes_in_chunks(n: int, w: Width) -> bool {
    match w {
        Width::Three => n % 3 == 0,
        Width::Six => n % 3 == 0,
        _ => true,
    }
}

/// The number with these digits in the given base, the least significant first.
pub open spec fn number(digits: Seq<u8>, base: int) -> int
    decreases digits.len(),
{
    if digits.len() == 0 {
        0
    } else {
        digits[0] + base * number(digits.skip(1), base)
    }
}

/// The lowest `n` digits of a number in the given base.
pub open spec fn digits(v: int, base: int, n: nat) -> Seq<u8>
    decreases n,
{
    if n == 0 {
        Seq::empty()
    } else {
        seq![(v % base) as u8] + digits(v / base, base, (n - 1) as nat)
    }
}

/// Every digit is below the base.
pub open spec fn all_below(codes: Seq<u8>, base: int) -> bool {
    forall|i: int| 0 <= i < codes.len() ==> #[trigger] codes[i] < base
}

/// The bytes of one chunk of codes.
pub open spec fn packed_chunk(codes: Seq<u8>, w: Width) -> Seq<u8> {
    digits(number(codes, base(w)), 256, chunk_bytes(w) as nat)
}

/// The codes of one chunk of bytes.
pub open spec fn unpacked_chunk(bytes: Seq<u8>, w: Width) -> Seq<u8> {
    digits(number(bytes, 256), base(w), chunk_codes(w) as nat)
}

/// The bytes of a row of codes, chunk behind chunk.
pub open spec fn packed(codes: Seq<u8>, w: Width) -> Seq<u8>
    decreases codes.len(),
{
    if codes.len() < chunk_codes(w) {
        Seq::empty()
    } else {
        packed_chunk(codes.take(chunk_codes(w)), w) + packed(codes.skip(chunk_codes(w)), w)
    }
}

/// The codes of a row of bytes, chunk behind chunk.
pub open spec fn unpacked(bytes: Seq<u8>, w: Width) -> Seq<u8>
    decreases bytes.len(),
{
    if bytes.len() < chunk_bytes(w) {
        Seq::empty()
    } else {
        unpacked_chunk(bytes.take(chunk_bytes(w)), w) + unpacked(bytes.skip(chunk_bytes(w)), w)
    }
}

/// The codes with everything above `top` brought down to it.
pub open spec fn clamped(codes: Seq<u8>, top: int) -> Seq<u8> {
    Seq::new(codes.len(), |i: int| if codes[i] > top {
        top as u8
    } else {
        codes[i]
    })
}

impl Width {
    /// The largest code.
    pub fn top(self) -> (r: u8)
        ensures
            r == base(self) - 1,
            r == (match self {
                Width::One => 1int,
                Width::Two => 3,
                Width::Three => 7,
                Width::Four => 15,
                Width::Six => 63,
            }),
    {
        match self {
            Width::One => 1,
            Width::Two => 3,
            Width::Three => 7,
            Width::Four => 15,
            Width::Six => 63,
        }
    }

    /// The number of codes in a chunk.
    pub fn codes(self) -> (r: usize)
        ensures
            r == chunk_codes(self),
    {
        match self {
            Width::One => 8,
            Width::Two => 4,
            Width::Three => 8,
            Width::Four => 2,
            Width::Six => 4,
        }
    }

    /// The number of bytes in a chunk.
    pub fn bytes(self) -> (r: usize)
        ensures
            r == chunk_bytes(self),
    {
        match self {
            Width::Three => 3,
            Width::Six => 3,
            _ => 1,
        }
    }
}

proof fn lemma_digits_len(v: int, base: int, n: nat)
    ensures
        digits(v, base, n).len() == n,
    decreases n,
{
    if n > 0 {
        lemma_digits_len(v / base, base, (n - 1) as nat);
    }
}

proof fn lemma_digits_below(v: int, base: int, n: nat)
    requires
        0 < base <= 256,
    ensures
        all_below(digits(v, base, n), base),
    decreases n,
{
    lemma_digits_len(v, base, n);
    if n > 0 {
        let rest = digits(v / base, base, (n - 1) as nat);
        lemma_digits_below(v / base, base, (n - 1) as nat);
        lemma_digits_len(v / base, base, (n - 1) as nat);
        assert(0 <= v % base < base) by (nonlinear_arith)
            requires
                base > 0,
        ;
        assert forall|i: int| 0 <= i < n implies #[trigger] digits(v, base, n)[i] < base by {
            if i > 0 {
                assert(digits(v, base, n)[i] == rest[i - 1]);
            }
        }
    }
}

proof fn lemma_number_bound(s: Seq<u8>, base: int)
    requires
        0 < base,
        all_below(s, base),
    ensures
        0 <= number(s, base) < pow(base, s.len()),
    decreases s.len(),
{
    reveal(pow);
    if s.len() > 0 {
        let rest = s.skip(1);
        assert forall|i: int| 0 <= i < rest.len() implies #[trigger] rest[i] < base by {
            assert(rest[i] == s[i + 1]);
        }
        lemma_number_bound(rest, base);
        let r = number(rest, base);
        let p = pow(base, rest.len());
        let d = s[0] as int;
        assert(0 <= d + base * r < base * p) by (nonlinear_arith)
            requires
                0 <= d < base,
                0 <= r < p,
        ;
    }
}

/// The digits of the number with these digits are these digits.
proof fn lemma_digits_of_number(s: Seq<u8>, base: int)
    requires
        0 < base <= 256,
        all_below(s, base),
    ensures
        digits(number(s, base), base, s.len()) == s,
    decreases s.len(),
{
    if s.len() > 0 {
        let rest = s.skip(1);
        assert forall|i: int| 0 <= i < rest.len() implies #[trigger] rest[i] < base by {
            assert(rest[i] == s[i + 1]);
        }
        lemma_digits_of_number(rest, base);
        let r = number(rest, base);
        let d = s[0] as int;
        let v = d + base * r;
        assert(v % base == d && v / base == r) by (nonlinear_arith)
            requires
                v == d + base * r,
                0 <= d < base,
        ;
        assert(seq![d as u8] + rest =~= s);
    } else {
        assert(s =~= Seq::empty());
    }
}

/// The number with the digits of a small number is that number.
proof fn lemma_number_of_digits(v: int, base: int, n: nat)
    requires
        0 < base <= 256,
        0 <= v < pow(base, n),
    ensures
        number(digits(v, base, n), base) == v,
    decreases n,
{
    reveal(pow);
    lemma_digits_len(v, base, n);
    if n > 0 {
        let p = pow(base, (n - 1) as nat);
        assert(0 <= v / base < p && v == v % base + base * (v / base) && 0 <= v % base < base)
            by (nonlinear_arith)
            requires
                0 <= v < base * p,
                0 < base,
        ;
        lemma_number_of_digits(v / base, base, (n - 1) as nat);
        let rest = digits(v / base, base, (n - 1) as nat);
        assert(digits(v, base, n).skip(1) =~= rest);
    }
}

proof fn lemma_chunk_sizes(w: Width)
    ensures
        pow(base(w), chunk_codes(w) as nat) == pow(256, chunk_bytes(w) as nat),
        pow(base(w), chunk_codes(w) as nat) <= 0x100_0000,
{
    reveal_with_fuel(pow, 9);
    match w {
        Width::One => {
            assert(pow(2, 8) == 256);
            assert(pow(256, 1) == 256);
        },
        Width::Two => {
            assert(pow(4, 4) == 256);
            assert(pow(256, 1) == 256);
        },
        Width::Three => {
            assert(pow(8, 8) == 0x100_0000);
            assert(pow(256, 3) == 0x100_0000);
        },
        Width::Four => {
            assert(pow(16, 2) == 256);
            assert(pow(256, 1) == 256);
        },
        Width::Six => {
            assert(pow(64, 4) == 0x100_0000);
            assert(pow(256, 3) == 0x100_0000);
        },
    }
}

/// Unpacking a packed chunk gives the codes.
proof fn lemma_chunk_round_trip(codes: Seq<u8>, w: Width)
    requires
        codes.len() == chunk_codes(w),
        all_below(codes, base(w)),
    ensures
        packed_chunk(codes, w).len() == chunk_bytes(w),
        unpacked_chunk(packed_chunk(codes, w), w) == codes,
{
    let v = number(codes, base(w));
    lemma_chunk_sizes(w);
    lemma_number_bound(codes, base(w));
    lemma_digits_len(v, 256, chunk_bytes(w) as nat);
    lemma_number_of_digits(v, 256, chunk_bytes(w) as nat);
    lemma_digits_of_number(codes, base(w));
}

/// The number of bytes that hold `codes` codes, both in whole chunks.
pub open spec fn sizes_match(codes: int, bytes: int, w: Width) -> bool {
    match w {
        Width::One => codes == 8 * bytes,
        Width::Two => codes == 4 * bytes,
        Width::Three => 3 * codes == 8 * bytes,
        Width::Four => codes == 2 * bytes,
        Width::Six => 3 * codes == 4 * bytes,
    }
}

/// A row of whole chunks takes the same share of bytes as of codes.
pub proof fn lemma_packed_len(codes: Seq<u8>, w: Width)
    requires
        in_chunks(codes.len() as int, w),
    ensures
        sizes_match(codes.len() as int, packed(codes, w).len() as int, w),
    decreases codes.len(),
{
    if codes.len() >= chunk_codes(w) {
        let rest = codes.skip(chunk_codes(w));
        lemma_digits_len(
            number(codes.take(chunk_codes(w)), base(w)),
            256,
            chunk_bytes(w) as nat,
        );
        assert(in_chunks(rest.len() as int, w));
        lemma_packed_len(rest, w);
    } else {
        assert(codes.len() == 0);
    }
}

/// Unpacking packed codes gives the codes.
pub proof fn law_pack_round_trip(codes: Seq<u8>, w: Width)
    requires
        in_chunks(codes.len() as int, w),
        all_below(codes, base(w)),
    ensures
        unpacked(packed(codes, w), w) == codes,
    decreases codes.len(),
{
    let k = chunk_codes(w);
    if codes.len() >= k {
        let first = codes.take(k);
        let rest = codes.skip(k);
        assert forall|i: int| 0 <= i < rest.len() implies #[trigger] rest[i] < base(w) by {
            assert(rest[i] == codes[i + k]);
        }
        law_pack_round_trip(rest, w);
        lemma_chunk_round_trip(first, w);
        let bytes = packed(codes, w);
        assert(bytes.take(chunk_bytes(w)) =~= packed_chunk(first, w));
        assert(bytes.skip(chunk_bytes(w)) =~= packed(rest, w));
        assert(first + rest =~= codes);
    } else {
        assert(codes =~= Seq::empty());
    }
}

/// Whole chunks of bytes hold the same share of codes as of bytes, and every code
/// fits its width.
pub proof fn lemma_unpacked_len(bytes: Seq<u8>, w: Width)
    requires
        bytes_in_chunks(bytes.len() as int, w),
    ensures
        sizes_match(unpacked(bytes, w).len() as int, bytes.len() as int, w),
        all_below(unpacked(bytes, w), base(w)),
    decreases bytes.len(),
{
    let (k, m) = (chunk_codes(w), chunk_bytes(w));
    if bytes.len() >= m {
        let first = bytes.take(m);
        let rest = bytes.skip(m);
        assert(bytes_in_chunks(rest.len() as int, w));
        lemma_unpacked_len(rest, w);
        lemma_digits_len(number(first, 256), base(w), k as nat);
        lemma_digits_below(number(first, 256), base(w), k as nat);
        let all = unpacked(bytes, w);
        let chunk = unpacked_chunk(first, w);
        assert forall|i: int| 0 <= i < all.len() implies #[trigger] all[i] < base(w) by {
            if i < k {
                assert(all[i] == chunk[i]);
            } else {
                assert(all[i] == unpacked(rest, w)[i - k]);
            }
        }
    } else {
        assert(bytes.len() == 0);
    }
}

/// Packing unpacked bytes gives the bytes.
pub proof fn law_unpack_round_trip(bytes: Seq<u8>, w: Width)
    requires
        bytes_in_chunks(bytes.len() as int, w),
    ensures
        packed(unpacked(bytes, w), w) == bytes,
    decreases bytes.len(),
{
    let (k, m) = (chunk_codes(w), chunk_bytes(w));
    if bytes.len() >= m {
        let first = bytes.take(m);
        let rest = bytes.skip(m);
        assert(bytes_in_chunks(rest.len() as int, w));
        law_unpack_round_trip(rest, w);
        let v = number(first, 256);
        lemma_chunk_sizes(w);
        lemma_number_bound(first, 256);
        lemma_digits_len(v, base(w), k as nat);
        lemma_number_of_digits(v, base(w), k as nat);
        lemma_digits_of_number(first, 256);
        let codes = unpacked(bytes, w);
        assert(codes.take(k) =~= unpacked_chunk(first, w));
        assert(codes.skip(k) =~= unpacked(rest, w));
        assert(first + rest =~= bytes);
    } else {
        assert(bytes =~= Seq::empty());
        assert(packed(Seq::<u8>::empty(), w) =~= Seq::empty());
    }
}

proof fn lemma_digit_at(v: int, base: int, n: nat, i: int)
    requires
        0 < base <= 256,
        0 <= v,
        0 <= i < n,
    ensures
        digits(v, base, n)[i] == v / pow(base, i as nat) % base,
    decreases n,
{
    reveal(pow);
    lemma_digits_len(v / base, base, (n - 1) as nat);
    assert(0 <= v % base < base && 0 <= v / base) by (nonlinear_arith)
        requires
            0 < base,
            0 <= v,
    ;
    if i == 0 {
        assert(v / 1 == v);
    } else {
        lemma_digit_at(v / base, base, (n - 1) as nat, i - 1);
        lemma_pow_positive(base, (i - 1) as nat);
        vstd::arithmetic::div_mod::lemma_div_denominator(v, base, pow(base, (i - 1) as nat));
    }
}

/// One-bit codes: code `j` is bit `j % 8` of byte `j / 8`, the lowest bit first.
pub proof fn law_bit_position(bytes: Seq<u8>, j: int)
    requires
        0 <= j < 8 * bytes.len(),
    ensures
        j < unpacked(bytes, Width::One).len(),
        unpacked(bytes, Width::One)[j] == bytes[j / 8] as int / pow(2, (j % 8) as nat) % 2,
    decreases bytes.len(),
{
    let first = bytes.take(1);
    let rest = bytes.skip(1);
    lemma_unpacked_len(bytes, Width::One);
    assert(chunk_codes(Width::One) == 8 && chunk_bytes(Width::One) == 1);
    assert(number(first, 256) == bytes[0]) by {
        reveal_with_fuel(number, 2);
        assert(first.skip(1).len() == 0);
    }
    let chunk = unpacked_chunk(first, Width::One);
    lemma_digits_len(bytes[0] as int, 2, 8);
    if j < 8 {
        lemma_digit_at(bytes[0] as int, 2, 8, j);
        assert(unpacked(bytes, Width::One)[j] == chunk[j]);
    } else {
        law_bit_position(rest, j - 8);
        assert(unpacked(bytes, Width::One)[j] == unpacked(rest, Width::One)[j - 8]);
        assert(rest[(j - 8) / 8] == bytes[j / 8]);
    }
}

/// Chunk `c` of the bytes gives the codes of chunk `c`.
proof fn lemma_unpacked_chunk_at(bytes: Seq<u8>, w: Width, c: int)
    requires
        bytes_in_chunks(bytes.len() as int, w),
        0 <= c,
        c * chunk_bytes(w) < bytes.len(),
    ensures
        c * chunk_bytes(w) + chunk_bytes(w) <= bytes.len(),
        c * chunk_codes(w) + chunk_codes(w) <= unpacked(bytes, w).len(),
        unpacked(bytes, w).subrange(
            c * chunk_codes(w),
            c * chunk_codes(w) + chunk_codes(w),
        ) == unpacked_chunk(
            bytes.subrange(c * chunk_bytes(w), c * chunk_bytes(w) + chunk_bytes(w)),
            w,
        ),
    decreases bytes.len(),
{
    let (k, m) = (chunk_codes(w), chunk_bytes(w));
    let first = bytes.take(m);
    let rest = bytes.skip(m);
    lemma_digits_len(number(first, 256), base(w), k as nat);
    let all = unpacked(bytes, w);
    if c == 0 {
        assert(all.subrange(0, k) =~= unpacked_chunk(first, w));
        assert(bytes.subrange(0, m) =~= first);
    } else {
        assert(c * m == (c - 1) * m + m && c * k == (c - 1) * k + k) by (nonlinear_arith);
        assert((c - 1) * m >= 0 && (c - 1) * k >= 0) by (nonlinear_arith)
            requires
                c >= 1,
                m > 0,
                k > 0,
        ;
        lemma_unpacked_chunk_at(rest, w, c - 1);
        let tail = unpacked(rest, w);
        assert(all.subrange(c * k, c * k + k) =~= tail.subrange((c - 1) * k, (c - 1) * k + k));
        assert(bytes.subrange(c * m, c * m + m) =~= rest.subrange((c - 1) * m, (c - 1) * m + m));
    }
}

/// Chunk `c` of the codes gives the bytes of chunk `c`.
proof fn lemma_packed_chunk_at(codes: Seq<u8>, w: Width, c: int)
    requires
        in_chunks(codes.len() as int, w),
        0 <= c,
        c * chunk_codes(w) < codes.len(),
    ensures
        c * chunk_codes(w) + chunk_codes(w) <= codes.len(),
        c * chunk_bytes(w) + chunk_bytes(w) <= packed(codes, w).len(),
        packed(codes, w).subrange(
            c * chunk_bytes(w),
            c * chunk_bytes(w) + chunk_bytes(w),
        ) == packed_chunk(
            codes.subrange(c * chunk_codes(w), c * chunk_codes(w) + chunk_codes(w)),
            w,
        ),
    decreases codes.len(),
{
    let (k, m) = (chunk_codes(w), chunk_bytes(w));
    let first = codes.take(k);
    let rest = codes.skip(k);
    lemma_digits_len(number(first, base(w)), 256, m as nat);
    let all = packed(codes, w);
    assert(c * k >= 0) by (nonlinear_arith)
        requires
            c >= 0,
            k > 0,
    ;
    if c == 0 {
        assert(all.subrange(0, m) =~= packed_chunk(first, w));
        assert(codes.subrange(0, k) =~= first);
    } else {
        assert(c * m == (c - 1) * m + m && c * k == (c - 1) * k + k) by (nonlinear_arith);
        assert((c - 1) * m >= 0 && (c - 1) * k >= 0) by (nonlinear_arith)
            requires
                c >= 1,
                m > 0,
                k > 0,
        ;
        lemma_packed_chunk_at(rest, w, c - 1);
        let tail = packed(rest, w);
        assert(all.subrange(c * m, c * m + m) =~= tail.subrange((c - 1) * m, (c - 1) * m + m));
        assert(codes.subrange(c * k, c * k + k) =~= rest.subrange((c - 1) * k, (c - 1) * k + k));
    }
}

proof fn lemma_number1(s: Seq<u8>, b: int)
    requires
        s.len() == 1,
    ensures
        number(s, b) == s[0],
{
    reveal_with_fuel(number, 2);
    assert(b * 0 == 0) by (nonlinear_arith);
}

proof fn lemma_number2(s: Seq<u8>, b: int)
    requires
        s.len() == 2,
    ensures
        number(s, b) == s[0] + b * s[1],
{
    lemma_number1(s.skip(1), b);
}

proof fn lemma_number3(s: Seq<u8>, b: int)
    requires
        s.len() == 3,
    ensures
        number(s, b) == s[0] + b * (s[1] + b * s[2]),
{
    lemma_number2(s.skip(1), b);
}

proof fn lemma_number4(s: Seq<u8>, b: int)
    requires
        s.len() == 4,
    ensures
        number(s, b) == s[0] + b * (s[1] + b * (s[2] + b * s[3])),
{
    lemma_number3(s.skip(1), b);
}

proof fn lemma_number8(s: Seq<u8>, b: int)
    requires
        s.len() == 8,
    ensures
        number(s, b) == s[0] + b * (s[1] + b * (s[2] + b * (s[3] + b * (s[4] + b * (s[5] + b * (s[6]
            + b * s[7])))))),
{
    lemma_number4(s.skip(1).skip(1).skip(1).skip(1), b);
    assert(number(s.skip(1).skip(1).skip(1), b) == s[3] + b * number(
        s.skip(1).skip(1).skip(1).skip(1),
        b,
    ));
    assert(number(s.skip(1).skip(1), b) == s[2] + b * number(s.skip(1).skip(1).skip(1), b));
    assert(number(s.skip(1), b) == s[1] + b * number(s.skip(1).skip(1), b));
}

/// Where the codes stand in the bytes: code `j` of a width that divides a byte is
/// a run of bits of one byte, the lowest first; a code of three or six bits is a
/// run of bits of the little-endian number of three bytes.
pub proof fn law_code_position(bytes: Seq<u8>, w: Width, j: int)
    requires
        w == Width::Three || w == Width::Six ==> bytes.len() % 3 == 0,
        0 <= j,
        match w {
            Width::One => j < 8 * bytes.len(),
            Width::Two => j < 4 * bytes.len(),
            Width::Four => j < 2 * bytes.len(),
            Width::Three => 3 * j < 8 * bytes.len(),
            Width::Six => 3 * j < 4 * bytes.len(),
        },
    ensures
        j < unpacked(bytes, w).len(),
        match w {
            Width::One => unpacked(bytes, w)[j] == bytes[j / 8] as int / pow(2, (j % 8) as nat) % 2,
            Width::Two => unpacked(bytes, w)[j] == bytes[j / 4] as int / pow(4, (j % 4) as nat) % 4,
            Width::Four => unpacked(bytes, w)[j] == bytes[j / 2] as int / pow(16, (j % 2) as nat)
                % 16,
            Width::Three => unpacked(bytes, w)[j] == (bytes[j / 8 * 3] + 256 * bytes[j / 8 * 3 + 1]
                + 0x1_0000 * bytes[j / 8 * 3 + 2]) / pow(8, (j % 8) as nat) % 8,
            Width::Six => unpacked(bytes, w)[j] == (bytes[j / 4 * 3] + 256 * bytes[j / 4 * 3 + 1]
                + 0x1_0000 * bytes[j / 4 * 3 + 2]) / pow(64, (j % 4) as nat) % 64,
        },
{
    let (k, m) = (chunk_codes(w), chunk_bytes(w));
    let c = match w {
        Width::One => j / 8,
        Width::Two => j / 4,
        Width::Four => j / 2,
        Width::Three => j / 8,
        Width::Six => j / 4,
    };
    let chunk = bytes.subrange(c * m, c * m + m);
    lemma_unpacked_len(bytes, w);
    lemma_unpacked_chunk_at(bytes, w, c);
    let codes = unpacked(bytes, w).subrange(c * k, c * k + k);
    let v = number(chunk, 256);
    if m == 1 {
        lemma_number1(chunk, 256);
    } else {
        lemma_number3(chunk, 256);
    }
    assert(codes[j - c * k] == unpacked(bytes, w)[j]);
    lemma_digit_at(v, base(w), k as nat, j - c * k);
}

/// What the bytes hold: a byte is the number whose digits are its codes, the first
/// code the lowest digit; three bytes hold eight codes of three bits or four of six
/// bits in the same way.
pub proof fn law_packed_bytes(codes: Seq<u8>, w: Width, c: int)
    requires
        in_chunks(codes.len() as int, w),
        all_below(codes, base(w)),
        0 <= c,
        match w {
            Width::One => 8 * c < codes.len(),
            Width::Two => 4 * c < codes.len(),
            Width::Four => 2 * c < codes.len(),
            Width::Three => 8 * c < codes.len(),
            Width::Six => 4 * c < codes.len(),
        },
    ensures
        match w {
            Width::One => packed(codes, w)[c] == codes[8 * c] + 2 * codes[8 * c + 1] + 4 * codes[8
                * c + 2] + 8 * codes[8 * c + 3] + 16 * codes[8 * c + 4] + 32 * codes[8 * c + 5] + 64
                * codes[8 * c + 6] + 128 * codes[8 * c + 7],
            Width::Two => packed(codes, w)[c] == codes[4 * c] + 4 * codes[4 * c + 1] + 16 * codes[4
                * c + 2] + 64 * codes[4 * c + 3],
            Width::Four => packed(codes, w)[c] == codes[2 * c] + 16 * codes[2 * c + 1],
            Width::Three => packed(codes, w)[3 * c] + 256 * packed(codes, w)[3 * c + 1] + 0x1_0000
                * packed(codes, w)[3 * c + 2] == codes[8 * c] + 8 * codes[8 * c + 1] + 64 * codes[8
                * c + 2] + 512 * codes[8 * c + 3] + 4096 * codes[8 * c + 4] + 32768 * codes[8 * c
                + 5] + 0x4_0000 * codes[8 * c + 6] + 0x20_0000 * codes[8 * c + 7],
            Width::Six => packed(codes, w)[3 * c] + 256 * packed(codes, w)[3 * c + 1] + 0x1_0000
                * packed(codes, w)[3 * c + 2] == codes[4 * c] + 64 * codes[4 * c + 1] + 4096
                * codes[4 * c + 2] + 0x4_0000 * codes[4 * c + 3],
        },
{
    let (k, m) = (chunk_codes(w), chunk_bytes(w));
    match w {
        Width::One => {
            assert(k == 8 && m == 1);
            assert(c * 8 == 8 * c && c * 1 == 1 * c);
        },
        Width::Two => {
            assert(k == 4 && m == 1);
            assert(c * 4 == 4 * c && c * 1 == 1 * c);
        },
        Width::Four => {
            assert(k == 2 && m == 1);
            assert(c * 2 == 2 * c && c * 1 == 1 * c);
        },
        Width::Three => {
            assert(k == 8 && m == 3);
            assert(c * 8 == 8 * c && c * 3 == 3 * c);
        },
        Width::Six => {
            assert(k == 4 && m == 3);
            assert(c * 4 == 4 * c && c * 3 == 3 * c);
        },
    }
    let mine = codes.subrange(c * k, c * k + k);
    lemma_packed_chunk_at(codes, w, c);
    let bytes = packed(codes, w).subrange(c * m, c * m + m);
    assert forall|i: int| 0 <= i < mine.len() implies #[trigger] mine[i] < base(w) by {
        assert(mine[i] == codes[c * k + i]);
    }
    lemma_chunk_sizes(w);
    lemma_number_bound(mine, base(w));
    let v = number(mine, base(w));
    lemma_number_of_digits(v, 256, m as nat);
    assert(number(bytes, 256) == v);
    if m == 1 {
        lemma_number1(bytes, 256);
    } else {
        lemma_number3(bytes, 256);
    }
    match w {
        Width::One => lemma_number8(mine, 2),
        Width::Two => lemma_number4(mine, 4),
        Width::Four => lemma_number2(mine, 16),
        Width::Three => lemma_number8(mine, 8),
        Width::Six => lemma_number4(mine, 64),
    }
}

/// Appends the bytes of one chunk of codes that starts at `at`.
fn push_chunk(out: &mut Vec<u8>, codes: &[u8], at: usize, w: Width)
    requires
        at + chunk_codes(w) <= codes@.len(),
        all_below(codes@, base(w)),
    ensures
        final(out)@ == old(out)@ + packed_chunk(codes@.subrange(at as int, at + chunk_codes(w)), w),
{
    let top: u8 = w.top();
    let step: u32 = top as u32 + 1;
    let k: usize = w.codes();
    let n: usize = codes.len();
    let mut v: u32 = 0;
    let mut i: usize = k;
    proof {
        lemma_chunk_sizes(w);
        lemma_pow0(base(w));
        assert(codes@.subrange(at + k, at + k) =~= Seq::empty());
    }
    while i > 0
        invariant
            i <= k,
            k == chunk_codes(w),
            step == base(w),
            n == codes@.len(),
            at + k <= n,
            all_below(codes@, base(w)),
            v == number(codes@.subrange(at + i, at + k), base(w)),
            v < pow(base(w), (k - i) as nat),
            pow(base(w), k as nat) <= 0x100_0000,
        decreases i,
    {
        i = i - 1;
        let ghost tail = codes@.subrange(at + i, at + k);
        let ghost before = codes@.subrange(at + i + 1, at + k);
        let ghost b = base(w);
        proof {
            assert(tail.skip(1) =~= before);
            assert forall|j: int| 0 <= j < tail.len() implies #[trigger] tail[j] < b by {
                assert(tail[j] == codes@[at + i + j]);
            }
            lemma_number_bound(tail, b);
            assert(tail[0] == codes@[at + i]);
            lemma_pow_increases(b as nat, (k - i) as nat, k as nat);
            assert(number(tail, b) == tail[0] + b * number(before, b));
            let r = number(before, b);
            assert(b * r == step * v);
        }
        v = step * v + codes[at + i] as u32;
    }
    assert(at + 0 == at);
    let m: usize = w.bytes();
    let ghost total = v as int;
    let mut j: usize = 0;
    while j < m
        invariant
            j <= m,
            m == chunk_bytes(w),
            out@ + digits(v as int, 256, (m - j) as nat) == old(out)@ + digits(
                total,
                256,
                m as nat,
            ),
        decreases m - j,
    {
        let ghost before = out@;
        let ghost rest = digits(v as int / 256, 256, (m - j - 1) as nat);
        out.push((v % 256) as u8);
        proof {
            assert(digits(v as int, 256, (m - j) as nat) == seq![(v as int % 256) as u8] + rest);
            assert(before + (seq![(v % 256) as u8] + rest) =~= out@ + rest);
        }
        v = v / 256;
        j = j + 1;
    }
    proof {
        assert(digits(v as int, 256, 0) =~= Seq::empty());
        assert(out@ + Seq::<u8>::empty() =~= out@);
    }
}

/// Packs codes into bytes. Codes that do not fit are brought down to the largest.
pub fn pack(codes: &[u8], w: Width) -> (out: Vec<u8>)
    requires
        in_chunks(codes@.len() as int, w),
    ensures
        out@ == packed(clamped(codes@, base(w) - 1), w),
{
    let top: u8 = w.top();
    let n: usize = codes.len();
    let mut small: Vec<u8> = Vec::new();
    let mut i: usize = 0;
    while i < n
        invariant
            i <= n,
            n == codes@.len(),
            top == base(w) - 1,
            small@.len() == i,
            forall|j: int| 0 <= j < i ==> #[trigger] small@[j] == clamped(codes@, base(w) - 1)[j],
        decreases n - i,
    {
        small.push(
            if codes[i] > top {
                top
            } else {
                codes[i]
            },
        );
        i = i + 1;
    }
    assert(small@ =~= clamped(codes@, base(w) - 1));
    let k: usize = w.codes();
    let mut out: Vec<u8> = Vec::new();
    let mut at: usize = 0;
    proof {
        assert(small@.skip(0) =~= small@);
        assert(out@ + packed(small@, w) =~= packed(small@, w));
    }
    while n - at >= k
        invariant
            at <= n,
            n == small@.len(),
            k == chunk_codes(w),
            all_below(small@, base(w)),
            out@ + packed(small@.skip(at as int), w) == packed(small@, w),
        decreases n - at,
    {
        let ghost rest = small@.skip(at as int);
        let ghost before = out@;
        push_chunk(&mut out, small.as_slice(), at, w);
        proof {
            assert(rest.take(k as int) =~= small@.subrange(at as int, at + k));
            assert(rest.skip(k as int) =~= small@.skip(at + k));
            let c = packed_chunk(rest.take(k as int), w);
            let p = packed(rest.skip(k as int), w);
            assert(before + (c + p) =~= (before + c) + p);
        }
        at = at + k;
    }
    assert(out@ + Seq::<u8>::empty() =~= out@);
    out
}

/// Appends the codes of one chunk of bytes that starts at `at`.
fn push_codes(out: &mut Vec<u8>, bytes: &[u8], at: usize, w: Width)
    requires
        at + chunk_bytes(w) <= bytes@.len(),
    ensures
        final(out)@ == old(out)@ + unpacked_chunk(bytes@.subrange(at as int, at + chunk_bytes(w)), w),
{
    let step: u32 = w.top() as u32 + 1;
    let m: usize = w.bytes();
    let k: usize = w.codes();
    let n: usize = bytes.len();
    let ghost chunk = bytes@.subrange(at as int, at + m);
    let mut v: u32 = bytes[at] as u32;
    if m == 3 {
        v = v + 256 * (bytes[at + 1] as u32) + 0x1_0000 * (bytes[at + 2] as u32);
    }
    proof {
        reveal_with_fuel(number, 4);
        assert(chunk[0] == bytes@[at as int]);
        if m == 3 {
            assert(chunk[1] == bytes@[at + 1] && chunk[2] == bytes@[at + 2]);
            assert(chunk.skip(1)[0] == chunk[1]);
            assert(chunk.skip(1).skip(1)[0] == chunk[2]);
            assert(chunk.skip(1).skip(1).skip(1).len() == 0);
        } else {
            assert(chunk.skip(1).len() == 0);
        }
        assert(v == number(chunk, 256));
    }
    let ghost total = v as int;
    let mut j: usize = 0;
    while j < k
        invariant
            j <= k,
            k == chunk_codes(w),
            step == base(w),
            out@ + digits(v as int, base(w), (k - j) as nat) == old(out)@ + digits(
                total,
                base(w),
                k as nat,
            ),
        decreases k - j,
    {
        let ghost before = out@;
        let ghost rest = digits(v as int / base(w), base(w), (k - j - 1) as nat);
        out.push((v % step) as u8);
        proof {
            assert(digits(v as int, base(w), (k - j) as nat) == seq![(v as int % base(w)) as u8]
                + rest);
            assert(before + (seq![(v % step) as u8] + rest) =~= out@ + rest);
        }
        v = v / step;
        j = j + 1;
    }
    proof {
        assert(digits(v as int, base(w), 0) =~= Seq::empty());
        assert(out@ + Seq::<u8>::empty() =~= out@);
    }
}

/// Reads the codes back out of bytes. Bytes behind the last whole chunk are
/// ignored.
pub fn unpack(bytes: &[u8], w: Width) -> (out: Vec<u8>)
    ensures
        out@ == unpacked(bytes@, w),
{
    let m: usize = w.bytes();
    let n: usize = bytes.len();
    let mut out: Vec<u8> = Vec::new();
    let mut at: usize = 0;
    proof {
        assert(bytes@.skip(0) =~= bytes@);
        assert(out@ + unpacked(bytes@, w) =~= unpacked(bytes@, w));
    }
    while n - at >= m
        invariant
            at <= n,
            n == bytes@.len(),
            m == chunk_bytes(w),
            out@ + unpacked(bytes@.skip(at as int), w) == unpacked(bytes@, w),
        decreases n - at,
    {
        let ghost rest = bytes@.skip(at as int);
        let ghost before = out@;
        push_codes(&mut out, bytes, at, w);
        proof {
            assert(rest.take(m as int) =~= bytes@.subrange(at as int, at + m));
            assert(rest.skip(m as int) =~= bytes@.skip(at + m));
            let c = unpacked_chunk(rest.take(m as int), w);
            let p = unpacked(rest.skip(m as int), w);
            assert(before + (c + p) =~= (before + c) + p);
        }
        at = at + m;
    }
    assert(out@ + Seq::<u8>::empty() =~= out@);
    out
}

} // verus!
