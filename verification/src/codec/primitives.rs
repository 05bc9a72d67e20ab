//! The data representations of MQTT v5: Variable Byte Integers, big-endian two and four
//! byte integers, UTF-8 strings and binary data, with their encoders, their parsers and the
//! laws that tie them.
use vstd::prelude::*;
use vstd::utf8::*;
use vstd::string::StringSliceAdditionalSpecFns;

verus! {



/// Why a parser could not produce a value.
#[derive(Debug, Clone, Copy, PartialEq, Eq, Structural)]
pub enum ParseError {
    /// More bytes are needed before the value can be parsed: at least this many.
    Incomplete(usize),
    /// The bytes do not form a valid value.
    Malformed,
    /// The bytes use a feature that this codec does not handle.
    Unsupported,
}

/// How many bytes are missing for `n` bytes to stand at `pos` in `s`.
pub open spec fn missing(s: Seq<u8>, pos: int, n: int) -> usize {
    if 0 <= pos < s.len() {
        (n - (s.len() - pos)) as usize
    } else {
        n as usize
    }
}

/// The largest value that a Variable Byte Integer can hold.
pub const VARINT_MAX: u32 = 268_435_455;

// ---------------------------------------------------------------------------
// Variable Byte Integer
// ---------------------------------------------------------------------------

/// The encoding of `v` as a Variable Byte Integer: seven bits per byte, least significant
/// group first, the top bit set on every byte but the last.
pub open spec fn spec_encode_varint(v: nat) -> Seq<u8>
    decreases v,
{
    if v < 128 {
        seq![v as u8]
    } else {
        seq![((v % 128) + 128) as u8] + spec_encode_varint(v / 128)
    }
}

/// Parsing a Variable Byte Integer at `pos`, with at most `budget` bytes left before the
/// integer is too long. The result is the value and the position after it.
pub open spec fn spec_parse_varint_budget(s: Seq<u8>, pos: int, budget: nat) -> Result<
    (int, int),
    ParseError,
>
    decreases budget,
{
    if budget == 0 {
        Err(ParseError::Malformed)
    } else if pos < 0 || pos >= s.len() {
        Err(ParseError::Incomplete(1))
    } else if s[pos] < 128 {
        Ok((s[pos] as int, pos + 1))
    } else {
        match spec_parse_varint_budget(s, pos + 1, (budget - 1) as nat) {
            Ok((v, next)) => Ok(((s[pos] - 128) + 128 * v, next)),
            Err(e) => Err(e),
        }
    }
}

/// Parsing a Variable Byte Integer of at most four bytes at `pos`.
pub open spec fn spec_parse_varint(s: Seq<u8>, pos: int) -> Result<(int, int), ParseError> {
    spec_parse_varint_budget(s, pos, 4)
}

pub proof fn lemma_encode_varint_len(v: nat)
    ensures
        1 <= spec_encode_varint(v).len(),
        v <= VARINT_MAX ==> spec_encode_varint(v).len() <= 4,
        v <= u32::MAX ==> spec_encode_varint(v).len() <= 5,
        v < 128 ==> spec_encode_varint(v).len() == 1,
        v >= 128 ==> spec_encode_varint(v).len() == 1 + spec_encode_varint(v / 128).len(),
{
    reveal_with_fuel(pow128, 6);
    lemma_encode_varint_len_bound(v, 4);
    lemma_encode_varint_len_bound(v, 5);
}

proof fn lemma_encode_varint_len_bound(v: nat, k: nat)
    ensures
        1 <= spec_encode_varint(v).len(),
        k >= 1 && v < pow128(k) ==> spec_encode_varint(v).len() <= k,
    decreases v,
{
    if v >= 128 {
        if k >= 1 && v < pow128(k) {
            if k == 1 {
                assert(pow128(1) == 128) by {
                    reveal_with_fuel(pow128, 2);
                }
            }
            let p = pow128((k - 1) as nat);
            assert(v / 128 < p) by (nonlinear_arith)
                requires
                    v < 128 * p,
            ;
        }
        lemma_encode_varint_len_bound(v / 128, (k - 1) as nat);
    }
}

proof fn lemma_parse_varint_budget_of_encoding(v: nat, budget: nat, s: Seq<u8>, pos: int)
    requires
        0 <= pos,
        pos + spec_encode_varint(v).len() <= s.len(),
        s.subrange(pos, pos + spec_encode_varint(v).len()) == spec_encode_varint(v),
        spec_encode_varint(v).len() <= budget,
    ensures
        spec_parse_varint_budget(s, pos, budget) == Ok::<(int, int), ParseError>(
            (v as int, pos + spec_encode_varint(v).len()),
        ),
    decreases v,
{
    let e = spec_encode_varint(v);
    assert(s[pos] == e[0]);
    if v >= 128 {
        let tail = spec_encode_varint(v / 128);
        lemma_encode_varint_len(v);
        assert(e == seq![((v % 128) + 128) as u8] + tail);
        assert(s.subrange(pos + 1, pos + 1 + tail.len()) =~= tail) by {
            assert forall|i: int| 0 <= i < tail.len() implies s.subrange(
                pos + 1,
                pos + 1 + tail.len(),
            )[i] == tail[i] by {
                assert(s[pos + 1 + i] == s.subrange(pos, pos + e.len())[1 + i]);
                assert(e[1 + i] == tail[i]);
            }
        }
        lemma_parse_varint_budget_of_encoding(v / 128, (budget - 1) as nat, s, pos + 1);
    }
}

/// What a Variable Byte Integer encoding reads back as: the same integer, and the
/// position just after the encoding, whatever bytes follow.
pub proof fn lemma_varint_roundtrip(v: nat, prefix: Seq<u8>, suffix: Seq<u8>)
    requires
        v <= VARINT_MAX,
    ensures
        spec_parse_varint(prefix + spec_encode_varint(v) + suffix, prefix.len() as int) == Ok::<
            (int, int),
            ParseError,
        >((v as int, (prefix.len() + spec_encode_varint(v).len()) as int)),
{
    let e = spec_encode_varint(v);
    let s = prefix + e + suffix;
    lemma_encode_varint_len(v);
    assert(s.subrange(prefix.len() as int, (prefix.len() + e.len()) as int) =~= e);
    lemma_parse_varint_budget_of_encoding(v, 4, s, prefix.len() as int);
}

/// A parsed Variable Byte Integer is at most `VARINT_MAX` and ends after the position it
/// started at.
pub proof fn lemma_parse_varint_bounds(s: Seq<u8>, pos: int, budget: nat)
    requires
        budget <= 4,
        spec_parse_varint_budget(s, pos, budget) is Ok,
    ensures
        ({
            let (v, next) = spec_parse_varint_budget(s, pos, budget)->Ok_0;
            &&& 0 <= v
            &&& (budget == 4 ==> v <= VARINT_MAX)
            &&& v < pow128(budget)
            &&& pos < next <= s.len()
            &&& next <= pos + budget
        }),
    decreases budget,
{
    reveal_with_fuel(pow128, 6);
    if s[pos] >= 128 {
        lemma_parse_varint_bounds(s, pos + 1, (budget - 1) as nat);
        let (v, _) = spec_parse_varint_budget(s, pos + 1, (budget - 1) as nat)->Ok_0;
        let p = pow128((budget - 1) as nat);
        let b = s[pos] - 128;
        assert(b + 128 * v < 128 * p) by (nonlinear_arith)
            requires
                0 <= b < 128,
                0 <= v < p,
        ;
    }
}

/// `128` to the power `n`.
pub open spec fn pow128(n: nat) -> int
    decreases n,
{
    if n == 0 {
        1
    } else {
        128 * pow128((n - 1) as nat)
    }
}

/// Encodes `value` as a Variable Byte Integer.
pub fn encode_variable_u32(value: u32) -> (res: Vec<u8>)
    ensures
        res@ == spec_encode_varint(value as nat),
{
    let mut res: Vec<u8> = Vec::new();
    let mut rest: u32 = value;
    loop
        invariant
            res@ + spec_encode_varint(rest as nat) == spec_encode_varint(value as nat),
        decreases rest,
    {
        let mut byte: u8 = (rest % 128) as u8;
        let ghost old_value = rest;
        rest = rest / 128;
        if rest > 0 {
            assert(byte < 128 ==> byte | 128 == byte + 128) by (bit_vector);
            byte = byte | 128;
        }
        let ghost old_res = res@;
        res.push(byte);
        assert(res@ == old_res + seq![byte]);
        if rest == 0 {
            assert(old_value < 128);
            assert(byte == old_value);
            assert(spec_encode_varint(old_value as nat) == seq![byte]);
            assert(res@ == spec_encode_varint(value as nat));
            return res;
        }
        assert(spec_encode_varint(old_value as nat) == seq![byte] + spec_encode_varint(rest as nat));
    }
}

/// Parses a Variable Byte Integer of at most four bytes at `pos`.
pub fn parse_variable_u32(input: &[u8], pos: usize) -> (res: Result<(u32, usize), ParseError>)
    ensures
        match res {
            Ok((v, next)) => spec_parse_varint(input@, pos as int) == Ok::<(int, int), ParseError>(
                (v as int, next as int),
            ),
            Err(e) => spec_parse_varint(input@, pos as int) == Err::<(int, int), ParseError>(e),
        },
{
    let mut result: u32 = 0;
    let mut multiplier: u32 = 1;
    let mut cur: usize = pos;
    let mut budget: usize = 4;
    let ghost s = input@;
    assert(pow128(4) == 268435456) by {
        reveal_with_fuel(pow128, 6);
    }
    while budget > 0
        invariant
            s == input@,
            budget <= 4,
            pow128(4) == 268435456,
            cur == pos + (4 - budget),
            multiplier as int == pow128((4 - budget) as nat),
            result < multiplier,
            combine_varint(result as int, multiplier as int, spec_parse_varint_budget(s, cur as int, budget as nat))
                == spec_parse_varint(s, pos as int),
        decreases budget,
    {
        let ghost r = spec_parse_varint_budget(s, cur as int, budget as nat);
        if cur >= input.len() {
            return Err(ParseError::Incomplete(1));
        }
        let byte = input[cur];
        if byte < 128 {
            assert(result + multiplier * byte < multiplier * 128) by (nonlinear_arith)
                requires
                    result < multiplier,
                    byte < 128,
            ;
            assert(multiplier * 128 <= pow128(4)) by {
                reveal_with_fuel(pow128, 6);
                if budget == 4 {
                } else if budget == 3 {
                } else if budget == 2 {
                } else {
                }
            }
            assert(multiplier * byte <= multiplier * 128) by (nonlinear_arith)
                requires
                    byte < 128,
            ;
            result = result + multiplier * (byte as u32);
            return Ok((result, cur + 1));
        }
        let ghost rest = spec_parse_varint_budget(s, cur + 1, (budget - 1) as nat);
        assert(combine_varint(result as int, multiplier as int, r) == combine_varint(
            result + multiplier * (byte - 128),
            multiplier * 128,
            rest,
        )) by {
            match rest {
                Ok((v, next)) => {
                    assert(multiplier * ((byte - 128) + 128 * v) == multiplier * (byte - 128)
                        + (multiplier * 128) * v) by (nonlinear_arith);
                },
                Err(_) => {},
            }
        }
        assert(result + multiplier * (byte - 128) < multiplier * 128) by (nonlinear_arith)
            requires
                result < multiplier,
                byte < 256,
        ;
        assert(multiplier * 128 <= pow128(4)) by {
            reveal_with_fuel(pow128, 6);
            if budget == 4 {
            } else if budget == 3 {
            } else if budget == 2 {
            } else {
            }
        }
        assert(multiplier * (byte - 128) <= multiplier * 128) by (nonlinear_arith)
            requires
                128 <= byte < 256,
        ;
        result = result + multiplier * ((byte - 128) as u32);
        multiplier = multiplier * 128;
        cur = cur + 1;
        budget = budget - 1;
    }
    assert(spec_parse_varint_budget(s, cur as int, 0) == Err::<(int, int), ParseError>(
        ParseError::Malformed,
    ));
    Err(ParseError::Malformed)
}

/// Adding the low digits `acc`, taken with `multiplier`, to what the rest of the integer parses as.
pub open spec fn combine_varint(acc: int, multiplier: int, r: Result<(int, int), ParseError>) -> Result<
    (int, int),
    ParseError,
> {
    match r {
        Ok((v, next)) => Ok((acc + multiplier * v, next)),
        Err(e) => Err(e),
    }
}

// ---------------------------------------------------------------------------
// Byte buffers
// ---------------------------------------------------------------------------

/// Appends every byte of `src` to `dst`.
pub fn push_all(dst: &mut Vec<u8>, src: &[u8])
    ensures
        final(dst)@ == old(dst)@ + src@,
{
    let ghost start = dst@;
    let mut i: usize = 0;
    while i < src.len()
        invariant
            i <= src@.len(),
            dst@ == start + src@.subrange(0, i as int),
        decreases src@.len() - i,
    {
        dst.push(src[i]);
        i = i + 1;
        assert(src@.subrange(0, i as int) == src@.subrange(0, i - 1) + seq![src@[i - 1]]);
    }
    assert(src@.subrange(0, src@.len() as int) == src@);
}

// ---------------------------------------------------------------------------
// Two and Four Byte Integers (big-endian)
// ---------------------------------------------------------------------------

/// The big-endian encoding of a Two Byte Integer.
pub open spec fn spec_u16_be(v: u16) -> Seq<u8> {
    seq![(v / 256) as u8, (v % 256) as u8]
}

/// The big-endian encoding of a Four Byte Integer.
pub open spec fn spec_u32_be(v: u32) -> Seq<u8> {
    seq![
        (v / 0x100_0000) as u8,
        ((v / 0x1_0000) % 256) as u8,
        ((v / 256) % 256) as u8,
        (v % 256) as u8,
    ]
}

/// Parsing a Two Byte Integer at `pos`.
pub open spec fn spec_parse_u16(s: Seq<u8>, pos: int) -> Result<(u16, int), ParseError> {
    if pos < 0 || pos + 2 > s.len() {
        Err(ParseError::Incomplete(missing(s, pos, 2)))
    } else {
        Ok(((s[pos] * 256 + s[pos + 1]) as u16, pos + 2))
    }
}

/// Parsing a Four Byte Integer at `pos`.
pub open spec fn spec_parse_u32(s: Seq<u8>, pos: int) -> Result<(u32, int), ParseError> {
    if pos < 0 || pos + 4 > s.len() {
        Err(ParseError::Incomplete(missing(s, pos, 4)))
    } else {
        Ok(
            (
                (s[pos] * 0x100_0000 + s[pos + 1] * 0x1_0000 + s[pos + 2] * 256 + s[pos + 3]) as u32,
                pos + 4,
            ),
        )
    }
}

/// Parsing one byte at `pos`.
pub open spec fn spec_parse_byte(s: Seq<u8>, pos: int) -> Result<(u8, int), ParseError> {
    if pos < 0 || pos >= s.len() {
        Err(ParseError::Incomplete(1))
    } else {
        Ok((s[pos], pos + 1))
    }
}

/// The big-endian bytes of a Two Byte Integer.
pub fn u16_to_be_bytes(v: u16) -> (res: Vec<u8>)
    ensures
        res@ == spec_u16_be(v),
{
    let mut res: Vec<u8> = Vec::new();
    res.push((v / 256) as u8);
    res.push((v % 256) as u8);
    assert(res@ == spec_u16_be(v));
    res
}

/// The big-endian bytes of a Four Byte Integer.
pub fn u32_to_be_bytes(v: u32) -> (res: Vec<u8>)
    ensures
        res@ == spec_u32_be(v),
{
    let mut res: Vec<u8> = Vec::new();
    res.push((v / 0x100_0000) as u8);
    res.push(((v / 0x1_0000) % 256) as u8);
    res.push(((v / 256) % 256) as u8);
    res.push((v % 256) as u8);
    assert(res@ == spec_u32_be(v));
    res
}

/// Parses one byte at `pos`.
pub fn parse_byte(input: &[u8], pos: usize) -> (res: Result<(u8, usize), ParseError>)
    ensures
        match res {
            Ok((v, next)) => spec_parse_byte(input@, pos as int) == Ok::<(u8, int), ParseError>((v, next as int)),
            Err(e) => spec_parse_byte(input@, pos as int) == Err::<(u8, int), ParseError>(e),
        },
{
    if pos >= input.len() {
        Err(ParseError::Incomplete(1))
    } else {
        Ok((input[pos], pos + 1))
    }
}

/// Parses a big-endian Two Byte Integer at `pos`.
pub fn parse_u16(input: &[u8], pos: usize) -> (res: Result<(u16, usize), ParseError>)
    ensures
        match res {
            Ok((v, next)) => spec_parse_u16(input@, pos as int) == Ok::<(u16, int), ParseError>((v, next as int)),
            Err(e) => spec_parse_u16(input@, pos as int) == Err::<(u16, int), ParseError>(e),
        },
{
    if pos >= input.len() {
        Err(ParseError::Incomplete(2))
    } else if input.len() - pos < 2 {
        Err(ParseError::Incomplete(2 - (input.len() - pos)))
    } else {
        let v: u16 = (input[pos] as u16) * 256 + (input[pos + 1] as u16);
        Ok((v, pos + 2))
    }
}

/// Parses a big-endian Four Byte Integer at `pos`.
pub fn parse_u32(input: &[u8], pos: usize) -> (res: Result<(u32, usize), ParseError>)
    ensures
        match res {
            Ok((v, next)) => spec_parse_u32(input@, pos as int) == Ok::<(u32, int), ParseError>((v, next as int)),
            Err(e) => spec_parse_u32(input@, pos as int) == Err::<(u32, int), ParseError>(e),
        },
{
    if pos >= input.len() {
        Err(ParseError::Incomplete(4))
    } else if input.len() - pos < 4 {
        Err(ParseError::Incomplete(4 - (input.len() - pos)))
    } else {
        let v: u32 = (input[pos] as u32) * 0x100_0000 + (input[pos + 1] as u32) * 0x1_0000
            + (input[pos + 2] as u32) * 256 + (input[pos + 3] as u32);
        Ok((v, pos + 4))
    }
}

/// What the big-endian encoding of a Two Byte Integer reads back as.
pub proof fn lemma_u16_roundtrip(v: u16, prefix: Seq<u8>, suffix: Seq<u8>)
    ensures
        spec_parse_u16(prefix + spec_u16_be(v) + suffix, prefix.len() as int) == Ok::<
            (u16, int),
            ParseError,
        >((v, (prefix.len() + 2) as int)),
{
    let s = prefix + spec_u16_be(v) + suffix;
    assert(s[prefix.len() as int] == (v / 256) as u8);
    assert(s[prefix.len() as int + 1] == (v % 256) as u8);
}

/// What the big-endian encoding of a Four Byte Integer reads back as.
pub proof fn lemma_u32_roundtrip(v: u32, prefix: Seq<u8>, suffix: Seq<u8>)
    ensures
        spec_parse_u32(prefix + spec_u32_be(v) + suffix, prefix.len() as int) == Ok::<
            (u32, int),
            ParseError,
        >((v, (prefix.len() + 4) as int)),
{
    let s = prefix + spec_u32_be(v) + suffix;
    let p = prefix.len() as int;
    assert(s[p] == (v / 0x100_0000) as u8);
    assert(s[p + 1] == ((v / 0x1_0000) % 256) as u8);
    assert(s[p + 2] == ((v / 256) % 256) as u8);
    assert(s[p + 3] == (v % 256) as u8);
}

// ---------------------------------------------------------------------------
// UTF-8 Encoded Strings and Binary Data
// ---------------------------------------------------------------------------

/// The UTF-8 bytes of a sequence of characters.
#[verifier::opaque]
pub open spec fn utf8_bytes(c: Seq<char>) -> Seq<u8> {
    encode_utf8(c)
}

/// Whether bytes are valid UTF-8.
#[verifier::opaque]
pub open spec fn utf8_valid(b: Seq<u8>) -> bool {
    valid_utf8(b)
}

/// The characters that valid UTF-8 bytes decode to.
#[verifier::opaque]
pub open spec fn utf8_chars(b: Seq<u8>) -> Seq<char> {
    decode_utf8(b)
}

/// Binary Data: a Two Byte Integer length (the length taken modulo 2^16), then the bytes.
pub open spec fn spec_encode_binary(b: Seq<u8>) -> Seq<u8> {
    spec_u16_be(b.len() as u16) + b
}

/// UTF-8 Encoded String: the UTF-8 bytes of the characters, as Binary Data.
pub open spec fn spec_encode_string(s: Seq<char>) -> Seq<u8> {
    spec_encode_binary(utf8_bytes(s))
}

/// Parsing Binary Data at `pos`.
pub open spec fn spec_parse_binary(s: Seq<u8>, pos: int) -> Result<(Seq<u8>, int), ParseError> {
    match spec_parse_u16(s, pos) {
        Err(e) => Err(e),
        Ok((len, start)) => if start + len > s.len() {
            Err(ParseError::Incomplete((start + len - s.len()) as usize))
        } else {
            Ok((s.subrange(start, start + len), start + len))
        },
    }
}

/// Parsing a UTF-8 Encoded String at `pos`: Binary Data that must be valid UTF-8.
pub open spec fn spec_parse_string(s: Seq<u8>, pos: int) -> Result<(Seq<char>, int), ParseError> {
    match spec_parse_binary(s, pos) {
        Err(e) => Err(e),
        Ok((b, next)) => if utf8_valid(b) {
            Ok((utf8_chars(b), next))
        } else {
            Err(ParseError::Malformed)
        },
    }
}

/// Whether a string can be written as a UTF-8 Encoded String: its UTF-8 form fits a Two
/// Byte Integer length.
pub open spec fn string_fits(s: Seq<char>) -> bool {
    utf8_bytes(s).len() <= u16::MAX
}

/// Whether bytes can be written as Binary Data.
pub open spec fn binary_fits(b: Seq<u8>) -> bool {
    b.len() <= u16::MAX
}

/// What Binary Data reads back as.
pub proof fn lemma_binary_roundtrip(b: Seq<u8>, prefix: Seq<u8>, suffix: Seq<u8>)
    requires
        binary_fits(b),
    ensures
        spec_parse_binary(prefix + spec_encode_binary(b) + suffix, prefix.len() as int) == Ok::<
            (Seq<u8>, int),
            ParseError,
        >((b, (prefix.len() + 2 + b.len()) as int)),
{
    let s = prefix + spec_encode_binary(b) + suffix;
    assert(s == prefix + spec_u16_be(b.len() as u16) + (b + suffix));
    lemma_u16_roundtrip(b.len() as u16, prefix, b + suffix);
    let start = prefix.len() as int + 2;
    assert(s.subrange(start, start + b.len() as int) =~= b);
}

proof fn lemma_parse_string_of_binary(s: Seq<u8>, pos: int, b: Seq<u8>, next: int)
    requires
        spec_parse_binary(s, pos) == Ok::<(Seq<u8>, int), ParseError>((b, next)),
        utf8_valid(b),
    ensures
        spec_parse_string(s, pos) == Ok::<(Seq<char>, int), ParseError>((utf8_chars(b), next)),
{
}

pub proof fn lemma_utf8_roundtrip(c: Seq<char>)
    ensures
        utf8_valid(utf8_bytes(c)),
        utf8_chars(utf8_bytes(c)) == c,
{
    reveal(utf8_valid);
    reveal(utf8_chars);
    reveal(utf8_bytes);
    encode_utf8_valid_utf8(c);
    encode_utf8_decode_utf8(c);
}

/// What a UTF-8 Encoded String reads back as.
#[verifier::spinoff_prover]
pub proof fn lemma_string_roundtrip(c: Seq<char>, prefix: Seq<u8>, suffix: Seq<u8>)
    requires
        string_fits(c),
    ensures
        spec_parse_string(prefix + spec_encode_string(c) + suffix, prefix.len() as int) == Ok::<
            (Seq<char>, int),
            ParseError,
        >((c, (prefix.len() + spec_encode_string(c).len()) as int)),
{
    let b = utf8_bytes(c);
    lemma_binary_roundtrip(b, prefix, suffix);
    lemma_utf8_roundtrip(c);
    lemma_parse_string_of_binary(
        prefix + spec_encode_binary(b) + suffix,
        prefix.len() as int,
        b,
        (prefix.len() + 2 + b.len()) as int,
    );
}

/// Converts bytes to a string slice, when they are valid UTF-8.
///
/// Calls `std::str::from_utf8`, which returns `Ok` exactly when the bytes are valid UTF-8,
/// and then a string slice whose bytes are the given ones (the same memory, not a copy).
#[verifier::external_body]
fn str_from_utf8(bytes: &[u8]) -> (res: Option<&str>)
    ensures
        res is Some <==> valid_utf8(bytes@),
        res matches Some(s) ==> s.spec_bytes() == bytes@,
{
    std::str::from_utf8(bytes).ok()
}

/// Encodes binary data: its length as a Two Byte Integer (modulo 2^16), then the bytes.
pub fn encode_binary(binary: &[u8]) -> (res: Vec<u8>)
    ensures
        res@ == spec_encode_binary(binary@),
{
    let mut result = u16_to_be_bytes(binary.len() as u16);
    push_all(&mut result, binary);
    result
}

/// Encodes a UTF-8 Encoded String.
pub fn encode_string(string: &str) -> (res: Vec<u8>)
    ensures
        res@ == spec_encode_string(string@),
{
    let bytes: &[u8] = string.as_bytes();
    proof {
        reveal(utf8_bytes);
    }
    let mut result = u16_to_be_bytes(bytes.len() as u16);
    push_all(&mut result, bytes);
    result
}

/// Parses Binary Data at `pos`.
pub fn parse_binary_data(input: &[u8], pos: usize) -> (res: Result<(Vec<u8>, usize), ParseError>)
    ensures
        match res {
            Ok((b, next)) => spec_parse_binary(input@, pos as int) == Ok::<(Seq<u8>, int), ParseError>(
                (b@, next as int),
            ),
            Err(e) => spec_parse_binary(input@, pos as int) == Err::<(Seq<u8>, int), ParseError>(e),
        },
{
    let (len, start) = parse_u16(input, pos)?;
    if input.len() - start < len as usize {
        return Err(ParseError::Incomplete(len as usize - (input.len() - start)));
    }
    let end = start + len as usize;
    let bytes = vstd::slice::slice_to_vec(vstd::slice::slice_subrange(input, start, end));
    Ok((bytes, end))
}

/// Parses a UTF-8 Encoded String at `pos`.
pub fn parse_string(input: &[u8], pos: usize) -> (res: Result<(String, usize), ParseError>)
    ensures
        match res {
            Ok((st, next)) => spec_parse_string(input@, pos as int) == Ok::<(Seq<char>, int), ParseError>(
                (st@, next as int),
            ),
            Err(e) => spec_parse_string(input@, pos as int) == Err::<(Seq<char>, int), ParseError>(e),
        },
{
    let (len, start) = parse_u16(input, pos)?;
    if input.len() - start < len as usize {
        return Err(ParseError::Incomplete(len as usize - (input.len() - start)));
    }
    let end = start + len as usize;
    let bytes = vstd::slice::slice_subrange(input, start, end);
    match str_from_utf8(bytes) {
        Some(s) => {
            proof {
                reveal(utf8_valid);
                reveal(utf8_chars);
                decode_utf8_encode_utf8(bytes@);
                encode_utf8_decode_utf8(s@);
            }
            Ok((s.to_owned(), end))
        },
        None => {
            proof {
                reveal(utf8_valid);
            }
            Err(ParseError::Malformed)
        },
    }
}

} // verus!
