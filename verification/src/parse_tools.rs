use vstd::prelude::*;
use vstd::string::StringExecFns;
use vstd::utf8::{valid_utf8, decode_utf8};
use vstd::arithmetic::power2::{pow2, lemma2_to64, lemma2_to64_rest, lemma_pow2_adds, lemma_pow2_pos, lemma_pow2_strictly_increases};
use crate::reader::ByteReader;
use crate::bitmath::{le_value, lemma_le_value_bound, lemma_pow2_8};
use crate::event_data::EventData;

verus! {

/// `String::from_utf8`: the bytes as a string when they are valid UTF-8.
#[verifier::external_body]
pub(crate) fn utf8_to_string(bytes: Vec<u8>) -> (r: Option<String>)
    ensures
        r is Some <==> valid_utf8(bytes@),
        r matches Some(s) ==> s@ == decode_utf8(bytes@),
{
    String::from_utf8(bytes).ok()
}

/// The little-endian value of at most eight bytes.
fn le_from_bytes(v: &Vec<u8>) -> (r: u64)
    requires
        v@.len() <= 8,
    ensures
        r as nat == le_value(v@),
{
    let mut acc: u64 = 0;
    let mut i: usize = v.len();
    proof {
        assert(v@.skip(v@.len() as int).len() == 0);
        lemma2_to64();
    }
    while i > 0
        invariant
            i <= v@.len() <= 8,
            acc as nat == le_value(v@.skip(i as int)),
        decreases i,
    {
        let ghost old_i = i;
        i = i - 1;
        proof {
            let t = v@.skip(i as int);
            assert(t.drop_first() =~= v@.skip(old_i as int));
            assert(t[0] == v@[i as int]);
            lemma_le_value_bound(v@.skip(old_i as int));
            assert(v@.skip(old_i as int).len() <= 7);
            lemma2_to64_rest();
            if v@.skip(old_i as int).len() < 7 {
                lemma_pow2_strictly_increases(8 * v@.skip(old_i as int).len(), 56);
            }
            assert(acc < 0x0100_0000_0000_0000u64);
        }
        acc = v[i] as u64 + 256 * acc;
    }
    proof {
        assert(v@.skip(0) =~= v@);
    }
    acc
}

/// Reads one byte.
pub fn parse_u8(reader: &mut ByteReader) -> (r: Result<u8, &'static str>)
    requires
        old(reader).wf(),
    ensures
        final(reader).wf(),
        old(reader)@.len() >= 1 ==> r == Ok::<u8, &'static str>(old(reader)@[0])
            && final(reader)@ == old(reader)@.skip(1),
        old(reader)@.len() < 1 ==> r == Err::<u8, &'static str>("couldn't read requested byte from buffer")
            && final(reader)@ == Seq::<u8>::empty(),
{
    match reader.read_byte() {
        Some(b) => {
            proof {
                assert(old(reader)@.drop_first() =~= old(reader)@.skip(1));
            }
            Ok(b)
        },
        None => Err("couldn't read requested byte from buffer"),
    }
}

/// Reads a little-endian `u16`.
pub fn parse_u16(reader: &mut ByteReader) -> (r: Result<u16, &'static str>)
    requires
        old(reader).wf(),
    ensures
        final(reader).wf(),
        old(reader)@.len() >= 2 ==> r == Ok::<u16, &'static str>(le_value(old(reader)@.take(2)) as u16)
            && final(reader)@ == old(reader)@.skip(2),
        old(reader)@.len() < 2 ==> r == Err::<u16, &'static str>("couldn't read requested bytes from buffer")
            && final(reader)@ == Seq::<u8>::empty(),
{
    match reader.read_exact(2) {
        Some(v) => {
            let x = le_from_bytes(&v);
            proof {
                lemma_le_value_bound(v@);
                lemma2_to64();
            }
            Ok(x as u16)
        },
        None => Err("couldn't read requested bytes from buffer"),
    }
}

/// Reads a little-endian `u32`.
pub fn parse_u32(reader: &mut ByteReader) -> (r: Result<u32, &'static str>)
    requires
        old(reader).wf(),
    ensures
        final(reader).wf(),
        old(reader)@.len() >= 4 ==> r == Ok::<u32, &'static str>(le_value(old(reader)@.take(4)) as u32)
            && final(reader)@ == old(reader)@.skip(4),
        old(reader)@.len() < 4 ==> r == Err::<u32, &'static str>("couldn't read requested bytes from buffer")
            && final(reader)@ == Seq::<u8>::empty(),
{
    match reader.read_exact(4) {
        Some(v) => {
            let x = le_from_bytes(&v);
            proof {
                lemma_le_value_bound(v@);
                lemma2_to64();
            }
            Ok(x as u32)
        },
        None => Err("couldn't read requested bytes from buffer"),
    }
}

/// Reads a little-endian two's complement `i32`.
pub fn parse_i32(reader: &mut ByteReader) -> (r: Result<i32, &'static str>)
    requires
        old(reader).wf(),
    ensures
        final(reader).wf(),
        old(reader)@.len() >= 4 ==> r == Ok::<i32, &'static str>(le_value(old(reader)@.take(4)) as i32)
            && final(reader)@ == old(reader)@.skip(4),
        old(reader)@.len() < 4 ==> r == Err::<i32, &'static str>("couldn't read requested bytes from buffer")
            && final(reader)@ == Seq::<u8>::empty(),
{
    match reader.read_exact(4) {
        Some(v) => {
            let x = le_from_bytes(&v);
            Ok(x as i32)
        },
        None => Err("couldn't read requested bytes from buffer"),
    }
}

/// Reads the four bytes of a little-endian `f32` as its bit pattern.
pub fn parse_f32_bits(reader: &mut ByteReader) -> (r: Result<u32, &'static str>)
    requires
        old(reader).wf(),
    ensures
        final(reader).wf(),
        old(reader)@.len() >= 4 ==> r == Ok::<u32, &'static str>(le_value(old(reader)@.take(4)) as u32)
            && final(reader)@ == old(reader)@.skip(4),
        old(reader)@.len() < 4 ==> r == Err::<u32, &'static str>("couldn't read requested bytes from buffer")
            && final(reader)@ == Seq::<u8>::empty(),
{
    match reader.read_exact(4) {
        Some(v) => {
            let x = le_from_bytes(&v);
            Ok(x as u32)
        },
        None => Err("couldn't read requested bytes from buffer"),
    }
}

/// Reads the eight bytes of a little-endian `f64` as its bit pattern.
pub fn parse_f64_bits(reader: &mut ByteReader) -> (r: Result<u64, &'static str>)
    requires
        old(reader).wf(),
    ensures
        final(reader).wf(),
        old(reader)@.len() >= 8 ==> r == Ok::<u64, &'static str>(le_value(old(reader)@.take(8)) as u64)
            && final(reader)@ == old(reader)@.skip(8),
        old(reader)@.len() < 8 ==> r == Err::<u64, &'static str>("couldn't read requested bytes from buffer")
            && final(reader)@ == Seq::<u8>::empty(),
{
    match reader.read_exact(8) {
        Some(v) => {
            let x = le_from_bytes(&v);
            Ok(x)
        },
        None => Err("couldn't read requested bytes from buffer"),
    }
}

/// The concatenation of two strings.
pub fn join_str(a: &str, b: &str) -> (s: String)
    ensures
        s@ == a@ + b@,
{
    let mut s = a.to_owned();
    s.append(b);
    s
}

/// Reads a little-endian two's complement `i64`.
pub fn parse_i64(reader: &mut ByteReader) -> (r: Result<i64, &'static str>)
    requires
        old(reader).wf(),
    ensures
        final(reader).wf(),
        old(reader)@.len() >= 8 ==> r == Ok::<i64, &'static str>(le_value(old(reader)@.take(8)) as i64)
            && final(reader)@ == old(reader)@.skip(8),
        old(reader)@.len() < 8 ==> r == Err::<i64, &'static str>("couldn't read requested bytes from buffer")
            && final(reader)@ == Seq::<u8>::empty(),
{
    match reader.read_exact(8) {
        Some(v) => {
            let x = le_from_bytes(&v);
            Ok(x as i64)
        },
        None => Err("couldn't read requested bytes from buffer"),
    }
}

/// The index of the first zero byte of `s`, or its length when it holds none.
pub open spec fn first_zero(s: Seq<u8>) -> nat
    decreases s.len(),
{
    if s.len() == 0 {
        0
    } else if s[0] == 0 {
        0
    } else {
        1 + first_zero(s.drop_first())
    }
}

pub proof fn lemma_first_zero(s: Seq<u8>)
    ensures
        first_zero(s) <= s.len(),
        forall|j: int| 0 <= j < first_zero(s) ==> s[j] != 0,
        first_zero(s) < s.len() ==> s[first_zero(s) as int] == 0,
    decreases s.len(),
{
    if s.len() > 0 && s[0] != 0 {
        lemma_first_zero(s.drop_first());
        assert forall|j: int| 0 <= j < first_zero(s) implies s[j] != 0 by {
            if j > 0 {
                assert(s[j] == s.drop_first()[j - 1]);
            }
        }
    }
}

proof fn lemma_first_zero_unique(s: Seq<u8>, k: int)
    requires
        0 <= k <= s.len(),
        forall|j: int| 0 <= j < k ==> s[j] != 0,
        k < s.len() ==> s[k] == 0,
    ensures
        first_zero(s) == k,
    decreases s.len(),
{
    if s.len() > 0 && k > 0 {
        lemma_first_zero_unique(s.drop_first(), k - 1);
    }
}

/// Reads `length` bytes and decodes the part before the first zero byte as UTF-8.
pub fn parse_fixed_width_string(reader: &mut ByteReader, length: usize) -> (r: Result<String, &'static str>)
    requires
        old(reader).wf(),
    ensures
        final(reader).wf(),
        length > old(reader)@.len() ==> r == Err::<String, &'static str>("couldn't read requested bytes from buffer")
            && final(reader)@ == Seq::<u8>::empty(),
        length <= old(reader)@.len() ==> final(reader)@ == old(reader)@.skip(length as int) && {
            let field = old(reader)@.take(length as int);
            let raw = field.take(first_zero(field) as int);
            &&& valid_utf8(raw) ==> (r matches Ok(s) && s@ == decode_utf8(raw))
            &&& !valid_utf8(raw) ==> r == Err::<String, &'static str>("couldn't parse bytes as valid utf-8 string")
        },
{
    let buf = match reader.read_exact(length) {
        Some(v) => v,
        None => return Err("couldn't read requested bytes from buffer"),
    };
    let mut n: usize = 0;
    while n < buf.len() && buf[n] != 0
        invariant
            n <= buf@.len(),
            forall|j: int| 0 <= j < n ==> buf@[j] != 0,
        decreases buf@.len() - n,
    {
        n = n + 1;
    }
    proof {
        lemma_first_zero_unique(buf@, n as int);
    }
    let mut raw: Vec<u8> = Vec::new();
    let mut i: usize = 0;
    while i < n
        invariant
            n <= buf@.len(),
            i <= n,
            raw@ =~= buf@.take(i as int),
        decreases n - i,
    {
        raw.push(buf[i]);
        i = i + 1;
    }
    match utf8_to_string(raw) {
        Some(s) => Ok(s),
        None => Err("couldn't parse bytes as valid utf-8 string"),
    }
}

/// Reading a zero-terminated string from the start of `s`: the text or
/// the details of the failure, and the bytes left.
pub open spec fn cstr_spec(s: Seq<u8>) -> (Result<Seq<char>, Seq<char>>, Seq<u8>) {
    let z = first_zero(s);
    if z == s.len() {
        (Err("couldn't read from buffer"@), Seq::empty())
    } else {
        let raw = s.take(z as int);
        (
            if valid_utf8(raw) {
                Ok(decode_utf8(raw))
            } else {
                Err("couldn't parse bytes as valid utf-8 string"@)
            },
            s.skip(z as int + 1),
        )
    }
}

/// Whether a string result is the one its model describes.
pub open spec fn str_result_matches(r: Result<String, &'static str>, m: Result<Seq<char>, Seq<char>>) -> bool {
    match m {
        Ok(t) => r matches Ok(x) && x@ == t,
        Err(d) => r matches Err(x) && x@ == d,
    }
}

/// Reads a zero-terminated string and decodes it, without its terminator, as UTF-8.
pub fn parse_cstr(reader: &mut ByteReader) -> (r: Result<String, &'static str>)
    requires
        old(reader).wf(),
    ensures
        final(reader).wf(),
        first_zero(old(reader)@) == old(reader)@.len() ==> r == Err::<String, &'static str>(
            "couldn't read from buffer",
        ) && final(reader)@ == Seq::<u8>::empty(),
        first_zero(old(reader)@) < old(reader)@.len() ==> final(reader)@ == old(reader)@.skip(
            first_zero(old(reader)@) as int + 1,
        ) && {
            let raw = old(reader)@.take(first_zero(old(reader)@) as int);
            &&& valid_utf8(raw) ==> (r matches Ok(s) && s@ == decode_utf8(raw))
            &&& !valid_utf8(raw) ==> r == Err::<String, &'static str>("couldn't parse bytes as valid utf-8 string")
        },
        final(reader)@ == cstr_spec(old(reader)@).1,
        str_result_matches(r, cstr_spec(old(reader)@).0),
{
    let ghost s = reader@;
    proof {
        lemma_first_zero(s);
        assert(s == old(reader)@);
    }
    let mut raw: Vec<u8> = Vec::new();
    loop
        invariant
            reader.wf(),
            s == old(reader)@,
            raw@.len() <= s.len(),
            raw@ =~= s.take(raw@.len() as int),
            reader@ =~= s.skip(raw@.len() as int),
            forall|j: int| 0 <= j < raw@.len() ==> s[j] != 0,
            first_zero(s) <= s.len(),
            forall|j: int| 0 <= j < first_zero(s) ==> s[j] != 0,
            first_zero(s) < s.len() ==> s[first_zero(s) as int] == 0,
        decreases s.len() - raw@.len(),
    {
        let ghost before = reader@;
        match reader.read_byte() {
            Some(c) => {
                proof {
                    assert(before[0] == s[raw@.len() as int]);
                    assert(reader@ =~= s.skip(raw@.len() as int + 1));
                }
                if c == 0 {
                    proof {
                        lemma_first_zero_unique(s, raw@.len() as int);
                        assert(first_zero(old(reader)@) == raw@.len());
                        assert(raw@ =~= old(reader)@.take(first_zero(old(reader)@) as int));
                    }
                    return match utf8_to_string(raw) {
                        Some(st) => Ok(st),
                        None => Err("couldn't parse bytes as valid utf-8 string"),
                    };
                }
                raw.push(c);
            },
            None => {
                proof {
                    assert(raw@.len() == s.len());
                    lemma_first_zero_unique(s, s.len() as int);
                    assert(first_zero(old(reader)@) == old(reader)@.len());
                }
                return Err("couldn't read from buffer");
            },
        }
    }
}

/// How reading a variable-length integer ended.
pub enum ParseVarIntExit {
    /// The decoded value.
    Value(u64),
    /// Ten bytes were read and each of them announced another one.
    TooLong(EventData, [u8; 10]),
    /// The input ended before the last byte.
    BufferErr(EventData),
}

/// The index of the last byte of the variable-length integer that starts
/// `s`, looking from index `i` on: the first byte without its high bit, the
/// end of `s`, or index ten, whichever comes first.
pub open spec fn varint_end(s: Seq<u8>, i: nat) -> nat
    decreases 10 - i,
{
    if i >= 10 || i >= s.len() || s[i as int] < 128 {
        i
    } else {
        varint_end(s, i + 1)
    }
}

/// The sum of the low seven bits of the first `n` bytes of `s`, byte `k`
/// weighted by `2^(7k)`.
pub open spec fn varint_sum(s: Seq<u8>, n: nat) -> nat
    decreases n,
{
    if n == 0 {
        0
    } else {
        varint_sum(s, (n - 1) as nat) + (s[n - 1] % 128) as nat * pow2(7 * (n - 1) as nat)
    }
}

proof fn lemma_varint_end(s: Seq<u8>, i: nat)
    requires
        i <= 10,
        i <= s.len(),
        forall|k: int| 0 <= k < i ==> s[k] >= 128,
    ensures
        varint_end(s, 0) == varint_end(s, i),
    decreases i,
{
    if i > 0 {
        lemma_varint_end(s, (i - 1) as nat);
    }
}

proof fn lemma_varint_step(s: Seq<u8>, i: nat)
    requires
        i <= 8,
        i < s.len(),
        varint_sum(s, i) < pow2(7 * i),
    ensures
        varint_sum(s, i + 1) < pow2(7 * (i + 1)),
        varint_sum(s, i + 1) == varint_sum(s, i) + (s[i as int] % 128) as nat * pow2(7 * i),
        pow2(7 * (i + 1)) <= pow2(63),
        pow2(7 * (i + 1)) == pow2(7 * i) * 128,
{
    lemma_pow2_adds(7 * i, 7);
    lemma2_to64();
    assert(7 * (i + 1) == 7 * i + 7);
    let a = varint_sum(s, i);
    let b = (s[i as int] % 128) as nat;
    let p = pow2(7 * i);
    assert(a + b * p < p * 128) by (nonlinear_arith)
        requires
            a < p,
            b < 128,
    ;
    if i < 8 {
        lemma_pow2_strictly_increases(7 * (i + 1), 63);
    }
}

/// The value of the variable-length integer that starts `s` (when it is well
/// formed) and the bytes that are left once it has been read.
pub open spec fn spec_varint(s: Seq<u8>) -> (Option<u64>, Seq<u8>) {
    let j = varint_end(s, 0);
    if j == 10 {
        (None, s.skip(10))
    } else if j >= s.len() {
        (None, Seq::<u8>::empty())
    } else {
        (Some((varint_sum(s, j + 1) % pow2(64)) as u64), s.skip(j as int + 1))
    }
}

/// Reads a variable-length integer: little-endian groups of seven bits,
/// each byte's high bit announcing another byte, at most ten bytes.
pub fn parse_varint(reader: &mut ByteReader) -> (r: ParseVarIntExit)
    requires
        old(reader).wf(),
    ensures
        final(reader).wf(),
        ({
            let s = old(reader)@;
            let j = varint_end(s, 0);
            &&& j == 10 ==> (r matches ParseVarIntExit::TooLong(e, b) && b@ == s.take(10)
                && e.details@ == "too long"@) && final(reader)@ == s.skip(10)
            &&& (j < 10 && j >= s.len()) ==> (r matches ParseVarIntExit::BufferErr(e)
                && e.details@ == "bad u8 read"@) && final(reader)@ == Seq::<u8>::empty()
            &&& (j < 10 && j < s.len()) ==> r == ParseVarIntExit::Value(
                (varint_sum(s, j + 1) % pow2(64)) as u64,
            ) && final(reader)@ == s.skip(j as int + 1)
        }),
        final(reader)@ == spec_varint(old(reader)@).1,
        r is Value <==> spec_varint(old(reader)@).0 is Some,
        r matches ParseVarIntExit::Value(v) ==> spec_varint(old(reader)@).0 == Some(v),
{
    let ghost s = reader@;
    let mut value: u64 = 0;
    let mut bytes: Vec<u8> = Vec::new();
    let mut i: usize = 0;
    proof {
        lemma2_to64();
        lemma2_to64_rest();
    }
    while i < 10
        invariant
            reader.wf(),
            s == old(reader)@,
            i <= 10,
            i <= s.len(),
            reader@ =~= s.skip(i as int),
            bytes@ =~= s.take(i as int),
            forall|k: int| 0 <= k < i ==> s[k] >= 128,
            i <= 9 ==> varint_sum(s, i as nat) < pow2(7 * i as nat) && value == varint_sum(s, i as nat),
            pow2(63) == 0x8000_0000_0000_0000,
            pow2(64) == 0x1_0000_0000_0000_0000,
        decreases 10 - i,
    {
        proof {
            lemma_varint_end(s, i as nat);
        }
        let current_byte = match parse_u8(reader) {
            Ok(n) => n,
            Err(_e) => {
                return ParseVarIntExit::BufferErr(EventData::new("bad u8 read", "src/parse_tools.rs"));
            },
        };
        bytes.push(current_byte);
        let byte_value: u64 = (current_byte & 0x7f) as u64;
        assert(byte_value == current_byte % 128) by (bit_vector)
            requires
                byte_value == (current_byte & 0x7f) as u64,
        ;
        let shift: u64 = 7 * (i as u64);
        let ghost old_value = value;
        if i < 9 {
            proof {
                lemma_varint_step(s, i as nat);
                lemma_pow2_pos(7 * (i as nat));
                vstd::bits::lemma_u64_shl_is_mul(byte_value, shift);
                assert(byte_value * pow2(7 * i as nat) < pow2(63)) by (nonlinear_arith)
                    requires
                        byte_value < 128,
                        pow2(7 * (i as nat + 1)) == pow2(7 * (i as nat)) * 128,
                        pow2(7 * (i as nat + 1)) <= pow2(63),
                        pow2(7 * (i as nat)) > 0,
                ;
            }
            value = value + (byte_value << shift);
        } else {
            let ghost top = (byte_value % 2) as nat * pow2(63);
            assert((byte_value << 63u64) == (byte_value & 1) << 63u64) by (bit_vector);
            assert((byte_value & 1) << 63u64 == (byte_value % 2) * 0x8000_0000_0000_0000u64) by (bit_vector);
            proof {
                let a = varint_sum(s, 9);
                let sum10 = varint_sum(s, 10);
                assert(sum10 == a + byte_value as nat * pow2(63));
                assert(sum10 == (byte_value / 2) as nat * pow2(64) + (a + top)) by (nonlinear_arith)
                    requires
                        sum10 == a + byte_value as nat * pow2(63),
                        top == (byte_value % 2) as nat * pow2(63),
                        pow2(64) == 2 * pow2(63),
                ;
                assert(a + top < pow2(64));
                vstd::arithmetic::div_mod::lemma_fundamental_div_mod_converse_mod(
                    sum10 as int,
                    pow2(64) as int,
                    (byte_value / 2) as int,
                    (a + top) as int,
                );
            }
            value = value + (byte_value << shift);
        }
        proof {
            assert(bytes@ =~= s.take(i + 1));
        }
        if (current_byte & 0x80) == 0 {
            assert(current_byte < 128) by (bit_vector)
                requires
                    (current_byte & 0x80) == 0,
            ;
            proof {
                assert(varint_end(s, i as nat) == i);
                if i < 9 {
                    lemma_varint_step(s, i as nat);
                    lemma_pow2_strictly_increases(7 * (i + 1) as nat, 64);
                    vstd::arithmetic::div_mod::lemma_small_mod(varint_sum(s, (i + 1) as nat), pow2(64));
                }
            }
            return ParseVarIntExit::Value(value);
        }
        assert(current_byte >= 128) by (bit_vector)
            requires
                (current_byte & 0x80) != 0,
        ;
        i = i + 1;
    }
    proof {
        lemma_varint_end(s, 10);
    }
    let arr: [u8; 10] = [
        bytes[0], bytes[1], bytes[2], bytes[3], bytes[4],
        bytes[5], bytes[6], bytes[7], bytes[8], bytes[9],
    ];
    proof {
        assert(arr@ =~= s.take(10));
    }
    ParseVarIntExit::TooLong(EventData::new("too long", "src/parse_tools.rs"), arr)
}

/// The shortest variable-length encoding of `n`: its seven-bit groups from
/// the lowest, every byte but the last with its high bit set.
pub open spec fn varint_encoding(n: nat) -> Seq<u8>
    decreases n,
{
    if n < 128 {
        seq![n as u8]
    } else {
        seq![(n % 128 + 128) as u8] + varint_encoding(n / 128)
    }
}

/// The shape of an encoding: at most `m` bytes when `n < 2^(7m)`, every
/// byte but the last announcing another one.
proof fn lemma_varint_encoding_shape(n: nat, m: nat)
    requires
        m >= 1,
        n < pow2(7 * m),
    ensures
        1 <= varint_encoding(n).len() <= m,
        forall|k: int| 0 <= k < varint_encoding(n).len() - 1 ==> #[trigger] varint_encoding(n)[k] >= 128,
        varint_encoding(n).last() < 128,
    decreases n,
{
    let e = varint_encoding(n);
    if n >= 128 {
        lemma_pow2_adds(7 * (m - 1) as nat, 7);
        lemma2_to64();
        assert(7 * m == 7 * (m - 1) as nat + 7);
        let q = n / 128;
        let p = pow2(7 * (m - 1) as nat);
        assert(q < p) by (nonlinear_arith)
            requires
                n < p * 128,
                q == n / 128,
        ;
        if m == 1 {
            assert(p == 1) by {
                vstd::arithmetic::power2::lemma2_to64();
            }
        }
        lemma_varint_encoding_shape(q, (m - 1) as nat);
        let t = varint_encoding(q);
        assert(e == seq![(n % 128 + 128) as u8] + t);
        assert forall|k: int| 0 <= k < e.len() - 1 implies #[trigger] e[k] >= 128 by {
            if k > 0 {
                assert(e[k] == t[k - 1]);
            }
        }
        assert(e.last() == t.last());
    }
}

/// Summing seven-bit groups from the front: the first group plus 128 times
/// the sum of the others.
proof fn lemma_varint_sum_front(s: Seq<u8>, m: nat)
    requires
        1 <= m <= s.len(),
    ensures
        varint_sum(s, m) == (s[0] % 128) as nat + 128 * varint_sum(s.drop_first(), (m - 1) as nat),
    decreases m,
{
    lemma2_to64();
    let d = s.drop_first();
    if m == 1 {
        assert(varint_sum(s, 1) == varint_sum(s, 0) + (s[0] % 128) as nat * pow2(0));
        assert(varint_sum(d, 0) == 0);
    } else {
        lemma_varint_sum_front(s, (m - 1) as nat);
        assert(d[m - 2] == s[m - 1]);
        let e1: nat = 7 * (m - 2) as nat;
        let e2: nat = 7 * (m - 1) as nat;
        assert(e2 == e1 + 7);
        lemma_pow2_adds(e1, 7);
        let a = varint_sum(d, (m - 2) as nat);
        let b = (s[m - 1] % 128) as nat;
        let p = pow2(e1);
        assert(pow2(e2) == p * 128);
        assert(varint_sum(d, (m - 1) as nat) == a + b * p);
        assert(varint_sum(s, m) == varint_sum(s, (m - 1) as nat) + b * pow2(e2));
        assert(128 * (a + b * p) == 128 * a + b * (p * 128)) by (nonlinear_arith);
    }
}

/// The groups of an encoding sum to the encoded number.
proof fn lemma_varint_encoding_sum(n: nat, rest: Seq<u8>)
    ensures
        varint_sum(varint_encoding(n) + rest, varint_encoding(n).len()) == n,
    decreases n,
{
    let e = varint_encoding(n);
    let s = e + rest;
    lemma2_to64();
    lemma_pow2_adds(0, 0);
    if n < 128 {
        assert(e.len() == 1);
        assert(varint_sum(s, 0) == 0);
        assert(s[0] == n as u8);
        assert(pow2(0) == 1);
        assert(varint_sum(s, 1) == varint_sum(s, 0) + (s[0] % 128) as nat * pow2(0));
        assert((s[0] % 128) as nat == n);
    } else {
        let q = n / 128;
        let t = varint_encoding(q);
        lemma_varint_encoding_sum(q, rest);
        assert(e == seq![(n % 128 + 128) as u8] + t);
        assert(e.len() == t.len() + 1);
        assert(s.drop_first() =~= t + rest);
        lemma_varint_sum_front(s, e.len());
        assert(s[0] == (n % 128 + 128) as u8);
        assert((s[0] % 128) as nat == n % 128);
        assert(n == n % 128 + 128 * q);
    }
}

/// Reading the encoding of a number gives the number back and leaves what
/// follows the encoding.
pub proof fn law_varint_round_trip(n: u64, rest: Seq<u8>)
    ensures
        spec_varint(varint_encoding(n as nat) + rest) == (Some(n), rest),
{
    let e = varint_encoding(n as nat);
    let s = e + rest;
    lemma2_to64();
    lemma2_to64_rest();
    lemma_pow2_strictly_increases(64, 70);
    lemma_varint_encoding_shape(n as nat, 10);
    let len = e.len();
    assert forall|k: int| 0 <= k < len - 1 implies s[k] >= 128 by {
        assert(s[k] == e[k]);
    }
    lemma_varint_end(s, (len - 1) as nat);
    assert(s[len - 1] == e.last());
    assert(varint_end(s, (len - 1) as nat) == len - 1);
    lemma_varint_encoding_sum(n as nat, rest);
    assert((n as nat) % pow2(64) == n as nat) by {
        vstd::arithmetic::div_mod::lemma_small_mod(n as nat, pow2(64));
    }
    assert(s.skip(len as int) =~= rest);
}

} // verus!