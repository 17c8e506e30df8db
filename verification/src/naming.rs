use vstd::prelude::*;
use vstd::utf8::{encode_utf8, encode_scalar, decode_utf8, encode_utf8_valid_utf8, encode_utf8_decode_utf8};
use crate::parse_tools::utf8_to_string;

verus! {

/// Whether a byte is an ASCII capital letter.
pub open spec fn is_upper(b: u8) -> bool {
    65 <= b <= 90
}

/// A byte with its ASCII letter case changed to upper (`screaming`) or lower case.
pub open spec fn case_of(b: u8, screaming: bool) -> u8 {
    if screaming && 97 <= b <= 122 {
        (b - 32) as u8
    } else if !screaming && is_upper(b) {
        (b + 32) as u8
    } else {
        b
    }
}

/// The snake-case form of the identifier with the given bytes: each byte,
/// its case changed, becomes a character (a byte above 127 the character
/// with that code), and an underscore goes before a capital letter unless
/// it would come first or follow another underscore.
pub open spec fn snake_spec(bytes: Seq<u8>, screaming: bool) -> Seq<char>
    decreases bytes.len(),
{
    if bytes.len() == 0 {
        Seq::empty()
    } else {
        let prev = snake_spec(bytes.drop_last(), screaming);
        let c = bytes.last();
        let with_sep = if is_upper(c) && prev.len() > 0 && prev.last() != '_' {
            prev.push('_')
        } else {
            prev
        };
        with_sep.push(case_of(c, screaming) as char)
    }
}

/// Encoding one more character appends its encoding.
pub proof fn lemma_encode_push(s: Seq<char>, c: char)
    ensures
        encode_utf8(s.push(c)) == encode_utf8(s) + encode_scalar(c as u32),
    decreases s.len(),
{
    let t = s.push(c);
    assert(t[0] == if s.len() == 0 { c } else { s[0] });
    assert(encode_utf8(t) == encode_scalar(t[0] as u32) + encode_utf8(t.drop_first()));
    if s.len() == 0 {
        assert(t.drop_first() =~= Seq::<char>::empty());
        assert(encode_utf8(s) =~= Seq::<u8>::empty());
        assert(encode_scalar(c as u32) + Seq::<u8>::empty() =~= encode_scalar(c as u32));
        assert(Seq::<u8>::empty() + encode_scalar(c as u32) =~= encode_scalar(c as u32));
    } else {
        lemma_encode_push(s.drop_first(), c);
        assert(t.drop_first() =~= s.drop_first().push(c));
        assert(encode_scalar(s[0] as u32) + (encode_utf8(s.drop_first()) + encode_scalar(c as u32)) =~= (
        encode_scalar(s[0] as u32) + encode_utf8(s.drop_first())) + encode_scalar(c as u32));
    }
}

/// The encoding of a character below 256.
pub proof fn lemma_encode_small(x: u8)
    ensures
        x < 128 ==> encode_scalar((x as char) as u32) == seq![x],
        x >= 128 ==> encode_scalar((x as char) as u32) == seq![0xC0u8 | (x >> 6), 0x80u8 | (x & 0x3F)],
{
    let s = (x as char) as u32;
    assert(s == x as u32);
    if x < 128 {
        assert((s & 0x7F) as u8 == x) by (bit_vector)
            requires
                s == x as u32,
                x < 128,
        ;
    } else {
        assert(0xC0u8 | ((s >> 6) & 0x1F) as u8 == 0xC0u8 | (x >> 6) && 0x80u8 | (s & 0x3F) as u8 == 0x80u8 | (x
            & 0x3F)) by (bit_vector)
            requires
                s == x as u32,
        ;
    }
}

/// The last byte of an encoding is an underscore exactly when the last
/// character is one.
proof fn lemma_last_byte_underscore(s: Seq<char>)
    requires
        s.len() > 0,
    ensures
        encode_utf8(s).len() > 0,
        (encode_utf8(s).last() == 95u8) == (s.last() == '_'),
{
    let init = s.drop_last();
    let c = s.last();
    assert(init.push(c) =~= s);
    lemma_encode_push(init, c);
    let x = c as u32;
    vstd::utf8::char_is_scalar(c);
    let e = encode_scalar(x);
    assert(e.len() > 0);
    assert(encode_utf8(s).last() == e.last());
    if x <= 0x7F {
        assert((x & 0x7F) as u8 == 95u8 <==> x == 95u32) by (bit_vector)
            requires
                x <= 0x7F,
        ;
        vstd::utf8::char_u32_cast(c, x);
        assert(('_' as u32) == 95u32);
    } else {
        assert(0x80u8 | (x & 0x3F) as u8 != 95u8) by (bit_vector);
        assert(('_' as u32) == 95u32);
    }
}

/// Converts an identifier to snake case, in capitals when `screaming`.
pub fn to_snake(input: String, screaming: bool) -> (r: String)
    ensures
        r@ == snake_spec(encode_utf8(input@), screaming),
{
    let bytes = input.as_str().as_bytes();
    let ghost b = bytes@;
    let mut out: Vec<u8> = Vec::new();
    let ghost mut chars: Seq<char> = Seq::empty();
    let mut i: usize = 0;
    proof {
        assert(b.take(0) =~= Seq::<u8>::empty());
    }
    while i < bytes.len()
        invariant
            b == bytes@,
            b == encode_utf8(input@),
            i <= b.len(),
            chars == snake_spec(b.take(i as int), screaming),
            out@ == encode_utf8(chars),
        decreases b.len() - i,
    {
        let c = bytes[i];
        let ghost prev = chars;
        proof {
            assert(b.take(i as int + 1).drop_last() =~= b.take(i as int));
            assert(b.take(i as int + 1).last() == c);
        }
        if 65 <= c && c <= 90 {
            if out.len() > 0 {
                proof {
                    if chars.len() == 0 {
                        assert(encode_utf8(chars).len() == 0);
                    }
                    lemma_last_byte_underscore(chars);
                }
                if out[out.len() - 1] != 95 {
                    proof {
                        lemma_encode_push(chars, '_');
                        lemma_encode_small(95u8);
                        chars = chars.push('_');
                    }
                    out.push(95);
                }
            } else {
                proof {
                    if chars.len() > 0 {
                        lemma_last_byte_underscore(chars);
                    }
                }
            }
        }
        let ch: u8 = if screaming && 97 <= c && c <= 122 {
            c - 32
        } else if !screaming && 65 <= c && c <= 90 {
            c + 32
        } else {
            c
        };
        proof {
            lemma_encode_push(chars, ch as char);
            lemma_encode_small(ch);
        }
        if ch < 128 {
            out.push(ch);
        } else {
            out.push(0xC0 | (ch >> 6));
            out.push(0x80 | (ch & 0x3F));
        }
        proof {
            chars = chars.push(ch as char);
        }
        i = i + 1;
    }
    proof {
        assert(b.take(b.len() as int) =~= b);
        encode_utf8_valid_utf8(chars);
        encode_utf8_decode_utf8(chars);
    }
    match utf8_to_string(out) {
        Some(s) => s,
        None => {
            proof {
                assert(false);
            }
            String::new()
        },
    }
}

} // verus!
