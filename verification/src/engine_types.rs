use vstd::prelude::*;
use crate::reader::ByteReader;
use crate::bitmath::le_value;
use crate::parse_tools::parse_f64_bits;

verus! {

/// A vector of three 64-bit floats, each kept as its IEEE-754 bit pattern.
#[derive(Debug, Clone, Copy, PartialEq, Eq)]
pub struct Vector3F64 {
    pub x: u64,
    pub y: u64,
    pub z: u64,
}

/// The vector stored in the first 24 bytes of `s`.
pub open spec fn vector_at(s: Seq<u8>) -> Vector3F64 {
    Vector3F64 {
        x: le_value(s.subrange(0, 8)) as u64,
        y: le_value(s.subrange(8, 16)) as u64,
        z: le_value(s.subrange(16, 24)) as u64,
    }
}

impl Vector3F64 {
    /// Reads three little-endian 64-bit floats.  Fails, having consumed
    /// everything, when fewer than 24 bytes are left.
    pub fn from_readable(reader: &mut ByteReader) -> (r: Result<Self, &'static str>)
        requires
            old(reader).wf(),
        ensures
            final(reader).wf(),
            old(reader)@.len() >= 24 ==> r == Ok::<Self, &'static str>(vector_at(old(reader)@))
                && final(reader)@ == old(reader)@.skip(24),
            old(reader)@.len() < 24 ==> r == Err::<Self, &'static str>("couldn't parse vector")
                && final(reader)@ == Seq::<u8>::empty(),
    {
        let ghost s = reader@;
        let x = parse_f64_bits(reader);
        let y = parse_f64_bits(reader);
        let z = parse_f64_bits(reader);
        match (x, y, z) {
            (Ok(x), Ok(y), Ok(z)) => {
                proof {
                    assert(s.take(8) =~= s.subrange(0, 8));
                    assert(s.skip(8).take(8) =~= s.subrange(8, 16));
                    assert(s.skip(8).skip(8).take(8) =~= s.subrange(16, 24));
                    assert(s.skip(8).skip(8).skip(8) =~= s.skip(24));
                }
                Ok(Self { x, y, z })
            },
            _ => Err("couldn't parse vector"),
        }
    }
}

} // verus!
