use vstd::prelude::*;
use vstd::utf8::{valid_utf8, decode_utf8};
use crate::reader::ByteReader;
use crate::bitmath::le_value;
use crate::parse_tools::{
    parse_i32, parse_f32_bits, parse_fixed_width_string, join_str, utf8_to_string, first_zero,
};
use crate::message_schema::str_eq;

verus! {

/// The header at the start of a demo file.  `playback_time` holds the bits
/// of a 32-bit float.
#[derive(Debug, Clone)]
pub struct DemoHeader {
    pub demo_protocol: i32,
    pub network_protocol: i32,
    pub server_name: String,
    pub client_name: String,
    pub map_name: String,
    pub game_directory: String,
    pub playback_time: u32,
    pub ticks: i32,
    pub frames: i32,
    pub sign_on_length: i32,
}

/// The model of a demo header.
pub struct HeaderModel {
    pub demo_protocol: i32,
    pub network_protocol: i32,
    pub server_name: Seq<char>,
    pub client_name: Seq<char>,
    pub map_name: Seq<char>,
    pub game_directory: Seq<char>,
    pub playback_time: u32,
    pub ticks: i32,
    pub frames: i32,
    pub sign_on_length: i32,
}

/// The model of a demo header.
pub open spec fn header_view(h: DemoHeader) -> HeaderModel {
    HeaderModel {
        demo_protocol: h.demo_protocol,
        network_protocol: h.network_protocol,
        server_name: h.server_name@,
        client_name: h.client_name@,
        map_name: h.map_name@,
        game_directory: h.game_directory@,
        playback_time: h.playback_time,
        ticks: h.ticks,
        frames: h.frames,
        sign_on_length: h.sign_on_length,
    }
}

/// Whether the bits of a 32-bit float are those of a number below zero
/// (negative zero and NaNs are not).
pub open spec fn f32_bits_negative(b: u32) -> bool {
    0x8000_0000 < b && b <= 0xff80_0000
}

/// The 32-bit integer at byte `off` of `s`.
pub open spec fn i32_at(s: Seq<u8>, off: int) -> i32 {
    le_value(s.subrange(off, off + 4)) as i32
}

/// The text of the 260-byte string field at byte `off` of `s`: the bytes
/// before the first zero, decoded as UTF-8.
pub open spec fn name_at(s: Seq<u8>, off: int) -> Result<Seq<char>, Seq<char>> {
    let field = s.subrange(off, off + 260);
    let raw = field.take(first_zero(field) as int);
    if valid_utf8(raw) {
        Ok(decode_utf8(raw))
    } else {
        Err("couldn't parse bytes as valid utf-8 string"@)
    }
}

/// The error for a field that ends past the end of `s`.
pub open spec fn short_read(what: Seq<char>) -> Seq<char> {
    what + "couldn't read requested bytes from buffer"@
}

/// Reading a demo header from the start of `s`, field by field: the magic
/// string, two protocols (not negative), four names, the playback time,
/// ticks, frames and sign-on length (none of them negative).  The header
/// and the bytes left, or the details of the first failure.
pub open spec fn demo_header_spec(s: Seq<u8>) -> Result<(HeaderModel, Seq<u8>), Seq<char>> {
    if s.len() < 8 {
        Err("couldn't read header string"@)
    } else if !valid_utf8(s.take(8)) {
        Err("couldn't parse header string"@)
    } else if decode_utf8(s.take(8)) != "HL2DEMO\0"@ {
        Err("file magic header != HL2DEMO"@)
    } else if s.len() < 12 {
        Err(short_read("error parsing demo protocol: "@))
    } else if i32_at(s, 8) < 0 {
        Err("unexpected negative demo protocol"@)
    } else if s.len() < 16 {
        Err(short_read("error parsing network protocol: "@))
    } else if i32_at(s, 12) < 0 {
        Err("unexpected negative network protocol"@)
    } else if s.len() < 276 {
        Err(short_read("error parsing server name: "@))
    } else if name_at(s, 16) is Err {
        Err("error parsing server name: "@ + name_at(s, 16)->Err_0)
    } else if s.len() < 536 {
        Err(short_read("error parsing client name: "@))
    } else if name_at(s, 276) is Err {
        Err("error parsing client name: "@ + name_at(s, 276)->Err_0)
    } else if s.len() < 796 {
        Err(short_read("error parsing map name: "@))
    } else if name_at(s, 536) is Err {
        Err("error parsing map name: "@ + name_at(s, 536)->Err_0)
    } else if s.len() < 1056 {
        Err(short_read("error parsing game directory: "@))
    } else if name_at(s, 796) is Err {
        Err("error parsing game directory: "@ + name_at(s, 796)->Err_0)
    } else if s.len() < 1060 {
        Err(short_read("error parsing playback time: "@))
    } else if f32_bits_negative(le_value(s.subrange(1056, 1060)) as u32) {
        Err("unexpected negative playback time"@)
    } else if s.len() < 1064 {
        Err(short_read("error parsing ticks: "@))
    } else if i32_at(s, 1060) < 0 {
        Err("unexpected negative ticks"@)
    } else if s.len() < 1068 {
        Err(short_read("error parsing frames: "@))
    } else if i32_at(s, 1064) < 0 {
        Err("unexpected negative frames"@)
    } else if s.len() < 1072 {
        Err(short_read("error parsing sign on length: "@))
    } else if i32_at(s, 1068) < 0 {
        Err("unexpected negative sign on length"@)
    } else {
        Ok((
            HeaderModel {
                demo_protocol: i32_at(s, 8),
                network_protocol: i32_at(s, 12),
                server_name: name_at(s, 16)->Ok_0,
                client_name: name_at(s, 276)->Ok_0,
                map_name: name_at(s, 536)->Ok_0,
                game_directory: name_at(s, 796)->Ok_0,
                playback_time: le_value(s.subrange(1056, 1060)) as u32,
                ticks: i32_at(s, 1060),
                frames: i32_at(s, 1064),
                sign_on_length: i32_at(s, 1068),
            },
            s.skip(1072),
        ))
    }
}

/// Reads a 32-bit integer that must not be negative.
fn read_count(reader: &mut ByteReader, what: &str, negative: &'static str) -> (r: Result<i32, String>)
    requires
        old(reader).wf(),
    ensures
        final(reader).wf(),
        old(reader)@.len() < 4 ==> (r matches Err(e) && e@ == what@ + "couldn't read requested bytes from buffer"@),
        old(reader)@.len() >= 4 && (le_value(old(reader)@.take(4)) as i32) < 0 ==> (r matches Err(e) && e@ == negative@),
        old(reader)@.len() >= 4 && (le_value(old(reader)@.take(4)) as i32) >= 0 ==> r == Ok::<i32, String>(
            le_value(old(reader)@.take(4)) as i32,
        ) && final(reader)@ == old(reader)@.skip(4),
{
    match parse_i32(reader) {
        Ok(n) => {
            if n < 0 {
                return Err(negative.to_owned());
            }
            Ok(n)
        },
        Err(e) => Err(join_str(what, e)),
    }
}

/// Reads a 260-byte name field.
fn read_name(reader: &mut ByteReader, what: &str) -> (r: Result<String, String>)
    requires
        old(reader).wf(),
    ensures
        final(reader).wf(),
        old(reader)@.len() < 260 ==> (r matches Err(e) && e@ == what@ + "couldn't read requested bytes from buffer"@),
        old(reader)@.len() >= 260 ==> final(reader)@ == old(reader)@.skip(260) && match name_at(old(reader)@, 0) {
            Ok(t) => r matches Ok(x) && x@ == t,
            Err(d) => r matches Err(x) && x@ == what@ + d,
        },
{
    let ghost s = reader@;
    match parse_fixed_width_string(reader, 260) {
        Ok(st) => {
            proof {
                assert(s.take(260) =~= s.subrange(0, 260));
            }
            Ok(st)
        },
        Err(e) => {
            proof {
                assert(s.take(260) =~= s.subrange(0, 260));
            }
            Err(join_str(what, e))
        },
    }
}

proof fn lemma_name_shift(s: Seq<u8>, off: int)
    requires
        0 <= off,
        off + 260 <= s.len(),
    ensures
        name_at(s.skip(off), 0) == name_at(s, off),
{
    assert(s.skip(off).subrange(0, 260) =~= s.subrange(off, off + 260));
}

proof fn lemma_take4_shift(s: Seq<u8>, off: int)
    requires
        0 <= off,
        off + 4 <= s.len(),
    ensures
        s.skip(off).take(4) == s.subrange(off, off + 4),
{
    assert(s.skip(off).take(4) =~= s.subrange(off, off + 4));
}

impl DemoHeader {
    /// Reads and checks a demo header.
    pub fn from_readable(reader: &mut ByteReader) -> (r: Result<DemoHeader, String>)
        requires
            old(reader).wf(),
        ensures
            final(reader).wf(),
            match demo_header_spec(old(reader)@) {
                Ok((h, rest)) => r matches Ok(x) && header_view(x) == h && final(reader)@ == rest,
                Err(e) => r matches Err(x) && x@ == e,
            },
    {
        let ghost s = reader@;
        let magic = match reader.read_exact(8) {
            Some(b) => b,
            None => return Err("couldn't read header string".to_owned()),
        };
        match utf8_to_string(magic) {
            Some(text) => {
                if !str_eq(text.as_str(), "HL2DEMO\0") {
                    return Err("file magic header != HL2DEMO".to_owned());
                }
            },
            None => return Err("couldn't parse header string".to_owned()),
        }
        proof {
            if s.len() >= 12 {
                lemma_take4_shift(s, 8);
            }
            assert(reader@ =~= s.skip(8));
        }
        let demo_protocol = read_count(reader, "error parsing demo protocol: ", "unexpected negative demo protocol")?;
        proof {
            assert(s.skip(8).skip(4) =~= s.skip(12));
            if s.len() >= 16 {
                lemma_take4_shift(s, 12);
            }
        }
        let network_protocol = read_count(reader, "error parsing network protocol: ", "unexpected negative network protocol")?;
        proof {
            assert(s.skip(12).skip(4) =~= s.skip(16));
            if s.len() >= 276 {
                lemma_name_shift(s, 16);
            }
        }
        let server_name = read_name(reader, "error parsing server name: ")?;
        proof {
            assert(s.skip(16).skip(260) =~= s.skip(276));
            if s.len() >= 536 {
                lemma_name_shift(s, 276);
            }
        }
        let client_name = read_name(reader, "error parsing client name: ")?;
        proof {
            assert(s.skip(276).skip(260) =~= s.skip(536));
            if s.len() >= 796 {
                lemma_name_shift(s, 536);
            }
        }
        let map_name = read_name(reader, "error parsing map name: ")?;
        proof {
            assert(s.skip(536).skip(260) =~= s.skip(796));
            if s.len() >= 1056 {
                lemma_name_shift(s, 796);
            }
        }
        let game_directory = read_name(reader, "error parsing game directory: ")?;
        proof {
            assert(s.skip(796).skip(260) =~= s.skip(1056));
            if s.len() >= 1060 {
                lemma_take4_shift(s, 1056);
            }
        }
        let playback_time = match parse_f32_bits(reader) {
            Ok(n) => {
                if 0x8000_0000u32 < n && n <= 0xff80_0000u32 {
                    return Err("unexpected negative playback time".to_owned());
                }
                n
            },
            Err(e) => return Err(join_str("error parsing playback time: ", e)),
        };
        proof {
            assert(s.skip(1056).skip(4) =~= s.skip(1060));
            if s.len() >= 1064 {
                lemma_take4_shift(s, 1060);
            }
        }
        let ticks = read_count(reader, "error parsing ticks: ", "unexpected negative ticks")?;
        proof {
            assert(s.skip(1060).skip(4) =~= s.skip(1064));
            if s.len() >= 1068 {
                lemma_take4_shift(s, 1064);
            }
        }
        let frames = read_count(reader, "error parsing frames: ", "unexpected negative frames")?;
        proof {
            assert(s.skip(1064).skip(4) =~= s.skip(1068));
            if s.len() >= 1072 {
                lemma_take4_shift(s, 1068);
            }
        }
        let sign_on_length = read_count(reader, "error parsing sign on length: ", "unexpected negative sign on length")?;
        proof {
            assert(s.skip(1068).skip(4) =~= s.skip(1072));
        }
        Ok(DemoHeader {
            demo_protocol,
            network_protocol,
            server_name,
            client_name,
            map_name,
            game_directory,
            playback_time,
            ticks,
            frames,
            sign_on_length,
        })
    }
}

} // verus!
