use vstd::prelude::*;
use vstd::arithmetic::power2::{pow2, lemma2_to64, lemma_pow2_pos, lemma_pow2_adds, lemma_pow2_strictly_increases};
use vstd::bits::{
    low_bits_mask, lemma_u32_low_bits_mask_is_mod, lemma_u32_shr_is_div, lemma_u32_shl_is_mul,
    lemma_u32_pow2_no_overflow,
};
use crate::bitmath::{
    bits_at, le_value, lemma_bits_split, lemma_bits_prefix, lemma_bits_shift, lemma_bits_bound,
    lemma_bits_of_bytes, lemma_le_value_4, lemma_le_value_zero_tail,
};

verus! {

/// A reader of little-endian bit fields, consuming its bytes one 32-bit
/// word at a time (the last word may be shorter).
///
/// Its model is the byte sequence `data()`, the bit `position()` of the next
/// unread bit, and the counter `bits_read()` reported by `get_bits_read`.
pub struct BitBuf {
    data: Vec<u8>,
    act_dword: u32,
    next_index: usize,
    act_bits_left: u8,
    data_bits: usize,
    bits_read: usize,
}

/// The `n` lowest bits set.
fn low_mask(n: u8) -> (m: u32)
    requires
        n <= 32,
    ensures
        m as nat == low_bits_mask(n as nat),
{
    proof {
        lemma2_to64();
    }
    if n == 32 {
        0xffff_ffff
    } else {
        proof {
            lemma_u32_shl_is_mul(1, n as u32);
            lemma_u32_pow2_no_overflow(n as nat);
        }
        (1u32 << n) - 1
    }
}

/// Masking with the `n` lowest bits keeps the value modulo `2^n`.
proof fn lemma_mask_is_mod(x: u32, n: nat)
    requires
        n <= 32,
    ensures
        (x & (low_bits_mask(n) as u32)) as nat == x as nat % pow2(n),
{
    lemma2_to64();
    if n == 32 {
        assert(x & 0xffff_ffffu32 == x) by (bit_vector);
    } else {
        lemma_u32_pow2_no_overflow(n);
        lemma_u32_low_bits_mask_is_mod(x, n);
    }
}

/// `a | (v << s)` adds the two when `a` fits below bit `s`.
proof fn lemma_or_shifted(a: u32, v: u32, s: u32)
    by (bit_vector)
    requires
        s < 32,
        a < (1u32 << s),
        v < (1u32 << (32 - s) as u32) || s == 0,
    ensures
        (a | (v << s)) == a + (v << s),
{
}

/// The number of bits that `read_ubit_var` consumes after its 6-bit prefix.
pub open spec fn ubit_var_extra(prefix: nat) -> nat {
    let sel = (prefix / 16) % 4;
    if sel == 0 {
        0
    } else if sel == 1 {
        4
    } else if sel == 2 {
        8
    } else {
        28
    }
}

/// The value that `read_ubit_var` reads at bit `pos` of `data`.
pub open spec fn ubit_var_value(data: Seq<u8>, pos: nat) -> nat {
    let prefix = bits_at(data, pos, 6);
    let extra = ubit_var_extra(prefix);
    if extra == 0 {
        prefix
    } else {
        prefix % 16 + 16 * bits_at(data, pos + 6, extra)
    }
}

impl BitBuf {
    /// The bytes being read.
    pub closed spec fn data(&self) -> Seq<u8> {
        self.data@
    }

    /// The number of bits that have been consumed.
    pub closed spec fn position(&self) -> nat {
        (8 * self.next_index - self.act_bits_left) as nat
    }

    /// The counter that `get_bits_read` returns.
    pub closed spec fn bits_read(&self) -> nat {
        self.bits_read as nat
    }

    /// The number of bits in the data.
    pub open spec fn total_bits(&self) -> nat {
        8 * self.data().len()
    }

    pub closed spec fn wf(&self) -> bool {
        &&& 4 <= self.data@.len() <= usize::MAX / 16
        &&& self.data_bits == 8 * self.data@.len()
        &&& self.next_index <= self.data@.len()
        &&& self.act_bits_left <= 32
        &&& self.act_bits_left <= 8 * self.next_index
        &&& (self.act_bits_left > 0 || self.next_index == 0) ==> self.act_dword as nat == bits_at(
            self.data@,
            self.position(),
            self.act_bits_left as nat,
        )
        &&& self.act_bits_left == 0 ==> (self.next_index == 0 || self.next_index == self.data@.len())
        &&& self.bits_read <= 2 * self.position()
    }

    /// A reader at the first bit of `data`.
    pub fn new(data: Vec<u8>) -> (b: Self)
        requires
            data.len() >= 4,
            data.len() <= usize::MAX / 16,
        ensures
            b.wf(),
            b.data() == data@,
            b.position() == 0,
            b.bits_read() == 0,
    {
        let data_bits = data.len() << 3;
        proof {
            lemma2_to64();
            assert(data_bits == 8 * data.len()) by {
                vstd::bits::lemma_usize_shl_is_mul(data.len(), 3);
            }
        }
        Self { data, data_bits, act_dword: 0, next_index: 0, act_bits_left: 0, bits_read: 0 }
    }

    /// Loads the next (up to) 32 bits into the current word when the current
    /// word is used up.
    fn get_next_dword(&mut self) -> (loaded: bool)
        requires
            4 <= old(self).data@.len() <= usize::MAX / 16,
            old(self).next_index <= old(self).data@.len(),
        ensures
            loaded == (old(self).next_index < old(self).data@.len() && old(self).act_bits_left == 0),
            final(self).data == old(self).data,
            final(self).data_bits == old(self).data_bits,
            final(self).bits_read == old(self).bits_read,
            !loaded ==> *final(self) == *old(self),
            loaded ==> {
                let k = if old(self).data@.len() - old(self).next_index >= 4 {
                    4
                } else {
                    old(self).data@.len() - old(self).next_index
                };
                &&& final(self).next_index == old(self).next_index + k
                &&& final(self).act_bits_left == 8 * k
                &&& final(self).act_dword as nat == bits_at(
                    old(self).data@,
                    8 * old(self).next_index as nat,
                    (8 * k) as nat,
                )
            },
    {
        if self.next_index >= self.data.len() || self.act_bits_left > 0 {
            false
        } else {
            let ni = self.next_index;
            let bytes_left = self.data.len() - ni;
            let b0: u8 = self.data[ni];
            let b1: u8 = if bytes_left > 1 { self.data[ni + 1] } else { 0 };
            let b2: u8 = if bytes_left > 2 { self.data[ni + 2] } else { 0 };
            let b3: u8 = if bytes_left > 3 { self.data[ni + 3] } else { 0 };
            let value: u32 = (b0 as u32) + 256 * ((b1 as u32) + 256 * ((b2 as u32) + 256 * (b3 as u32)));
            let k: usize = if bytes_left >= 4 { 4 } else { bytes_left };
            proof {
                let t = seq![b0, b1, b2, b3];
                lemma_le_value_4(t);
                lemma_le_value_zero_tail(t, k as int);
                assert(t.take(k as int) =~= self.data@.subrange(ni as int, ni + k));
                lemma_bits_of_bytes(self.data@, ni as int, k as int);
            }
            self.next_index = ni + k;
            self.act_bits_left = (k * 8) as u8;
            self.act_dword = value;
            true
        }
    }

    /// Reads `numbits` bits as a little-endian number.
    pub fn read_ubit_long(&mut self, numbits: u8) -> (r: u32)
        requires
            old(self).wf(),
            numbits <= 32,
            old(self).position() + numbits <= old(self).total_bits(),
            !(old(self).position() == 0 && numbits == 32),
        ensures
            final(self).wf(),
            final(self).data() == old(self).data(),
            final(self).position() == old(self).position() + numbits,
            final(self).bits_read() == old(self).bits_read() + numbits,
            r as nat == bits_at(old(self).data(), old(self).position(), numbits as nat),
    {
        let ghost d = self.data@;
        let ghost p = self.position();
        let ghost left = self.act_bits_left as nat;
        let ghost n = numbits as nat;
        proof {
            lemma2_to64();
            lemma_pow2_pos(n);
        }
        self.bits_read = self.bits_read + numbits as usize;
        if self.act_bits_left >= numbits {
            let m = low_mask(numbits);
            let rval = self.act_dword & m;
            proof {
                lemma_mask_is_mod(self.act_dword, n);
                if left == 0 {
                    assert(n == 0);
                }
                lemma_bits_prefix(d, p, left, n);
                if n == 32 {
                    lemma_bits_bound(d, p, 32);
                }
                assert(rval as nat == bits_at(d, p, n));
            }
            self.act_bits_left = self.act_bits_left - numbits;
            if self.act_bits_left > 0 {
                proof {
                    lemma_u32_shr_is_div(self.act_dword, numbits as u32);
                    lemma_bits_shift(d, p, left, n);
                }
                self.act_dword = self.act_dword >> numbits;
            } else {
                self.get_next_dword();
            }
            rval
        } else {
            let mut rval = self.act_dword;
            let bits_read = self.act_bits_left;
            self.act_bits_left = 0;
            let rest = numbits - bits_read;
            let ghost ni = self.next_index;
            proof {
                assert(ni < d.len());
                assert(rest < 32);
            }
            let loaded = self.get_next_dword();
            let ghost big = self.act_bits_left as nat;
            let ghost dword = self.act_dword;
            proof {
                assert(loaded);
                assert(p + left == 8 * ni);
                assert(rest <= big);
            }
            let m = low_mask(rest);
            let low = self.act_dword & m;
            proof {
                lemma_mask_is_mod(self.act_dword, rest as nat);
                lemma_bits_prefix(d, 8 * ni as nat, big, rest as nat);
                assert(low as nat == bits_at(d, p + left, rest as nat));
                lemma_bits_bound(d, p + left, rest as nat);
                lemma_bits_bound(d, p, left);
                lemma_pow2_adds(rest as nat, left);
                lemma_u32_pow2_no_overflow(left);
                lemma_u32_shl_is_mul(1, bits_read as u32);
                if n < 32 {
                    lemma_pow2_strictly_increases(n, 32);
                }
                assert(low as nat * pow2(left) < pow2(n)) by (nonlinear_arith)
                    requires
                        (low as nat) < pow2(rest as nat),
                        pow2(n) == pow2(rest as nat) * pow2(left),
                        pow2(left) > 0,
                ;
                lemma_u32_shl_is_mul(low, bits_read as u32);
                assert(rval < (1u32 << bits_read as u32));
                if bits_read > 0 {
                    lemma_u32_shl_is_mul(1, (32 - bits_read) as u32);
                    lemma_u32_pow2_no_overflow((32 - bits_read) as nat);
                    lemma_pow2_adds((32 - bits_read) as nat, left);
                    assert(low < (1u32 << (32 - bits_read) as u32)) by (nonlinear_arith)
                        requires
                            low as nat * pow2(left) < pow2(n),
                            pow2(n) <= pow2(32),
                            pow2(32) == pow2((32 - bits_read) as nat) * pow2(left),
                            (1u32 << (32 - bits_read) as u32) == pow2((32 - bits_read) as nat),
                            pow2(left) > 0,
                    ;
                }
                lemma_or_shifted(rval, low, bits_read as u32);
                lemma_bits_split(d, p, left, rest as nat);
            }
            rval = rval | (low << bits_read);
            proof {
                lemma_u32_shr_is_div(self.act_dword, rest as u32);
                lemma_bits_shift(d, 8 * ni as nat, big, rest as nat);
            }
            self.act_dword = self.act_dword >> rest;
            self.act_bits_left = self.act_bits_left - rest;
            rval
        }
    }

    /// Reads a variable-length number: a 6-bit prefix whose bits 4 and 5
    /// select whether 0, 4, 8 or 28 more bits follow above its low 4 bits.
    pub fn read_ubit_var(&mut self) -> (r: u32)
        requires
            old(self).wf(),
            old(self).position() + 6 + ubit_var_extra(bits_at(old(self).data(), old(self).position(), 6))
                <= old(self).total_bits(),
        ensures
            final(self).wf(),
            final(self).data() == old(self).data(),
            final(self).position() == old(self).position() + 6 + ubit_var_extra(
                bits_at(old(self).data(), old(self).position(), 6),
            ),
            final(self).bits_read() == old(self).bits_read() + (final(self).position()
                - old(self).position()),
            r as nat == ubit_var_value(old(self).data(), old(self).position()),
    {
        let ghost d = self.data@;
        let ghost p = self.position();
        let mut rval = self.read_ubit_long(6);
        proof {
            lemma2_to64();
            lemma_bits_bound(d, p, 6);
        }
        let sel = rval & (16 | 32);
        assert(sel == 16 * ((rval / 16) % 4) && (rval & 15) == rval % 16) by (bit_vector)
            requires
                rval < 64,
                sel == rval & (16u32 | 32u32),
        ;
        if sel == 16 {
            let more = self.read_ubit_long(4);
            proof {
                lemma_bits_bound(d, p + 6, 4);
            }
            assert((rval & 15) | (more << 4) == rval % 16 + 16 * more) by (bit_vector)
                requires
                    more < 16,
            ;
            rval = (rval & 15) | (more << 4);
        } else if sel == 32 {
            let more = self.read_ubit_long(8);
            proof {
                lemma_bits_bound(d, p + 6, 8);
            }
            assert((rval & 15) | (more << 4) == rval % 16 + 16 * more) by (bit_vector)
                requires
                    more < 256,
            ;
            rval = (rval & 15) | (more << 4);
        } else if sel == 48 {
            let more = self.read_ubit_long(28);
            proof {
                lemma_bits_bound(d, p + 6, 28);
            }
            assert((rval & 15) | (more << 4) == rval % 16 + 16 * more) by (bit_vector)
                requires
                    more < 0x1000_0000,
            ;
            rval = (rval & 15) | (more << 4);
        }
        rval
    }

    /// Reads one bit.  The counter of bits read advances by two.
    pub fn read_one_bit(&mut self) -> (r: bool)
        requires
            old(self).wf(),
            old(self).position() + 1 <= old(self).total_bits(),
        ensures
            final(self).wf(),
            final(self).data() == old(self).data(),
            final(self).position() == old(self).position() + 1,
            final(self).bits_read() == old(self).bits_read() + 2,
            r == (bits_at(old(self).data(), old(self).position(), 1) == 1),
    {
        let ghost d = self.data@;
        let ghost p = self.position();
        let v = self.read_ubit_long(1);
        proof {
            lemma_bits_bound(d, p, 1);
            lemma2_to64();
        }
        self.bits_read = self.bits_read + 1;
        if v != 0 {
            true
        } else {
            false
        }
    }

    /// The counter of bits read.
    pub fn get_bits_read(&self) -> (n: usize)
        ensures
            n == self.bits_read(),
    {
        self.bits_read
    }
}

} // verus!
