use vstd::prelude::*;
use vstd::utf8::*;

verus! {

/// `256` raised to the power `n`.
pub open spec fn pow256(n: nat) -> nat
    decreases n,
{
    if n == 0 {
        1
    } else {
        256 * pow256((n - 1) as nat)
    }
}

/// The unsigned number whose big-endian encoding is `s`.
pub open spec fn be_value(s: Seq<u8>) -> nat
    decreases s.len(),
{
    if s.len() == 0 {
        0
    } else {
        be_value(s.drop_last()) * 256 + s.last() as nat
    }
}

/// The big-endian number stored in the `n` bytes of `b` that start at `pos`.
pub open spec fn uint_at(b: Seq<u8>, pos: int, n: nat) -> nat {
    be_value(b.subrange(pos, pos + n))
}

/// A reader that walks through a byte buffer and decodes big-endian values.
pub struct BinaryReader {
    pub bytes: Vec<u8>,
    pub current_position: usize,
}

/// `String::from_utf8`: `Some` exactly when the bytes are valid UTF-8, and then
/// the string's UTF-8 encoding is those bytes.
#[verifier::external_body]
pub(crate) fn string_from_utf8(bytes: Vec<u8>) -> (res: Option<String>)
    ensures
        res is Some <==> valid_utf8(bytes@),
        res matches Some(s) ==> encode_utf8(s@) == bytes@,
{
    String::from_utf8(bytes).ok()
}

/// The characters that a valid UTF-8 byte sequence encodes, with the facts that
/// tie them to the bytes.
pub proof fn lemma_utf8_string(s: Seq<char>, b: Seq<u8>)
    requires
        encode_utf8(s) == b,
    ensures
        valid_utf8(b),
        decode_utf8(b) == s,
{
    encode_utf8_valid_utf8(s);
    encode_utf8_decode_utf8(s);
}

impl BinaryReader {
    /// A reader positioned at the start of `bytes`.
    pub fn new(bytes: Vec<u8>) -> (br: BinaryReader)
        ensures
            br.bytes@ == bytes@,
            br.current_position == 0,
    {
        BinaryReader { bytes, current_position: 0 }
    }

    /// Reads one byte.
    pub fn read_uint8(&mut self) -> (r: u8)
        requires
            old(self).current_position + 1 <= old(self).bytes@.len(),
        ensures
            r as nat == uint_at(old(self).bytes@, old(self).current_position as int, 1),
            final(self).bytes@ == old(self).bytes@,
            final(self).current_position == old(self).current_position + 1,
    {
        let p = self.current_position;
        let _len = self.bytes.len();
        let b0 = self.bytes[p];
        self.current_position = p + 1;
        proof {
            reveal_with_fuel(be_value, 2);
            let s = old(self).bytes@.subrange(p as int, p + 1);
            assert(s.drop_last().len() == 0);
            assert(s.last() == b0);
        }
        b0
    }

    /// Reads a big-endian `u16`.
    pub fn read_uint16(&mut self) -> (r: u16)
        requires
            old(self).current_position + 2 <= old(self).bytes@.len(),
        ensures
            r as nat == uint_at(old(self).bytes@, old(self).current_position as int, 2),
            final(self).bytes@ == old(self).bytes@,
            final(self).current_position == old(self).current_position + 2,
    {
        let p = self.current_position;
        let _len = self.bytes.len();
        let b0 = self.bytes[p];
        let b1 = self.bytes[p + 1];
        self.current_position = p + 2;
        proof {
            reveal_with_fuel(be_value, 3);
            let s = old(self).bytes@.subrange(p as int, p + 2);
            assert(s.drop_last().drop_last().len() == 0);
            assert(s.drop_last().last() == b0);
            assert(s.last() == b1);
        }
        (b0 as u16) * 256 + (b1 as u16)
    }

    /// Reads a big-endian `u32`.
    pub fn read_uint32(&mut self) -> (r: u32)
        requires
            old(self).current_position + 4 <= old(self).bytes@.len(),
        ensures
            r as nat == uint_at(old(self).bytes@, old(self).current_position as int, 4),
            final(self).bytes@ == old(self).bytes@,
            final(self).current_position == old(self).current_position + 4,
    {
        let p = self.current_position;
        let _len = self.bytes.len();
        let b0 = self.bytes[p] as u32;
        let b1 = self.bytes[p + 1] as u32;
        let b2 = self.bytes[p + 2] as u32;
        let b3 = self.bytes[p + 3] as u32;
        self.current_position = p + 4;
        proof {
            reveal_with_fuel(be_value, 5);
            let s = old(self).bytes@.subrange(p as int, p + 4);
            assert(s.drop_last().drop_last().drop_last().drop_last().len() == 0);
            assert(s.drop_last().drop_last().drop_last().last() == b0);
            assert(s.drop_last().drop_last().last() == b1);
            assert(s.drop_last().last() == b2);
            assert(s.last() == b3);
        }
        ((b0 * 256 + b1) * 256 + b2) * 256 + b3
    }

    /// Reads a big-endian `u64`.
    pub fn read_uint64(&mut self) -> (r: u64)
        requires
            old(self).current_position + 8 <= old(self).bytes@.len(),
        ensures
            r as nat == uint_at(old(self).bytes@, old(self).current_position as int, 8),
            final(self).bytes@ == old(self).bytes@,
            final(self).current_position == old(self).current_position + 8,
    {
        let p = self.current_position;
        let _len = self.bytes.len();
        let mut v: u64 = 0;
        let mut i: usize = 0;
        while i < 8
            invariant
                0 <= i <= 8,
                p + 8 <= self.bytes@.len(),
                self.bytes@.len() <= usize::MAX,
                v as nat == be_value(self.bytes@.subrange(p as int, p + i)),
                v < pow256(i as nat),
            decreases 8 - i,
        {
            proof {
                let s = self.bytes@.subrange(p as int, p + i + 1);
                assert(s.drop_last() == self.bytes@.subrange(p as int, p + i));
                assert(pow256((i + 1) as nat) == 256 * pow256(i as nat));
                lemma_pow256_8();
                lemma_pow256_mono(i as nat + 1, 8);
            }
            v = v * 256 + self.bytes[p + i] as u64;
            i = i + 1;
        }
        self.current_position = p + 8;
        v
    }

    /// Reads `length` bytes as a UTF-8 string; `None` when they are not valid
    /// UTF-8.  The position moves past the bytes either way.
    pub fn read_string(&mut self, length: u32) -> (r: Option<String>)
        requires
            old(self).current_position + length <= old(self).bytes@.len(),
        ensures
            final(self).bytes@ == old(self).bytes@,
            final(self).current_position == old(self).current_position + length,
            r is Some <==> valid_utf8(
                old(self).bytes@.subrange(
                    old(self).current_position as int,
                    old(self).current_position + length,
                ),
            ),
            r matches Some(s) ==> encode_utf8(s@) == old(self).bytes@.subrange(
                old(self).current_position as int,
                old(self).current_position + length,
            ),
    {
        let p = self.current_position;
        let _len = self.bytes.len();
        let n = length as usize;
        let mut v: Vec<u8> = Vec::new();
        let mut i: usize = 0;
        while i < n
            invariant
                0 <= i <= n,
                p + n <= self.bytes@.len(),
                self.bytes@.len() <= usize::MAX,
                v@ == self.bytes@.subrange(p as int, p + i),
            decreases n - i,
        {
            v.push(self.bytes[p + i]);
            i = i + 1;
        }
        self.current_position = p + n;
        string_from_utf8(v)
    }
}

/// `256^8` is `2^64`.
pub proof fn lemma_pow256_8()
    ensures
        pow256(8) == 0x1_0000_0000_0000_0000,
        pow256(4) == 0x1_0000_0000,
        pow256(2) == 0x1_0000,
        pow256(1) == 0x100,
{
    reveal_with_fuel(pow256, 9);
}

/// `pow256` grows with its exponent.
pub proof fn lemma_pow256_mono(a: nat, b: nat)
    requires
        a <= b,
    ensures
        pow256(a) <= pow256(b),
        pow256(a) >= 1,
    decreases b,
{
    if a < b {
        lemma_pow256_mono(a, (b - 1) as nat);
    } else if a > 0 {
        lemma_pow256_mono((a - 1) as nat, (a - 1) as nat);
    }
}

/// A big-endian value of `n` bytes is below `256^n`.
pub proof fn lemma_be_value_bound(s: Seq<u8>)
    ensures
        be_value(s) < pow256(s.len()),
    decreases s.len(),
{
    if s.len() > 0 {
        lemma_be_value_bound(s.drop_last());
    }
}

/// Whether `val` is one of `vals`.
pub fn values_contain(vals: &Vec<u32>, val: u32) -> (r: bool)
    ensures
        r == vals@.contains(val),
{
    let mut i: usize = 0;
    while i < vals.len()
        invariant
            0 <= i <= vals@.len(),
            forall|j: int| 0 <= j < i ==> vals@[j] != val,
        decreases vals@.len() - i,
    {
        if vals[i] == val {
            return true;
        }
        i = i + 1;
    }
    false
}

/// Asserts that `val` is one of `cmp_values`, which callers establish (with
/// [`values_contain`]) before they call it.
pub fn assert_values(val: &u32, cmp_values: Vec<u32>)
    requires
        cmp_values@.contains(*val),
{
}

} // verus!
