use vstd::prelude::*;
use vstd::utf8::*;
use crate::utils::binary_reader::{be_value, pow256, uint_at, lemma_utf8_string};

verus! {

/// The `n`-byte big-endian encoding of `v` (the low `n` bytes of `v`).
pub open spec fn be_encode(v: nat, n: nat) -> Seq<u8>
    decreases n,
{
    if n == 0 {
        seq![]
    } else {
        be_encode(v / 256, (n - 1) as nat).push((v % 256) as u8)
    }
}

/// A writer that collects big-endian encoded values into a byte buffer, to be
/// stored at `path`.
pub struct BinaryWriter {
    pub bytes: Vec<u8>,
    pub path: String,
}

impl BinaryWriter {
    /// An empty writer for the file at `path`.
    pub fn new(path: &str) -> (bw: BinaryWriter)
        ensures
            bw.bytes@ == Seq::<u8>::empty(),
            bw.path@ == path@,
    {
        BinaryWriter { bytes: Vec::new(), path: path.to_string() }
    }

    /// Appends one byte.
    pub fn write_uint8(&mut self, val: u8)
        ensures
            final(self).bytes@ == old(self).bytes@ + be_encode(val as nat, 1),
            final(self).path == old(self).path,
    {
        proof {
            reveal_with_fuel(be_encode, 2);
            assert(be_encode(val as nat, 1) == seq![val]);
        }
        self.bytes.push(val);
    }

    /// Appends a big-endian `u16`.
    pub fn write_uint16(&mut self, val: u16)
        ensures
            final(self).bytes@ == old(self).bytes@ + be_encode(val as nat, 2),
            final(self).path == old(self).path,
    {
        let b1 = (val % 256) as u8;
        let v1 = val / 256;
        let b0 = (v1 % 256) as u8;
        proof {
            reveal_with_fuel(be_encode, 3);
            assert(be_encode(val as nat, 2) == seq![b0, b1]);
        }
        self.bytes.push(b0);
        self.bytes.push(b1);
    }

    /// Appends a big-endian `u32`.
    pub fn write_uint32(&mut self, val: u32)
        ensures
            final(self).bytes@ == old(self).bytes@ + be_encode(val as nat, 4),
            final(self).path == old(self).path,
    {
        let b3 = (val % 256) as u8;
        let v3 = val / 256;
        let b2 = (v3 % 256) as u8;
        let v2 = v3 / 256;
        let b1 = (v2 % 256) as u8;
        let v1 = v2 / 256;
        let b0 = (v1 % 256) as u8;
        proof {
            reveal_with_fuel(be_encode, 5);
            assert(be_encode(val as nat, 4) == seq![b0, b1, b2, b3]);
        }
        self.bytes.push(b0);
        self.bytes.push(b1);
        self.bytes.push(b2);
        self.bytes.push(b3);
    }

    /// Appends a big-endian `u64`.
    pub fn write_uint64(&mut self, val: u64)
        ensures
            final(self).bytes@ == old(self).bytes@ + be_encode(val as nat, 8),
            final(self).path == old(self).path,
    {
        let b7 = (val % 256) as u8;
        let v7 = val / 256;
        let b6 = (v7 % 256) as u8;
        let v6 = v7 / 256;
        let b5 = (v6 % 256) as u8;
        let v5 = v6 / 256;
        let b4 = (v5 % 256) as u8;
        let v4 = v5 / 256;
        let b3 = (v4 % 256) as u8;
        let v3 = v4 / 256;
        let b2 = (v3 % 256) as u8;
        let v2 = v3 / 256;
        let b1 = (v2 % 256) as u8;
        let v1 = v2 / 256;
        let b0 = (v1 % 256) as u8;
        proof {
            reveal_with_fuel(be_encode, 9);
            assert(be_encode(val as nat, 8) == seq![b0, b1, b2, b3, b4, b5, b6, b7]);
        }
        self.bytes.push(b0);
        self.bytes.push(b1);
        self.bytes.push(b2);
        self.bytes.push(b3);
        self.bytes.push(b4);
        self.bytes.push(b5);
        self.bytes.push(b6);
        self.bytes.push(b7);
    }

    /// Appends the UTF-8 encoding of `str`.
    pub fn write_string(&mut self, str: String)
        ensures
            final(self).bytes@ == old(self).bytes@ + encode_utf8(str@),
            final(self).path == old(self).path,
    {
        let b = str.as_str().as_bytes();
        let mut i: usize = 0;
        while i < b.len()
            invariant
                0 <= i <= b@.len(),
                b@ == encode_utf8(str@),
                self.bytes@ == old(self).bytes@ + b@.subrange(0, i as int),
                self.path == old(self).path,
            decreases b@.len() - i,
        {
            self.bytes.push(b[i]);
            i = i + 1;
            proof {
                assert(b@.subrange(0, i as int) == b@.subrange(0, i - 1).push(b@[i - 1]));
            }
        }
        proof {
            assert(b@.subrange(0, b@.len() as int) == b@);
        }
    }
}

/// Decoding the `n`-byte big-endian encoding of a value below `256^n` gives
/// the value back.
pub proof fn law_be_roundtrip(v: nat, n: nat)
    requires
        v < pow256(n),
    ensures
        be_encode(v, n).len() == n,
        be_value(be_encode(v, n)) == v,
    decreases n,
{
    if n > 0 {
        let p = pow256((n - 1) as nat);
        assert(v / 256 < p) by (nonlinear_arith)
            requires
                v < 256 * p,
        ;
        law_be_roundtrip(v / 256, (n - 1) as nat);
        assert(be_encode(v, n).drop_last() == be_encode(v / 256, (n - 1) as nat));
    }
}

/// Reading `n` bytes at the place where a writer appended the big-endian
/// encoding of `v` gives `v` back, whatever comes before and after.
pub proof fn law_read_uint_after_write(before: Seq<u8>, v: nat, n: nat, after: Seq<u8>)
    requires
        v < pow256(n),
    ensures
        uint_at(before + be_encode(v, n) + after, before.len() as int, n) == v,
{
    law_be_roundtrip(v, n);
    let all = before + be_encode(v, n) + after;
    assert(all.subrange(before.len() as int, before.len() + n as int) == be_encode(v, n));
}

/// Reading back the bytes that a writer appended for a string gives valid
/// UTF-8 that decodes to that string, whatever comes before and after.
pub proof fn law_read_string_after_write(before: Seq<u8>, s: Seq<char>, after: Seq<u8>)
    ensures
        ({
            let all = before + encode_utf8(s) + after;
            let part = all.subrange(before.len() as int, (before.len() + encode_utf8(s).len()) as int);
            &&& part == encode_utf8(s)
            &&& valid_utf8(part)
            &&& decode_utf8(part) == s
        }),
{
    let all = before + encode_utf8(s) + after;
    assert(all.subrange(before.len() as int, (before.len() + encode_utf8(s).len()) as int)
        == encode_utf8(s));
    lemma_utf8_string(s, encode_utf8(s));
}

} // verus!
