//! The byte-access contract of devices, and little-endian values.

use vstd::prelude::*;

verus! {

/// A device that sits behind an IO region. The region hands it offsets from
/// its own base, never addresses.
pub trait IoAccess: Sized {
    /// What the device keeps true of itself between calls. A device that
    /// does not say keeps nothing.
    open spec fn inv(&self) -> bool {
        true
    }

    /// What holds of a read of `len` bytes at `offset`: the device before and
    /// after, the bytes that came back and the outcome. A device that does
    /// not say promises nothing.
    open spec fn read_post(
        pre: Self,
        post: Self,
        offset: int,
        len: int,
        out: Seq<u8>,
        r: Result<usize, String>,
    ) -> bool {
        true
    }

    /// What holds of a write of `data` at `offset`: the device before and
    /// after, and the outcome. A device that does not say promises nothing.
    open spec fn write_post(pre: Self, post: Self, offset: int, data: Seq<u8>, r: Result<usize, String>) -> bool {
        true
    }

    /// Fills `data` with the bytes at `offset`. The device may refuse.
    fn read(&mut self, offset: u64, data: &mut Vec<u8>) -> (r: Result<usize, String>)
        requires
            old(self).inv(),
        ensures
            final(self).inv(),
            Self::read_post(
                *old(self),
                *final(self),
                offset as int,
                old(data)@.len() as int,
                final(data)@,
                r,
            ),
    ;

    /// Stores `data` at `offset`. The device may refuse.
    fn write(&mut self, offset: u64, data: &[u8]) -> (r: Result<usize, String>)
        requires
            old(self).inv(),
        ensures
            final(self).inv(),
            Self::write_post(*old(self), *final(self), offset as int, data@, r),
    ;
}

/// A device that refuses every access.
pub struct NullDevice {}

impl NullDevice {
    pub fn new() -> (d: NullDevice)
        ensures
            d.inv(),
    {
        NullDevice {  }
    }
}

impl IoAccess for NullDevice {
    open spec fn inv(&self) -> bool {
        true
    }

    /// Every read is refused with the message "no device".
    open spec fn read_post(
        pre: Self,
        post: Self,
        offset: int,
        len: int,
        out: Seq<u8>,
        r: Result<usize, String>,
    ) -> bool {
        r is Err && r->Err_0@ == "no device"@
    }

    /// Every write is refused with the message "no device".
    open spec fn write_post(pre: Self, post: Self, offset: int, data: Seq<u8>, r: Result<usize, String>) -> bool {
        r is Err && r->Err_0@ == "no device"@
    }

    /// Refuses the read with the message "no device" and leaves the buffer
    /// as it is.
    fn read(&mut self, offset: u64, data: &mut Vec<u8>) -> (r: Result<usize, String>)
        ensures
            r is Err,
            r->Err_0@ == "no device"@,
            final(data)@ == old(data)@,
    {
        Err("no device".to_owned())
    }

    /// Refuses the write with the message "no device".
    fn write(&mut self, offset: u64, data: &[u8]) -> (r: Result<usize, String>)
        ensures
            r is Err,
            r->Err_0@ == "no device"@,
    {
        Err("no device".to_owned())
    }
}

/// The number that `bytes` spell, least significant byte first.
pub open spec fn le_value(bytes: Seq<u8>) -> nat
    decreases bytes.len(),
{
    if bytes.len() == 0 {
        0
    } else {
        bytes[0] as nat + 256 * le_value(bytes.subrange(1, bytes.len() as int))
    }
}

/// The `width` bytes that spell `value`, least significant byte first.
pub open spec fn le_bytes(value: nat, width: nat) -> Seq<u8>
    decreases width,
{
    if width == 0 {
        Seq::empty()
    } else {
        seq![(value % 256) as u8] + le_bytes(value / 256, (width - 1) as nat)
    }
}

/// The bytes of a value have the width asked for.
pub proof fn lemma_le_bytes_len(value: nat, width: nat)
    ensures
        le_bytes(value, width).len() == width,
    decreases width,
{
    if width > 0 {
        lemma_le_bytes_len(value / 256, (width - 1) as nat);
    }
}

/// The number of values that `width` bytes can spell.
pub open spec fn pow256(width: nat) -> nat
    decreases width,
{
    if width == 0 {
        1
    } else {
        256 * pow256((width - 1) as nat)
    }
}

/// The values of the widths in use.
pub proof fn lemma_pow256_values()
    ensures
        pow256(1) == 0x100,
        pow256(2) == 0x1_0000,
        pow256(4) == 0x1_0000_0000,
        pow256(8) == 0x1_0000_0000_0000_0000,
{
    reveal_with_fuel(pow256, 9);
}

/// A sequence of bytes spells a number below `256` to the power of its length.
pub proof fn lemma_le_value_bound(bytes: Seq<u8>)
    ensures
        le_value(bytes) < pow256(bytes.len()),
    decreases bytes.len(),
{
    if bytes.len() > 0 {
        lemma_le_value_bound(bytes.subrange(1, bytes.len() as int));
    }
}

/// Reading back the bytes of a value gives the value, cut to the width.
pub proof fn lemma_le_round_trip(value: nat, width: nat)
    ensures
        pow256(width) > 0,
        le_value(le_bytes(value, width)) == value % pow256(width),
    decreases width,
{
    if width > 0 {
        let rest = le_bytes(value / 256, (width - 1) as nat);
        let all = le_bytes(value, width);
        lemma_le_round_trip(value / 256, (width - 1) as nat);
        assert(all.subrange(1, all.len() as int) =~= rest);
        let p = pow256((width - 1) as nat);
        vstd::arithmetic::div_mod::lemma_mod_breakdown(value as int, 256, p as int);
    }
}

/// Spelling the number that bytes spell gives the bytes back.
pub proof fn lemma_le_bytes_of_value(bytes: Seq<u8>)
    ensures
        le_bytes(le_value(bytes), bytes.len()) == bytes,
    decreases bytes.len(),
{
    if bytes.len() > 0 {
        let t = bytes.subrange(1, bytes.len() as int);
        lemma_le_bytes_of_value(t);
        let v = le_value(bytes);
        assert(v % 256 == bytes[0] && v / 256 == le_value(t)) by {
            let q = le_value(t) as int;
            let b = bytes[0] as int;
            assert(v == b + 256 * q);
            vstd::arithmetic::div_mod::lemma_fundamental_div_mod_converse(v as int, 256, q, b);
        }
        assert(le_bytes(v, bytes.len()) =~= bytes);
    } else {
        assert(le_bytes(le_value(bytes), 0) =~= bytes);
    }
}

/// The number that at most eight bytes spell, least significant byte first.
pub fn decode(bytes: &Vec<u8>) -> (v: u64)
    requires
        bytes@.len() <= 8,
    ensures
        v == le_value(bytes@),
{
    let n = bytes.len();
    let mut v: u64 = 0;
    let mut i: usize = n;
    assert(bytes@.subrange(n as int, n as int) =~= Seq::<u8>::empty());
    while i > 0
        invariant
            i <= n,
            n == bytes@.len(),
            n <= 8,
            v == le_value(bytes@.subrange(i as int, n as int)),
        decreases i,
    {
        proof {
            let t = bytes@.subrange(i as int, n as int);
            let u = bytes@.subrange(i - 1, n as int);
            assert(u.subrange(1, u.len() as int) =~= t);
            lemma_le_value_bound(t);
            lemma_pow256_values();
            reveal_with_fuel(pow256, 9);
            assert(t.len() <= 7);
            assert(pow256(t.len()) <= 0x1_00_0000_0000_0000);
        }
        i -= 1;
        v = v * 256 + bytes[i] as u64;
    }
    assert(bytes@.subrange(0, n as int) =~= bytes@);
    v
}

/// The `width` bytes that spell `value`, least significant byte first.
pub fn encode(value: u64, width: usize) -> (bytes: Vec<u8>)
    ensures
        bytes@ == le_bytes(value as nat, width as nat),
{
    let mut out: Vec<u8> = Vec::new();
    let mut v = value;
    let mut i: usize = 0;
    while i < width
        invariant
            i <= width,
            out@.len() == i,
            out@ + le_bytes(v as nat, (width - i) as nat) == le_bytes(value as nat, width as nat),
        decreases width - i,
    {
        proof {
            let rest = le_bytes((v / 256) as nat, (width - i - 1) as nat);
            assert(le_bytes(v as nat, (width - i) as nat) == seq![(v % 256) as u8] + rest);
            assert(out@.push((v % 256) as u8) + rest =~= out@ + (seq![(v % 256) as u8] + rest));
        }
        out.push((v % 256) as u8);
        v = v / 256;
        i += 1;
    }
    assert(out@ + Seq::<u8>::empty() =~= out@);
    out
}

} // verus!
