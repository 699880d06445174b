//! Little-endian integers as they appear on the wire, and the protocol's constants.
use vstd::prelude::*;

verus! {

pub const INTRODUCE_CMD: u16 = 1;
pub const CMD_WRITE_FILE: u16 = 2;
pub const CMD_READ_FILE: u16 = 3;
pub const CMD_REMOVE: u16 = 4;
pub const CMD_CREATE_FOLDER: u16 = 5;
pub const CMD_MOVE: u16 = 6;
pub const CMD_LIST_FOLDER_CONTENTS: u16 = 7;
pub const CMD_PEER_CONNECTED: u16 = 8;
pub const CMD_PEER_DISCONNECTED: u16 = 9;
pub const CMD_EXECUTE: u16 = 10;
pub const CMD_FORGET_PEER: u16 = 11;

pub const STREAM_START: u8 = 0x01;
pub const STREAM_END: u8 = 0x02;
pub const STREAM_CONTINUE: u8 = 0x03;
pub const STREAM_PAUSE: u8 = 0x04;
pub const STREAM_PULL: u8 = 0x05;
pub const STREAM_DIED: u8 = 0x06;

pub const SUCCES: u8 = 0x00;
pub const ERR_REMOVE_FOLDER_RECURSIVE_NOT_ENABLED: u8 = 0x01;

/// The value of the two bytes at `i`, least significant first.
pub open spec fn le_u16(b: Seq<u8>, i: int) -> nat {
    b[i] as nat + 256 * (b[i + 1] as nat)
}

/// The value of the four bytes at `i`, least significant first.
pub open spec fn le_u32(b: Seq<u8>, i: int) -> nat {
    le_u16(b, i) + 65536 * le_u16(b, i + 2)
}

/// The value of the eight bytes at `i`, least significant first.
pub open spec fn le_u64(b: Seq<u8>, i: int) -> nat {
    le_u32(b, i) + 0x1_0000_0000 * le_u32(b, i + 4)
}

/// The two bytes of `v`, least significant first.
pub open spec fn u16_bytes(v: nat) -> Seq<u8> {
    seq![(v % 256) as u8, ((v / 256) % 256) as u8]
}

/// The four bytes of `v`, least significant first.
pub open spec fn u32_bytes(v: nat) -> Seq<u8> {
    u16_bytes(v % 65536) + u16_bytes((v / 65536) % 65536)
}

/// The eight bytes of `v`, least significant first.
pub open spec fn u64_bytes(v: nat) -> Seq<u8> {
    u32_bytes(v % 0x1_0000_0000) + u32_bytes((v / 0x1_0000_0000) % 0x1_0000_0000)
}

/// The two bytes of `v` read back as `v`.
pub proof fn lemma_u16_bytes(v: nat, s: Seq<u8>, i: int)
    requires
        v < 0x1_0000,
        0 <= i,
        i + 2 <= s.len(),
        s.subrange(i, i + 2) == u16_bytes(v),
    ensures
        le_u16(s, i) == v,
{
    assert(s[i] == s.subrange(i, i + 2)[0]);
    assert(s[i + 1] == s.subrange(i, i + 2)[1]);
}

/// The four bytes of `v` read back as `v`.
pub proof fn lemma_u32_bytes(v: nat, s: Seq<u8>, i: int)
    requires
        v < 0x1_0000_0000,
        0 <= i,
        i + 4 <= s.len(),
        s.subrange(i, i + 4) == u32_bytes(v),
    ensures
        le_u32(s, i) == v,
{
    assert(s.subrange(i, i + 2) =~= s.subrange(i, i + 4).subrange(0, 2));
    assert(s.subrange(i + 2, i + 4) =~= s.subrange(i, i + 4).subrange(2, 4));
    assert(u32_bytes(v).subrange(0, 2) =~= u16_bytes(v % 65536));
    assert(u32_bytes(v).subrange(2, 4) =~= u16_bytes((v / 65536) % 65536));
    lemma_u16_bytes(v % 65536, s, i);
    lemma_u16_bytes((v / 65536) % 65536, s, i + 2);
}

/// The eight bytes of `v` read back as `v`.
pub proof fn lemma_u64_bytes(v: nat, s: Seq<u8>, i: int)
    requires
        v < 0x1_0000_0000_0000_0000,
        0 <= i,
        i + 8 <= s.len(),
        s.subrange(i, i + 8) == u64_bytes(v),
    ensures
        le_u64(s, i) == v,
{
    assert(s.subrange(i, i + 4) =~= s.subrange(i, i + 8).subrange(0, 4));
    assert(s.subrange(i + 4, i + 8) =~= s.subrange(i, i + 8).subrange(4, 8));
    assert(u64_bytes(v).subrange(0, 4) =~= u32_bytes(v % 0x1_0000_0000));
    assert(u64_bytes(v).subrange(4, 8) =~= u32_bytes((v / 0x1_0000_0000) % 0x1_0000_0000));
    lemma_u32_bytes(v % 0x1_0000_0000, s, i);
    lemma_u32_bytes((v / 0x1_0000_0000) % 0x1_0000_0000, s, i + 4);
}

/// Reads the two bytes at `i`, least significant first.
pub fn read_u16_le(b: &[u8], i: usize) -> (r: u16)
    requires
        i + 2 <= b@.len(),
    ensures
        r as nat == le_u16(b@, i as int),
{
    b[i] as u16 + 256 * (b[i + 1] as u16)
}

/// Reads the four bytes at `i`, least significant first.
pub fn read_u32_le(b: &[u8], i: usize) -> (r: u32)
    requires
        i + 4 <= b@.len(),
    ensures
        r as nat == le_u32(b@, i as int),
{
    let lo = read_u16_le(b, i);
    let _ = b.len();
    let hi = read_u16_le(b, i + 2);
    lo as u32 + 65536 * (hi as u32)
}

/// Reads the eight bytes at `i`, least significant first.
pub fn read_u64_le(b: &[u8], i: usize) -> (r: u64)
    requires
        i + 8 <= b@.len(),
    ensures
        r as nat == le_u64(b@, i as int),
{
    let lo = read_u32_le(b, i);
    let _ = b.len();
    let hi = read_u32_le(b, i + 4);
    lo as u64 + 0x1_0000_0000 * (hi as u64)
}

/// Appends the two bytes of `v`, least significant first.
pub fn push_u16_le(out: &mut Vec<u8>, v: u16)
    ensures
        final(out)@ == old(out)@ + u16_bytes(v as nat),
{
    out.push((v % 256) as u8);
    out.push((v / 256) as u8);
    assert(final(out)@ =~= old(out)@ + u16_bytes(v as nat));
}

/// Appends the four bytes of `v`, least significant first.
pub fn push_u32_le(out: &mut Vec<u8>, v: u32)
    ensures
        final(out)@ == old(out)@ + u32_bytes(v as nat),
{
    push_u16_le(out, (v % 65536) as u16);
    push_u16_le(out, (v / 65536) as u16);
    assert(final(out)@ =~= old(out)@ + u32_bytes(v as nat));
}

/// Appends the eight bytes of `v`, least significant first.
pub fn push_u64_le(out: &mut Vec<u8>, v: u64)
    ensures
        final(out)@ == old(out)@ + u64_bytes(v as nat),
{
    push_u32_le(out, (v % 0x1_0000_0000) as u32);
    push_u32_le(out, (v / 0x1_0000_0000) as u32);
    assert(final(out)@ =~= old(out)@ + u64_bytes(v as nat));
}

} // verus!
