//! The byte layouts that bridges to other buses use for CAN frames.
//!
//! A serial line carries a frame as a sync byte, the frame id as four bytes
//! with the low byte first, the number of data bytes, and the data. A file
//! of frames holds records of fourteen bytes: a byte that is passed over, the
//! id, the number of data bytes, and eight bytes of which the data are the
//! first.

use crate::codec::{bits_of_bytes, bytes_of_bits, from_le32, le32};
use crate::wire::put_bytes;
use vstd::prelude::*;
use vstd::slice::{slice_subrange, slice_to_vec};

verus! {

/// The byte that starts a frame on the serial line.
pub const SYNC: u8 = 0xfa;

/// The most data bytes that a frame holds.
pub const MOST: usize = 8;

/// The bytes of a frame on the serial line behind its sync byte.
pub const PACKED: usize = 13;

/// The bytes of a record in a file of frames.
pub const RECORD: usize = 14;

/// The 32-bit pattern of a signed integer.
pub open spec fn pattern(v: i32) -> u32 {
    if v >= 0 {
        v as u32
    } else {
        (v + 0x1_0000_0000) as u32
    }
}

/// The signed integer of a 32-bit pattern.
pub open spec fn signed(bits: u32) -> i32 {
    if bits >= 0x8000_0000 {
        (bits - 0x1_0000_0000) as i32
    } else {
        bits as i32
    }
}

/// The four bytes of a signed integer, low byte first.
pub open spec fn le_i32(v: i32) -> Seq<u8> {
    le32(pattern(v))
}

/// The signed integer of four bytes, low byte first.
pub open spec fn i32_of_le(raw: Seq<u8>) -> i32 {
    signed(from_le32(raw))
}

/// An id that was written is read back.
pub proof fn lemma_le_i32_round_trip(v: i32)
    ensures
        le_i32(v).len() == 4,
        i32_of_le(le_i32(v)) == v,
{
}

fn id_bytes(v: i32) -> (raw: Vec<u8>)
    ensures
        raw@ == le_i32(v),
{
    let bits: u32 = if v >= 0 {
        v as u32
    } else {
        (v as i64 + 0x1_0000_0000) as u32
    };
    bytes_of_bits(bits)
}

fn id_of(raw: &[u8]) -> (v: i32)
    requires
        raw@.len() == 4,
    ensures
        v == i32_of_le(raw@),
{
    let bits = bits_of_bytes(&slice_to_vec(raw));
    if bits >= 0x8000_0000 {
        (bits as i64 - 0x1_0000_0000) as i32
    } else {
        bits as i32
    }
}

/// A frame as the serial line carries it. The count is a single byte: it
/// holds the number of data bytes up to 255, and its low eight bits beyond.
pub open spec fn serial_frame(id: i32, data: Seq<u8>) -> Seq<u8> {
    seq![SYNC] + le_i32(id) + seq![(data.len() % 256) as u8] + data
}

/// Writes a frame for the serial line.
pub fn to_serial(id: i32, data: &[u8]) -> (out: Vec<u8>)
    ensures
        out@ == serial_frame(id, data@),
{
    let mut out: Vec<u8> = Vec::new();
    out.push(SYNC);
    let raw = id_bytes(id);
    put_bytes(&mut out, raw.as_slice());
    out.push((data.len() % 256) as u8);
    put_bytes(&mut out, data);
    assert(out@ =~= serial_frame(id, data@));
    out
}

/// The id and the data that thirteen packed bytes hold: of the eight data
/// bytes, as many count as the count says, and all eight where it says
/// more.
pub open spec fn unpacked(raw: Seq<u8>) -> (i32, Seq<u8>) {
    let count = if raw[4] <= 8 {
        raw[4] as int
    } else {
        8
    };
    (i32_of_le(raw.subrange(0, 4)), raw.subrange(5, 5 + count))
}

fn unpack(raw: &[u8]) -> (frame: (i32, Vec<u8>))
    requires
        raw@.len() == PACKED,
    ensures
        frame.0 == unpacked(raw@).0,
        frame.1@ == unpacked(raw@).1,
{
    let count: usize = if raw[4] <= 8 {
        raw[4] as usize
    } else {
        MOST
    };
    let id = id_of(slice_subrange(raw, 0, 4));
    let data = slice_to_vec(slice_subrange(raw, 5, 5 + count));
    (id, data)
}

/// The frame of a record: `None` where the record has not fourteen bytes
/// or counts more data bytes than eight.
pub open spec fn record_frame(record: Seq<u8>) -> Option<(i32, Seq<u8>)> {
    if record.len() == RECORD && record[5] <= 8 {
        Some((i32_of_le(record.subrange(1, 5)), record.subrange(6, 6 + record[5])))
    } else {
        None
    }
}

/// Reads the frame of a record.
pub fn from_record(record: &[u8]) -> (frame: Option<(i32, Vec<u8>)>)
    ensures
        match record_frame(record@) {
            Some((id, data)) => frame matches Some(got) && got.0 == id && got.1@ == data,
            None => frame is None,
        },
{
    if record.len() != RECORD || record[5] > 8 {
        return None;
    }
    let id = id_of(slice_subrange(record, 1, 5));
    let count: usize = record[5] as usize;
    let data = slice_to_vec(slice_subrange(record, 6, 6 + count));
    Some((id, data))
}

/// How many bytes stand before the first sync byte; the length of `s`
/// where it holds none.
pub open spec fn before_sync(s: Seq<u8>) -> int
    decreases s.len(),
{
    if s.len() == 0 || s[0] == SYNC {
        0
    } else {
        1 + before_sync(s.drop_first())
    }
}

/// What follows the first sync byte; nothing where `s` holds none.
pub open spec fn after_sync(s: Seq<u8>) -> Seq<u8> {
    if before_sync(s) < s.len() {
        s.skip(before_sync(s) + 1)
    } else {
        Seq::empty()
    }
}

/// The bytes that are looked at for a frame: what follows the first sync
/// byte once thirteen bytes are there, and the bytes as they are before.
pub open spec fn synced(s: Seq<u8>) -> Seq<u8> {
    if s.len() >= PACKED {
        after_sync(s)
    } else {
        s
    }
}

/// The frame that the received bytes hold, if they hold one.
pub open spec fn serial_packet(s: Seq<u8>) -> Option<(i32, Seq<u8>)> {
    if synced(s).len() >= PACKED {
        Some(unpacked(synced(s).subrange(0, PACKED as int)))
    } else {
        None
    }
}

/// The received bytes that are left once a frame was looked for.
pub open spec fn serial_rest(s: Seq<u8>) -> Seq<u8> {
    if synced(s).len() >= PACKED {
        synced(s).skip(PACKED as int)
    } else {
        synced(s)
    }
}

proof fn lemma_before_sync_is(s: Seq<u8>, n: int)
    requires
        0 <= n <= s.len(),
        forall|k: int| 0 <= k < n ==> s[k] != SYNC,
        n < s.len() ==> s[n] == SYNC,
    ensures
        before_sync(s) == n,
    decreases s.len(),
{
    if s.len() != 0 && s[0] != SYNC {
        let rest = s.drop_first();
        assert forall|k: int| 0 <= k < n - 1 implies rest[k] != SYNC by {
            assert(rest[k] == s[k + 1]);
        }
        lemma_before_sync_is(rest, n - 1);
    }
}

/// Looks for a frame at the front of the bytes that the serial line
/// brought, takes it and what stands before it out of them, and hands it
/// back.
pub fn take_serial_packet(buf: &mut Vec<u8>) -> (frame: Option<(i32, Vec<u8>)>)
    ensures
        final(buf)@ == serial_rest(old(buf)@),
        match serial_packet(old(buf)@) {
            Some((id, data)) => frame matches Some(got) && got.0 == id && got.1@ == data,
            None => frame is None,
        },
{
    let ghost before = buf@;
    if buf.len() >= PACKED {
        let mut n: usize = 0;
        while n < buf.len() && buf[n] != SYNC
            invariant
                n <= buf.len(),
                buf@ == before,
                forall|k: int| 0 <= k < n ==> buf@[k] != SYNC,
            decreases buf.len() - n,
        {
            n = n + 1;
        }
        proof {
            lemma_before_sync_is(before, n as int);
        }
        let kept: Vec<u8> = if n < buf.len() {
            slice_to_vec(slice_subrange(buf.as_slice(), n + 1, buf.len()))
        } else {
            Vec::new()
        };
        assert(kept@ =~= after_sync(before));
        *buf = kept;
    }
    assert(buf@ == synced(before));
    if buf.len() >= PACKED {
        let frame = unpack(slice_subrange(buf.as_slice(), 0, PACKED));
        let rest = slice_to_vec(slice_subrange(buf.as_slice(), PACKED, buf.len()));
        *buf = rest;
        Some(frame)
    } else {
        None
    }
}

} // verus!
