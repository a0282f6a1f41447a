//! The bytes on the wire: variable-length integers, tagged fields, frames.
//!
//! A message is a run of fields. A field is a key, which packs the field's
//! number and the kind of its value, and the value. A frame is the length of
//! a message and then the message. Lengths, keys and most values are written
//! as variable-length integers: seven bits to a byte, low bits first, the
//! high bit set on every byte but the last.

use vstd::prelude::*;
use vstd::slice::{slice_subrange, slice_to_vec};

verus! {

/// The bytes of a variable-length integer.
pub open spec fn varint(v: nat) -> Seq<u8>
    decreases v,
{
    if v < 128 {
        seq![v as u8]
    } else {
        seq![(v % 128 + 128) as u8] + varint(v / 128)
    }
}

/// The variable-length integer at the front of `s`, with the number of
/// bytes it takes; `None` where `s` ends before the integer does.
pub open spec fn parse_varint(s: Seq<u8>) -> Option<(nat, nat)>
    decreases s.len(),
{
    if s.len() == 0 {
        None
    } else if s[0] < 128 {
        Some((s[0] as nat, 1nat))
    } else {
        match parse_varint(s.drop_first()) {
            Some((v, n)) => Some(((s[0] - 128 + 128 * v) as nat, n + 1)),
            None => None,
        }
    }
}

/// The 64-bit integer at the front of `s`, with the number of bytes it
/// takes. An integer that takes more than ten bytes, or does not fit 64
/// bits, is refused.
pub open spec fn read_varint(s: Seq<u8>) -> Option<(u64, nat)> {
    match parse_varint(s) {
        Some((v, n)) => if n <= 10 && v <= u64::MAX {
            Some((v as u64, n))
        } else {
            None
        },
        None => None,
    }
}

/// `128` to the power of `k`.
pub open spec fn pow128(k: nat) -> nat
    decreases k,
{
    if k == 0 {
        1
    } else {
        128 * pow128((k - 1) as nat)
    }
}

proof fn lemma_pow128_grows(i: nat, j: nat)
    requires
        i <= j,
    ensures
        1 <= pow128(i) <= pow128(j),
    decreases j,
{
    if j > 0 {
        if i < j {
            lemma_pow128_grows(i, (j - 1) as nat);
        } else {
            lemma_pow128_grows((i - 1) as nat, (j - 1) as nat);
        }
    }
}

proof fn lemma_pow128_values()
    ensures
        pow128(9) == 0x8000_0000_0000_0000,
        pow128(10) == 0x40_0000_0000_0000_0000,
{
    reveal_with_fuel(pow128, 11);
}

/// A variable-length integer takes at least one byte, and as many bytes as
/// it has groups of seven bits.
pub proof fn lemma_varint_len(v: nat, k: nat)
    requires
        v < pow128(k),
        k >= 1,
    ensures
        1 <= varint(v).len() <= k,
    decreases k,
{
    if v >= 128 {
        if k == 1 {
            reveal_with_fuel(pow128, 2);
        } else {
            assert(pow128(k) == 128 * pow128((k - 1) as nat));
            lemma_varint_len(v / 128, (k - 1) as nat);
        }
    }
}

/// A 64-bit integer takes ten bytes at most.
pub proof fn lemma_varint_u64_len(v: u64)
    ensures
        1 <= varint(v as nat).len() <= 10,
{
    lemma_pow128_values();
    lemma_varint_len(v as nat, 10);
}

/// What was written as a variable-length integer is read back, whatever
/// follows it.
pub proof fn lemma_parse_varint_back(v: nat, rest: Seq<u8>)
    ensures
        parse_varint(varint(v) + rest) == Some((v, varint(v).len())),
    decreases v,
{
    let s = varint(v) + rest;
    if v < 128 {
        assert(s[0] == v as u8);
    } else {
        assert(s[0] == (v % 128 + 128) as u8);
        assert(s.drop_first() =~= varint(v / 128) + rest);
        lemma_parse_varint_back(v / 128, rest);
    }
}

/// A 64-bit integer that was written is read back, whatever follows it.
pub proof fn lemma_read_varint_back(v: u64, rest: Seq<u8>)
    ensures
        read_varint(varint(v as nat) + rest) == Some((v, varint(v as nat).len())),
{
    lemma_parse_varint_back(v as nat, rest);
    lemma_varint_u64_len(v);
}

/// Appends `src` to `out`.
pub fn put_bytes(out: &mut Vec<u8>, src: &[u8])
    ensures
        final(out)@ == old(out)@ + src@,
{
    let mut k: usize = 0;
    while k < src.len()
        invariant
            k <= src.len(),
            out@ == old(out)@ + src@.subrange(0, k as int),
        decreases src.len() - k,
    {
        out.push(src[k]);
        k = k + 1;
        assert(out@ =~= old(out)@ + src@.subrange(0, k as int));
    }
    assert(src@.subrange(0, src.len() as int) =~= src@);
}

/// Appends `v` as a variable-length integer.
pub fn put_varint(out: &mut Vec<u8>, v: u64)
    ensures
        final(out)@ == old(out)@ + varint(v as nat),
{
    let mut left: u64 = v;
    let ghost mut written: Seq<u8> = Seq::empty();
    while left >= 128
        invariant
            out@ == old(out)@ + written,
            written + varint(left as nat) == varint(v as nat),
        decreases left,
    {
        let byte: u8 = (left % 128 + 128) as u8;
        out.push(byte);
        proof {
            assert(varint(left as nat) =~= seq![byte] + varint((left / 128) as nat));
            assert(written.push(byte) + varint((left / 128) as nat) =~= written + varint(
                left as nat,
            ));
            written = written.push(byte);
        }
        left = left / 128;
        assert(out@ =~= old(out)@ + written);
    }
    out.push(left as u8);
    assert(out@ =~= old(out)@ + varint(v as nat));
}

spec fn lifted(inner: Option<(nat, nat)>, acc: nat, scale: nat, used: nat) -> Option<(nat, nat)> {
    match inner {
        Some((v, n)) => Some((acc + scale * v, n + used)),
        None => None,
    }
}

/// Reads the variable-length integer at `pos`: the integer and the position
/// behind it.
pub fn take_varint(buf: &[u8], pos: usize) -> (r: Option<(u64, usize)>)
    requires
        pos <= buf@.len(),
    ensures
        match read_varint(buf@.skip(pos as int)) {
            Some((v, n)) => r matches Some((got, next)) && got == v && next == pos + n,
            None => r is None,
        },
        r matches Some((_, next)) ==> pos < next <= buf@.len(),
{
    let ghost s = buf@.skip(pos as int);
    let mut acc: u128 = 0;
    let mut scale: u128 = 1;
    let mut i: usize = 0;
    proof {
        assert(s.skip(0) =~= s);
        lemma_pow128_values();
    }
    while i < 10 && i < buf.len() - pos
        invariant
            i <= 10,
            pos + i <= buf@.len(),
            s == buf@.skip(pos as int),
            scale == pow128(i as nat),
            acc < scale,
            parse_varint(s) == lifted(parse_varint(s.skip(i as int)), acc as nat, scale as nat, i as nat),
        decreases 10 - i,
    {
        let byte = buf[pos + i];
        let ghost tail = s.skip(i as int);
        proof {
            lemma_pow128_values();
            lemma_pow128_grows(i as nat, 9);
            assert(tail[0] == byte);
            assert(tail.drop_first() =~= s.skip(i + 1));
        }
        if byte < 128 {
            assert(scale * byte <= 0x8000_0000_0000_0000 * 127) by (nonlinear_arith)
                requires
                    scale <= 0x8000_0000_0000_0000,
                    byte <= 127,
            ;
            let total: u128 = acc + scale * (byte as u128);
            if total > 0xffff_ffff_ffff_ffff {
                return None;
            }
            return Some((total as u64, pos + i + 1));
        }
        let low: u128 = (byte - 128) as u128;
        assert(scale * low <= 0x8000_0000_0000_0000 * 127) by (nonlinear_arith)
            requires
                scale <= 0x8000_0000_0000_0000,
                low <= 127,
        ;
        let ghost old_acc = acc;
        let ghost old_scale = scale;
        acc = acc + scale * low;
        scale = scale * 128;
        proof {
            assert(acc < scale) by (nonlinear_arith)
                requires
                    acc == old_acc + old_scale * low,
                    scale == old_scale * 128,
                    old_acc < old_scale,
                    low <= 127,
            ;
            match parse_varint(s.skip(i + 1)) {
                Some((v, n)) => {
                    assert(old_acc + old_scale * (low + 128 * v) == acc + scale * v)
                        by (nonlinear_arith)
                        requires
                            acc == old_acc + old_scale * low,
                            scale == old_scale * 128,
                    ;
                },
                None => {},
            }
        }
        i = i + 1;
    }
    proof {
        if i < 10 {
            assert(s.skip(i as int).len() == 0);
        }
    }
    None
}

/// What a field holds.
#[derive(Debug, PartialEq, Eq)]
pub enum Value {
    /// A variable-length integer.
    Varint(u64),
    /// Eight bytes.
    Fixed64(Vec<u8>),
    /// A run of bytes with its length in front: a string, a byte buffer or a
    /// message.
    Bytes(Vec<u8>),
    /// Four bytes.
    Fixed32(Vec<u8>),
}

/// A field as it is read, before its number is given a meaning.
#[derive(Debug, PartialEq, Eq)]
pub struct Field {
    pub number: u32,
    pub value: Value,
}

/// What a field holds, as sequences.
pub enum ValueView {
    Varint(u64),
    Fixed64(Seq<u8>),
    Bytes(Seq<u8>),
    Fixed32(Seq<u8>),
}

/// A field, as sequences.
pub struct FieldView {
    pub number: u32,
    pub value: ValueView,
}

impl View for Value {
    type V = ValueView;

    open spec fn view(&self) -> ValueView {
        match self {
            Value::Varint(v) => ValueView::Varint(*v),
            Value::Fixed64(raw) => ValueView::Fixed64(raw@),
            Value::Bytes(bytes) => ValueView::Bytes(bytes@),
            Value::Fixed32(raw) => ValueView::Fixed32(raw@),
        }
    }
}

impl View for Field {
    type V = FieldView;

    open spec fn view(&self) -> FieldView {
        FieldView { number: self.number, value: self.value@ }
    }
}

/// The fields of a vector, as sequences.
pub open spec fn fields_view(fields: Seq<Field>) -> Seq<FieldView> {
    Seq::new(fields.len(), |k: int| fields[k]@)
}

impl ValueView {
    /// The kind of the value, as the key holds it.
    pub open spec fn kind(self) -> nat {
        match self {
            ValueView::Varint(_) => 0,
            ValueView::Fixed64(_) => 1,
            ValueView::Bytes(_) => 2,
            ValueView::Fixed32(_) => 5,
        }
    }

    /// The bytes of the value.
    pub open spec fn bytes(self) -> Seq<u8> {
        match self {
            ValueView::Varint(v) => varint(v as nat),
            ValueView::Fixed64(raw) => raw,
            ValueView::Bytes(bytes) => varint(bytes.len()) + bytes,
            ValueView::Fixed32(raw) => raw,
        }
    }

    /// Whether the value can be written: fixed values have their width, and
    /// a run of bytes has a length of 64 bits.
    pub open spec fn valid(self) -> bool {
        match self {
            ValueView::Varint(_) => true,
            ValueView::Fixed64(raw) => raw.len() == 8,
            ValueView::Bytes(bytes) => bytes.len() <= u64::MAX,
            ValueView::Fixed32(raw) => raw.len() == 4,
        }
    }
}

impl FieldView {
    /// The key of the field.
    pub open spec fn key(self) -> nat {
        self.number as nat * 8 + self.value.kind()
    }

    /// The bytes of the field: its key, then its value.
    pub open spec fn bytes(self) -> Seq<u8> {
        varint(self.key()) + self.value.bytes()
    }

    /// Whether the field can be written and read back: its number is not
    /// zero and its key fits 32 bits.
    pub open spec fn valid(self) -> bool {
        0 < self.number < 0x2000_0000 && self.value.valid()
    }
}

/// The field at the front of `s`, with the number of bytes it takes.
/// Refused are a key beyond 32 bits, the field number zero, the kinds that
/// this format does not use, and a value that `s` does not hold in full.
pub open spec fn parse_field(s: Seq<u8>) -> Option<(FieldView, nat)> {
    match read_varint(s) {
        None => None,
        Some((key, n)) => {
            let number = (key / 8) as u32;
            let kind = key % 8;
            let rest = s.skip(n as int);
            if key > u32::MAX || key / 8 == 0 {
                None
            } else if kind == 0 {
                match read_varint(rest) {
                    Some((v, m)) => Some((FieldView { number, value: ValueView::Varint(v) }, n + m)),
                    None => None,
                }
            } else if kind == 1 {
                if rest.len() >= 8 {
                    Some(
                        (
                            FieldView { number, value: ValueView::Fixed64(rest.subrange(0, 8)) },
                            n + 8,
                        ),
                    )
                } else {
                    None
                }
            } else if kind == 2 {
                match read_varint(rest) {
                    Some((len, m)) => if len <= rest.len() - m {
                        Some(
                            (
                                FieldView {
                                    number,
                                    value: ValueView::Bytes(rest.subrange(m as int, m + len)),
                                },
                                n + m + len as nat,
                            ),
                        )
                    } else {
                        None
                    },
                    None => None,
                }
            } else if kind == 5 {
                if rest.len() >= 4 {
                    Some(
                        (
                            FieldView { number, value: ValueView::Fixed32(rest.subrange(0, 4)) },
                            n + 4,
                        ),
                    )
                } else {
                    None
                }
            } else {
                None
            }
        },
    }
}

/// The fields that `s` is made of, first to last; `None` where `s` is not a
/// run of fields.
pub open spec fn parse_fields(s: Seq<u8>) -> Option<Seq<FieldView>>
    decreases s.len(),
{
    if s.len() == 0 {
        Some(Seq::empty())
    } else {
        match parse_field(s) {
            Some((field, n)) => if 0 < n <= s.len() {
                match parse_fields(s.skip(n as int)) {
                    Some(more) => Some(seq![field] + more),
                    None => None,
                }
            } else {
                None
            },
            None => None,
        }
    }
}

/// A field that was written is read back, whatever follows it.
pub proof fn lemma_parse_field_back(field: FieldView, rest: Seq<u8>)
    requires
        field.valid(),
    ensures
        parse_field(field.bytes() + rest) == Some((field, field.bytes().len())),
        field.bytes().len() > 0,
{
    let s = field.bytes() + rest;
    let key = field.key();
    let key_bytes = varint(key);
    let after_key = field.value.bytes() + rest;
    assert(s =~= key_bytes + after_key);
    lemma_read_varint_back(key as u64, after_key);
    assert(s.skip(key_bytes.len() as int) =~= after_key);
    match field.value {
        ValueView::Varint(v) => {
            lemma_read_varint_back(v, rest);
        },
        ValueView::Fixed64(raw) => {
            assert(after_key.subrange(0, 8) =~= raw);
        },
        ValueView::Bytes(bytes) => {
            lemma_read_varint_back(bytes.len() as u64, bytes + rest);
            let m = varint(bytes.len()).len();
            assert(after_key =~= varint(bytes.len()) + (bytes + rest));
            assert(after_key.subrange(m as int, (m + bytes.len()) as int) =~= bytes);
        },
        ValueView::Fixed32(raw) => {
            assert(after_key.subrange(0, 4) =~= raw);
        },
    }
}

/// A field that was written in front of a run of fields is read back as the
/// first of them.
pub proof fn lemma_parse_fields_back(field: FieldView, rest: Seq<u8>)
    requires
        field.valid(),
    ensures
        parse_fields(field.bytes() + rest) == match parse_fields(rest) {
            Some(more) => Some(seq![field] + more),
            None => None,
        },
{
    let s = field.bytes() + rest;
    lemma_parse_field_back(field, rest);
    assert(s.skip(field.bytes().len() as int) =~= rest);
}

/// The run of bytes that a run of fields is written as.
pub open spec fn encode_fields(fields: Seq<FieldView>) -> Seq<u8>
    decreases fields.len(),
{
    if fields.len() == 0 {
        Seq::empty()
    } else {
        fields[0].bytes() + encode_fields(fields.drop_first())
    }
}

/// Whether every field of the run can be written and read back.
pub open spec fn all_valid(fields: Seq<FieldView>) -> bool {
    forall|k: int| 0 <= k < fields.len() ==> (#[trigger] fields[k]).valid()
}

/// Writing a field in front of a run writes its bytes in front of the
/// run's.
pub proof fn lemma_encode_fields_cons(field: FieldView, more: Seq<FieldView>)
    ensures
        encode_fields(seq![field] + more) == field.bytes() + encode_fields(more),
{
    let all = seq![field] + more;
    assert(all[0] == field);
    assert(all.drop_first() =~= more);
}

/// A run of fields that was written is read back.
pub proof fn lemma_fields_round_trip(fields: Seq<FieldView>)
    requires
        all_valid(fields),
    ensures
        parse_fields(encode_fields(fields)) == Some(fields),
    decreases fields.len(),
{
    if fields.len() > 0 {
        let more = fields.drop_first();
        assert forall|k: int| 0 <= k < more.len() implies (#[trigger] more[k]).valid() by {
            assert(more[k] == fields[k + 1]);
        }
        lemma_fields_round_trip(more);
        lemma_parse_fields_back(fields[0], encode_fields(more));
        assert(seq![fields[0]] + more =~= fields);
    }
}

/// Appends the key of a field.
pub fn put_key(out: &mut Vec<u8>, number: u32, kind: u8)
    requires
        number < 0x2000_0000,
        kind < 8,
    ensures
        final(out)@ == old(out)@ + varint(number as nat * 8 + kind as nat),
{
    put_varint(out, number as u64 * 8 + kind as u64);
}

/// Appends a field that holds a variable-length integer.
pub fn put_varint_field(out: &mut Vec<u8>, number: u32, v: u64)
    requires
        number < 0x2000_0000,
    ensures
        final(out)@ == old(out)@ + (FieldView { number, value: ValueView::Varint(v) }).bytes(),
{
    put_key(out, number, 0);
    put_varint(out, v);
    assert(final(out)@ =~= old(out)@ + (FieldView { number, value: ValueView::Varint(v) }).bytes());
}

/// Appends a field that holds a run of bytes.
pub fn put_bytes_field(out: &mut Vec<u8>, number: u32, payload: &[u8])
    requires
        number < 0x2000_0000,
    ensures
        final(out)@ == old(out)@ + (FieldView {
            number,
            value: ValueView::Bytes(payload@),
        }).bytes(),
{
    put_key(out, number, 2);
    put_varint(out, payload.len() as u64);
    put_bytes(out, payload);
    assert(final(out)@ =~= old(out)@ + (FieldView {
        number,
        value: ValueView::Bytes(payload@),
    }).bytes());
}

/// Appends a field that holds four bytes.
pub fn put_fixed32_field(out: &mut Vec<u8>, number: u32, raw: &[u8])
    requires
        number < 0x2000_0000,
    ensures
        final(out)@ == old(out)@ + (FieldView { number, value: ValueView::Fixed32(raw@) }).bytes(),
{
    put_key(out, number, 5);
    put_bytes(out, raw);
    assert(final(out)@ =~= old(out)@ + (FieldView {
        number,
        value: ValueView::Fixed32(raw@),
    }).bytes());
}

/// Reads the field at `pos`: the field and the position behind it.
pub fn take_field(buf: &[u8], pos: usize) -> (r: Option<(Field, usize)>)
    requires
        pos <= buf@.len(),
    ensures
        match parse_field(buf@.skip(pos as int)) {
            Some((field, n)) => r matches Some((got, next)) && got@ == field && next == pos + n,
            None => r is None,
        },
        r matches Some((_, next)) ==> pos < next <= buf@.len(),
{
    let ghost s = buf@.skip(pos as int);
    let (key, after_key) = match take_varint(buf, pos) {
        Some(pair) => pair,
        None => {
            return None;
        },
    };
    if key > 0xffff_ffff || key / 8 == 0 {
        return None;
    }
    let number: u32 = (key / 8) as u32;
    let kind: u64 = key % 8;
    let ghost rest = s.skip(after_key - pos);
    assert(rest =~= buf@.skip(after_key as int));
    if kind == 0 {
        match take_varint(buf, after_key) {
            Some((v, next)) => Some((Field { number, value: Value::Varint(v) }, next)),
            None => None,
        }
    } else if kind == 1 {
        if buf.len() - after_key >= 8 {
            let raw = slice_to_vec(slice_subrange(buf, after_key, after_key + 8));
            assert(raw@ =~= rest.subrange(0, 8));
            Some((Field { number, value: Value::Fixed64(raw) }, after_key + 8))
        } else {
            None
        }
    } else if kind == 2 {
        match take_varint(buf, after_key) {
            Some((len, start)) => {
                if len <= (buf.len() - start) as u64 {
                    let end: usize = start + len as usize;
                    let bytes = slice_to_vec(slice_subrange(buf, start, end));
                    assert(bytes@ =~= rest.subrange(start - after_key, start - after_key + len));
                    Some((Field { number, value: Value::Bytes(bytes) }, end))
                } else {
                    None
                }
            },
            None => None,
        }
    } else if kind == 5 {
        if buf.len() - after_key >= 4 {
            let raw = slice_to_vec(slice_subrange(buf, after_key, after_key + 4));
            assert(raw@ =~= rest.subrange(0, 4));
            Some((Field { number, value: Value::Fixed32(raw) }, after_key + 4))
        } else {
            None
        }
    } else {
        None
    }
}

spec fn prepended(front: Seq<FieldView>, more: Option<Seq<FieldView>>) -> Option<Seq<FieldView>> {
    match more {
        Some(fields) => Some(front + fields),
        None => None,
    }
}

/// Reads a run of fields.
pub fn read_fields(buf: &[u8]) -> (r: Option<Vec<Field>>)
    ensures
        match parse_fields(buf@) {
            Some(fields) => r matches Some(got) && fields_view(got@) == fields,
            None => r is None,
        },
{
    let mut fields: Vec<Field> = Vec::new();
    let mut pos: usize = 0;
    proof {
        assert(buf@.skip(0) =~= buf@);
        assert(fields_view(fields@) =~= Seq::<FieldView>::empty());
        match parse_fields(buf@) {
            Some(all) => {
                assert(Seq::<FieldView>::empty() + all =~= all);
            },
            None => {},
        }
    }
    while pos < buf.len()
        invariant
            pos <= buf@.len(),
            parse_fields(buf@) == prepended(
                fields_view(fields@),
                parse_fields(buf@.skip(pos as int)),
            ),
        decreases buf@.len() - pos,
    {
        let ghost s = buf@.skip(pos as int);
        let ghost front = fields_view(fields@);
        match take_field(buf, pos) {
            Some((field, next)) => {
                proof {
                    assert(s.skip(next - pos) =~= buf@.skip(next as int));
                    let f = field@;
                    assert(fields_view(fields@.push(field)) =~= front.push(f));
                    match parse_fields(buf@.skip(next as int)) {
                        Some(more) => {
                            assert(front + (seq![f] + more) =~= front.push(f) + more);
                        },
                        None => {},
                    }
                }
                fields.push(field);
                pos = next;
            },
            None => {
                return None;
            },
        }
    }
    proof {
        assert(fields_view(fields@) + Seq::<FieldView>::empty() =~= fields_view(fields@));
    }
    Some(fields)
}

/// A message with its length in front.
pub open spec fn frame(payload: Seq<u8>) -> Seq<u8> {
    varint(payload.len()) + payload
}

/// Appends a message with its length in front.
pub fn put_frame(out: &mut Vec<u8>, payload: &[u8])
    ensures
        final(out)@ == old(out)@ + frame(payload@),
{
    put_varint(out, payload.len() as u64);
    put_bytes(out, payload);
    assert(final(out)@ =~= old(out)@ + frame(payload@));
}

/// What stands at the front of a buffer of received bytes.
pub enum Framing {
    /// The front of a frame, not yet all of it.
    Incomplete,
    /// Nothing that a frame can start with.
    Bad,
    /// A frame: its message and the number of bytes of the whole frame.
    Frame(Seq<u8>, nat),
}

/// Whether no byte of `s` ends a variable-length integer.
pub open spec fn all_continue(s: Seq<u8>) -> bool {
    forall|k: int| 0 <= k < s.len() ==> #[trigger] s[k] >= 128
}

/// What stands at the front of `s`. A length is cut short where fewer than
/// ten bytes are there and each of them announces another.
pub open spec fn first_frame(s: Seq<u8>) -> Framing {
    match read_varint(s) {
        Some((len, n)) => if len <= s.len() - n {
            Framing::Frame(s.subrange(n as int, n + len), n + len as nat)
        } else {
            Framing::Incomplete
        },
        None => if s.len() < 10 && all_continue(s) {
            Framing::Incomplete
        } else {
            Framing::Bad
        },
    }
}

/// What `next_frame` found.
#[derive(Clone, Copy, Debug, PartialEq, Eq, Structural)]
pub enum FrameStep {
    /// More bytes are needed.
    Incomplete,
    /// The bytes are no frame: the connection is to be closed.
    Bad,
    /// A message lies at `start..end` of the buffer, and the next frame
    /// starts at `end`.
    Frame { start: usize, end: usize },
}

/// Finds the frame at the front of a buffer of received bytes.
pub fn next_frame(buf: &[u8]) -> (step: FrameStep)
    ensures
        match first_frame(buf@) {
            Framing::Incomplete => step == FrameStep::Incomplete,
            Framing::Bad => step == FrameStep::Bad,
            Framing::Frame(payload, used) => step matches FrameStep::Frame { start, end }
                && start <= end <= buf@.len() && end == used && payload == buf@.subrange(
                start as int,
                end as int,
            ),
        },
{
    assert(buf@.skip(0) =~= buf@);
    match take_varint(buf, 0) {
        Some((len, start)) => {
            if len <= (buf.len() - start) as u64 {
                FrameStep::Frame { start, end: start + len as usize }
            } else {
                FrameStep::Incomplete
            }
        },
        None => {
            if buf.len() >= 10 {
                return FrameStep::Bad;
            }
            let mut k: usize = 0;
            while k < buf.len()
                invariant
                    k <= buf.len(),
                    buf.len() < 10,
                    read_varint(buf@) is None,
                    forall|j: int| 0 <= j < k ==> #[trigger] buf@[j] >= 128,
                decreases buf.len() - k,
            {
                if buf[k] < 128 {
                    assert(buf@[k as int] < 128);
                    return FrameStep::Bad;
                }
                k = k + 1;
            }
            FrameStep::Incomplete
        },
    }
}

/// A frame that was written is found again, whatever follows it.
pub proof fn lemma_frame_round_trip(payload: Seq<u8>, rest: Seq<u8>)
    requires
        payload.len() <= u64::MAX,
    ensures
        first_frame(frame(payload) + rest) == Framing::Frame(payload, frame(payload).len()),
{
    let s = frame(payload) + rest;
    assert(s =~= varint(payload.len()) + (payload + rest));
    lemma_read_varint_back(payload.len() as u64, payload + rest);
    let n = varint(payload.len()).len();
    assert(s.subrange(n as int, (n + payload.len()) as int) =~= payload);
}

} // verus!
