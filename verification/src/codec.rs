//! The messages as bytes.
//!
//! Each message is a run of fields; the number of a field says what it
//! means. Reading takes the fields in any order, lets the last of several
//! win, and passes over field numbers that it does not know. A field that is
//! known but holds the wrong kind of value makes the whole message
//! unreadable, and so does a name that is not UTF-8.
//!
//! | message    | field             | number | value                     |
//! |------------|-------------------|--------|---------------------------|
//! | connection | `connect_as_node` | 1      | integer, zero for `false` |
//! | data       | `type`            | 1      | integer, `CAN` is 0       |
//! | data       | `id`              | 2      | integer                   |
//! | data       | `source`          | 3      | integer                   |
//! | data       | `target`          | 4      | integer, may be missing   |
//! | data       | `data`            | 5      | bytes                     |
//! | route      | `from`            | 1      | integer                   |
//! | route      | `to`              | 2      | integer                   |
//! | request    | `set_name`        | 1      | text                      |
//! | request    | `query`           | 2      | integer, `NULL` is 0      |
//! | request    | `data`            | 3      | data message              |
//! | request    | `add_route`       | 4      | route message             |
//! | request    | `del_route`       | 5      | route message             |
//! | request    | `can_drop_chance` | 6      | four bytes, low first     |
//! | response   | `node`            | 1      | integer                   |
//! | response   | `idlist`          | 2      | listing message           |
//! | response   | `data`            | 3      | data message              |
//! | listing    | `ids`             | 1      | row message, repeated     |
//! | row        | `id`              | 1      | integer                   |
//! | row        | `name`            | 2      | text                      |
//!
//! A signed integer travels as the 64-bit two's complement of its value.

use crate::rics::{
    DataView, IdView, RICS_Connection, RICS_Data, RICS_Data_RICS_DataType, RICS_Request,
    RICS_Request_RICS_Query, RICS_Response, RICS_Response_RICS_Id, RICS_Response_RICS_IdList,
    RICS_Route, RequestView, ResponseView,
};
use crate::wire::{
    encode_fields, fields_view, lemma_fields_round_trip, parse_fields, put_bytes_field,
    put_fixed32_field, put_varint_field, read_fields, FieldView, Value, ValueView,
};
use vstd::prelude::*;
use vstd::utf8::{decode_utf8, encode_utf8, valid_utf8};

verus! {

/// A signed integer as it travels.
pub open spec fn wire_of_i32(v: i32) -> u64 {
    if v >= 0 {
        v as u64
    } else {
        (0x1_0000_0000_0000_0000 + v) as u64
    }
}

/// The signed integer that the low 32 bits of `w` stand for.
pub open spec fn i32_of_wire(w: u64) -> i32 {
    let low = w % 0x1_0000_0000;
    if low >= 0x8000_0000 {
        (low - 0x1_0000_0000) as i32
    } else {
        low as i32
    }
}

/// A signed integer that was sent arrives.
pub proof fn lemma_i32_round_trip(v: i32)
    ensures
        i32_of_wire(wire_of_i32(v)) == v,
{
}

pub fn to_wire(v: i32) -> (w: u64)
    ensures
        w == wire_of_i32(v),
{
    if v >= 0 {
        v as u64
    } else {
        let below: u64 = (-(v as i64)) as u64;
        0xffff_ffff_ffff_ffff - (below - 1)
    }
}

pub fn from_wire(w: u64) -> (v: i32)
    ensures
        v == i32_of_wire(w),
{
    let low: u64 = w % 0x1_0000_0000;
    if low >= 0x8000_0000 {
        (low as i64 - 0x1_0000_0000) as i32
    } else {
        low as i32
    }
}

/// The four bytes of a 32-bit pattern, low byte first.
pub open spec fn le32(bits: u32) -> Seq<u8> {
    seq![
        (bits % 256) as u8,
        (bits / 256 % 256) as u8,
        (bits / 65536 % 256) as u8,
        (bits / 16777216) as u8,
    ]
}

/// The 32-bit pattern of four bytes, low byte first.
pub open spec fn from_le32(raw: Seq<u8>) -> u32 {
    (raw[0] + raw[1] * 256 + raw[2] * 65536 + raw[3] * 16777216) as u32
}

/// A pattern that was sent arrives.
pub proof fn lemma_le32_round_trip(bits: u32)
    ensures
        le32(bits).len() == 4,
        from_le32(le32(bits)) == bits,
{
}

/// The four bytes of a pattern, low byte first.
pub fn bytes_of_bits(bits: u32) -> (raw: Vec<u8>)
    ensures
        raw@ == le32(bits),
{
    let mut raw: Vec<u8> = Vec::new();
    raw.push((bits % 256) as u8);
    raw.push((bits / 256 % 256) as u8);
    raw.push((bits / 65536 % 256) as u8);
    raw.push((bits / 16777216) as u8);
    assert(raw@ =~= le32(bits));
    raw
}

/// The pattern of four bytes, low byte first.
pub fn bits_of_bytes(raw: &Vec<u8>) -> (bits: u32)
    requires
        raw@.len() == 4,
    ensures
        bits == from_le32(raw@),
{
    raw[0] as u32 + raw[1] as u32 * 256 + raw[2] as u32 * 65536 + raw[3] as u32 * 16777216
}

/// Turns bytes into text.
///
/// Wraps `String::from_utf8`. The contract claims what its documentation
/// says: the call succeeds on UTF-8 and on nothing else, and the text it
/// gives is made of the very bytes it took.
#[verifier::external_body]
fn string_from_utf8(bytes: Vec<u8>) -> (text: Option<String>)
    ensures
        text is Some <==> valid_utf8(bytes@),
        text matches Some(s) ==> encode_utf8(s@) == bytes@,
{
    String::from_utf8(bytes).ok()
}

/// The text that bytes spell, where they are UTF-8.
pub open spec fn text_of(bytes: Seq<u8>) -> Option<Seq<char>> {
    if valid_utf8(bytes) {
        Some(decode_utf8(bytes))
    } else {
        None
    }
}

fn read_text(bytes: &Vec<u8>) -> (text: Option<String>)
    ensures
        match text_of(bytes@) {
            Some(chars) => text matches Some(s) && s@ == chars,
            None => text is None,
        },
{
    match string_from_utf8(bytes.clone()) {
        Some(s) => {
            proof {
                vstd::utf8::encode_utf8_decode_utf8(s@);
            }
            Some(s)
        },
        None => None,
    }
}

/// A text that was sent arrives.
pub proof fn lemma_text_round_trip(chars: Seq<char>)
    ensures
        text_of(encode_utf8(chars)) == Some(chars),
{
    vstd::utf8::encode_utf8_valid_utf8(chars);
    vstd::utf8::encode_utf8_decode_utf8(chars);
}

/// What a run of fields amounts to: `step` takes in one field after the
/// other, first to last, and the first field it refuses spoils the run.
pub open spec fn fold_fields<A>(
    fields: Seq<FieldView>,
    acc: A,
    step: spec_fn(A, FieldView) -> Option<A>,
) -> Option<A>
    decreases fields.len(),
{
    if fields.len() == 0 {
        Some(acc)
    } else {
        match step(acc, fields[0]) {
            Some(next) => fold_fields(fields.drop_first(), next, step),
            None => None,
        }
    }
}

proof fn lemma_fold_cons<A>(
    field: FieldView,
    more: Seq<FieldView>,
    acc: A,
    step: spec_fn(A, FieldView) -> Option<A>,
)
    ensures
        fold_fields(seq![field] + more, acc, step) == match step(acc, field) {
            Some(next) => fold_fields(more, next, step),
            None => None,
        },
{
    let all = seq![field] + more;
    assert(all[0] == field);
    assert(all.drop_first() =~= more);
}

proof fn lemma_encode_fields_push(fields: Seq<FieldView>, field: FieldView)
    ensures
        encode_fields(fields.push(field)) == encode_fields(fields) + field.bytes(),
    decreases fields.len(),
{
    let all = fields.push(field);
    if fields.len() == 0 {
        assert(all[0] == field);
        assert(all.drop_first() =~= Seq::<FieldView>::empty());
        assert(encode_fields(all.drop_first()) =~= Seq::<u8>::empty());
        assert(encode_fields(all) =~= field.bytes());
        assert(encode_fields(fields) + field.bytes() =~= field.bytes());
    } else {
        assert(all[0] == fields[0]);
        assert(all.drop_first() =~= fields.drop_first().push(field));
        lemma_encode_fields_push(fields.drop_first(), field);
        assert(encode_fields(all) =~= encode_fields(fields) + field.bytes());
    }
}

/// A field that holds an integer.
pub open spec fn int_field(number: u32, v: i32) -> FieldView {
    FieldView { number, value: ValueView::Varint(wire_of_i32(v)) }
}

/// A field that holds bytes.
pub open spec fn bytes_field(number: u32, bytes: Seq<u8>) -> FieldView {
    FieldView { number, value: ValueView::Bytes(bytes) }
}

// ---------------------------------------------------------------- connection

pub open spec fn connection_with(acc: RICS_Connection, field: FieldView) -> Option<
    RICS_Connection,
> {
    if field.number == 1 {
        match field.value {
            ValueView::Varint(v) => Some(RICS_Connection { connect_as_node: i32_of_wire(v) != 0 }),
            _ => None,
        }
    } else {
        Some(acc)
    }
}

pub open spec fn connection_step() -> spec_fn(RICS_Connection, FieldView) -> Option<
    RICS_Connection,
> {
    |acc: RICS_Connection, field: FieldView| connection_with(acc, field)
}

pub open spec fn connection_fields(c: RICS_Connection) -> Seq<FieldView> {
    seq![int_field(1, if c.connect_as_node { 1i32 } else { 0i32 })]
}

/// The bytes of a connection message.
pub open spec fn connection_bytes(c: RICS_Connection) -> Seq<u8> {
    encode_fields(connection_fields(c))
}

/// The connection message that bytes spell.
pub open spec fn connection_of(s: Seq<u8>) -> Option<RICS_Connection> {
    match parse_fields(s) {
        Some(fields) => fold_fields(
            fields,
            RICS_Connection { connect_as_node: false },
            connection_step(),
        ),
        None => None,
    }
}

pub fn encode_connection(c: &RICS_Connection) -> (out: Vec<u8>)
    ensures
        out@ == connection_bytes(*c),
{
    let mut out: Vec<u8> = Vec::new();
    let flag: i32 = if c.connect_as_node {
        1
    } else {
        0
    };
    put_varint_field(&mut out, 1, to_wire(flag));
    proof {
        lemma_encode_fields_push(Seq::empty(), int_field(1, flag));
        assert(Seq::<FieldView>::empty().push(int_field(1, flag)) =~= connection_fields(*c));
        assert(out@ =~= connection_bytes(*c));
    }
    out
}

pub fn decode_connection(buf: &[u8]) -> (r: Option<RICS_Connection>)
    ensures
        r == connection_of(buf@),
{
    let fields = match read_fields(buf) {
        Some(fields) => fields,
        None => {
            return None;
        },
    };
    let mut acc = RICS_Connection { connect_as_node: false };
    let mut k: usize = 0;
    let ghost all = fields_view(fields@);
    assert(all.skip(0) =~= all);
    while k < fields.len()
        invariant
            k <= fields.len(),
            all == fields_view(fields@),
            connection_of(buf@) == fold_fields(all.skip(k as int), acc, connection_step()),
        decreases fields.len() - k,
    {
        proof {
            assert(all.skip(k as int)[0] == fields@[k as int]@);
            assert(all.skip(k as int).drop_first() =~= all.skip(k + 1));
        }
        let field = &fields[k];
        if field.number == 1 {
            match &field.value {
                Value::Varint(v) => {
                    acc = RICS_Connection { connect_as_node: from_wire(*v) != 0 };
                },
                _ => {
                    return None;
                },
            }
        }
        k = k + 1;
    }
    Some(acc)
}

/// A connection message that was sent arrives.
pub proof fn lemma_connection_round_trip(c: RICS_Connection)
    ensures
        connection_of(connection_bytes(c)) == Some(c),
{
    let fields = connection_fields(c);
    lemma_fields_round_trip(fields);
    let start = RICS_Connection { connect_as_node: false };
    assert(fields =~= seq![fields[0]] + Seq::<FieldView>::empty());
    lemma_fold_cons(fields[0], Seq::empty(), start, connection_step());
    lemma_i32_round_trip(if c.connect_as_node { 1i32 } else { 0i32 });
}

// --------------------------------------------------------------------- route

pub open spec fn route_with(acc: RICS_Route, field: FieldView) -> Option<RICS_Route> {
    if field.number == 1 {
        match field.value {
            ValueView::Varint(v) => Some(RICS_Route { from: i32_of_wire(v), ..acc }),
            _ => None,
        }
    } else if field.number == 2 {
        match field.value {
            ValueView::Varint(v) => Some(RICS_Route { to: i32_of_wire(v), ..acc }),
            _ => None,
        }
    } else {
        Some(acc)
    }
}

pub open spec fn route_step() -> spec_fn(RICS_Route, FieldView) -> Option<RICS_Route> {
    |acc: RICS_Route, field: FieldView| route_with(acc, field)
}

pub open spec fn route_fields(r: RICS_Route) -> Seq<FieldView> {
    seq![int_field(1, r.from), int_field(2, r.to)]
}

/// The bytes of a route message.
pub open spec fn route_bytes(r: RICS_Route) -> Seq<u8> {
    encode_fields(route_fields(r))
}

/// The route message that bytes spell.
pub open spec fn route_of(s: Seq<u8>) -> Option<RICS_Route> {
    match parse_fields(s) {
        Some(fields) => fold_fields(fields, RICS_Route { from: 0, to: 0 }, route_step()),
        None => None,
    }
}

pub fn encode_route(r: &RICS_Route) -> (out: Vec<u8>)
    ensures
        out@ == route_bytes(*r),
{
    let mut out: Vec<u8> = Vec::new();
    put_varint_field(&mut out, 1, to_wire(r.from));
    put_varint_field(&mut out, 2, to_wire(r.to));
    proof {
        let first = Seq::<FieldView>::empty().push(int_field(1, r.from));
        lemma_encode_fields_push(Seq::empty(), int_field(1, r.from));
        lemma_encode_fields_push(first, int_field(2, r.to));
        assert(first.push(int_field(2, r.to)) =~= route_fields(*r));
        assert(out@ =~= route_bytes(*r));
    }
    out
}

pub fn decode_route(buf: &[u8]) -> (r: Option<RICS_Route>)
    ensures
        r == route_of(buf@),
{
    let fields = match read_fields(buf) {
        Some(fields) => fields,
        None => {
            return None;
        },
    };
    let mut acc = RICS_Route { from: 0, to: 0 };
    let mut k: usize = 0;
    let ghost all = fields_view(fields@);
    assert(all.skip(0) =~= all);
    while k < fields.len()
        invariant
            k <= fields.len(),
            all == fields_view(fields@),
            route_of(buf@) == fold_fields(all.skip(k as int), acc, route_step()),
        decreases fields.len() - k,
    {
        proof {
            assert(all.skip(k as int)[0] == fields@[k as int]@);
            assert(all.skip(k as int).drop_first() =~= all.skip(k + 1));
        }
        let field = &fields[k];
        if field.number == 1 {
            match &field.value {
                Value::Varint(v) => {
                    acc = RICS_Route { from: from_wire(*v), to: acc.to };
                },
                _ => {
                    return None;
                },
            }
        } else if field.number == 2 {
            match &field.value {
                Value::Varint(v) => {
                    acc = RICS_Route { from: acc.from, to: from_wire(*v) };
                },
                _ => {
                    return None;
                },
            }
        }
        k = k + 1;
    }
    Some(acc)
}

/// A route message that was sent arrives.
pub proof fn lemma_route_round_trip(r: RICS_Route)
    ensures
        route_of(route_bytes(r)) == Some(r),
{
    let fields = route_fields(r);
    lemma_fields_round_trip(fields);
    let start = RICS_Route { from: 0, to: 0 };
    let last = seq![fields[1]] + Seq::<FieldView>::empty();
    assert(fields =~= seq![fields[0]] + last);
    lemma_fold_cons(fields[0], last, start, route_step());
    lemma_fold_cons(fields[1], Seq::empty(), RICS_Route { from: r.from, to: 0 }, route_step());
    lemma_i32_round_trip(r.from);
    lemma_i32_round_trip(r.to);
}

// ---------------------------------------------------------------------- data

/// The number of a data type on the wire.
pub open spec fn data_type_number(t: RICS_Data_RICS_DataType) -> i32 {
    match t {
        RICS_Data_RICS_DataType::CAN => 0,
        RICS_Data_RICS_DataType::STREAM => 1,
    }
}

/// The data type of a number, where it has one.
pub open spec fn data_type_of(n: i32) -> Option<RICS_Data_RICS_DataType> {
    if n == 0 {
        Some(RICS_Data_RICS_DataType::CAN)
    } else if n == 1 {
        Some(RICS_Data_RICS_DataType::STREAM)
    } else {
        None
    }
}

pub open spec fn data_with(acc: DataView, field: FieldView) -> Option<DataView> {
    if field.number == 1 {
        match field.value {
            ValueView::Varint(v) => Some(
                match data_type_of(i32_of_wire(v)) {
                    Some(t) => DataView { field_type: t, ..acc },
                    None => acc,
                },
            ),
            _ => None,
        }
    } else if field.number == 2 {
        match field.value {
            ValueView::Varint(v) => Some(DataView { id: i32_of_wire(v), ..acc }),
            _ => None,
        }
    } else if field.number == 3 {
        match field.value {
            ValueView::Varint(v) => Some(DataView { source: i32_of_wire(v), ..acc }),
            _ => None,
        }
    } else if field.number == 4 {
        match field.value {
            ValueView::Varint(v) => Some(DataView { target: Some(i32_of_wire(v)), ..acc }),
            _ => None,
        }
    } else if field.number == 5 {
        match field.value {
            ValueView::Bytes(bytes) => Some(DataView { data: bytes, ..acc }),
            _ => None,
        }
    } else {
        Some(acc)
    }
}

pub open spec fn data_step() -> spec_fn(DataView, FieldView) -> Option<DataView> {
    |acc: DataView, field: FieldView| data_with(acc, field)
}

/// The fields of a data message: type, id and source, the target where
/// there is one, and the payload.
pub open spec fn data_fields(d: DataView) -> Seq<FieldView> {
    let head = seq![
        int_field(1, data_type_number(d.field_type)),
        int_field(2, d.id),
        int_field(3, d.source),
    ];
    let target = match d.target {
        Some(t) => seq![int_field(4, t)],
        None => Seq::empty(),
    };
    head + target + seq![bytes_field(5, d.data)]
}

/// The bytes of a data message.
pub open spec fn data_bytes(d: DataView) -> Seq<u8> {
    encode_fields(data_fields(d))
}

/// The data message that bytes spell.
pub open spec fn data_of(s: Seq<u8>) -> Option<DataView> {
    match parse_fields(s) {
        Some(fields) => fold_fields(fields, DataView::empty(), data_step()),
        None => None,
    }
}

pub fn encode_data(d: &RICS_Data) -> (out: Vec<u8>)
    ensures
        out@ == data_bytes(d@),
{
    let mut out: Vec<u8> = Vec::new();
    let kind: i32 = match d.field_type {
        RICS_Data_RICS_DataType::CAN => 0,
        RICS_Data_RICS_DataType::STREAM => 1,
    };
    let ghost mut written: Seq<FieldView> = Seq::empty();
    put_varint_field(&mut out, 1, to_wire(kind));
    proof {
        lemma_encode_fields_push(written, int_field(1, kind));
        written = written.push(int_field(1, kind));
    }
    put_varint_field(&mut out, 2, to_wire(d.id));
    proof {
        lemma_encode_fields_push(written, int_field(2, d.id));
        written = written.push(int_field(2, d.id));
    }
    put_varint_field(&mut out, 3, to_wire(d.source));
    proof {
        lemma_encode_fields_push(written, int_field(3, d.source));
        written = written.push(int_field(3, d.source));
    }
    match d.target {
        Some(t) => {
            put_varint_field(&mut out, 4, to_wire(t));
            proof {
                lemma_encode_fields_push(written, int_field(4, t));
                written = written.push(int_field(4, t));
            }
        },
        None => {},
    }
    assert(out@ == encode_fields(written));
    put_bytes_field(&mut out, 5, d.data.as_slice());
    proof {
        lemma_encode_fields_push(written, bytes_field(5, d.data@));
        written = written.push(bytes_field(5, d.data@));
        assert(written =~= data_fields(d@));
    }
    out
}

pub fn decode_data(buf: &[u8]) -> (r: Option<RICS_Data>)
    ensures
        match data_of(buf@) {
            Some(d) => r matches Some(got) && got@ == d,
            None => r is None,
        },
{
    let fields = match read_fields(buf) {
        Some(fields) => fields,
        None => {
            return None;
        },
    };
    let mut acc = RICS_Data::new();
    let mut k: usize = 0;
    let ghost all = fields_view(fields@);
    assert(all.skip(0) =~= all);
    while k < fields.len()
        invariant
            k <= fields.len(),
            all == fields_view(fields@),
            data_of(buf@) == fold_fields(all.skip(k as int), acc@, data_step()),
        decreases fields.len() - k,
    {
        proof {
            assert(all.skip(k as int)[0] == fields@[k as int]@);
            assert(all.skip(k as int).drop_first() =~= all.skip(k + 1));
        }
        let field = &fields[k];
        if field.number == 1 {
            match &field.value {
                Value::Varint(v) => {
                    let n = from_wire(*v);
                    if n == 0 {
                        acc.field_type = RICS_Data_RICS_DataType::CAN;
                    } else if n == 1 {
                        acc.field_type = RICS_Data_RICS_DataType::STREAM;
                    }
                },
                _ => {
                    return None;
                },
            }
        } else if field.number == 2 {
            match &field.value {
                Value::Varint(v) => {
                    acc.id = from_wire(*v);
                },
                _ => {
                    return None;
                },
            }
        } else if field.number == 3 {
            match &field.value {
                Value::Varint(v) => {
                    acc.source = from_wire(*v);
                },
                _ => {
                    return None;
                },
            }
        } else if field.number == 4 {
            match &field.value {
                Value::Varint(v) => {
                    acc.target = Some(from_wire(*v));
                },
                _ => {
                    return None;
                },
            }
        } else if field.number == 5 {
            match &field.value {
                Value::Bytes(bytes) => {
                    acc.data = bytes.clone();
                },
                _ => {
                    return None;
                },
            }
        }
        k = k + 1;
    }
    Some(acc)
}

/// Whether a data message can be sent: the length of its payload fits 64
/// bits.
pub open spec fn data_sendable(d: DataView) -> bool {
    d.data.len() <= u64::MAX
}

/// A data message that was sent arrives: type, id, source, target and
/// payload as they were.
pub proof fn lemma_data_round_trip(d: DataView)
    requires
        data_sendable(d),
    ensures
        data_of(data_bytes(d)) == Some(d),
{
    let fields = data_fields(d);
    lemma_fields_round_trip(fields);
    let step = data_step();
    let f1 = int_field(1, data_type_number(d.field_type));
    let f2 = int_field(2, d.id);
    let f3 = int_field(3, d.source);
    let f5 = bytes_field(5, d.data);
    let none = Seq::<FieldView>::empty();
    lemma_i32_round_trip(data_type_number(d.field_type));
    lemma_i32_round_trip(d.id);
    lemma_i32_round_trip(d.source);
    let a0 = DataView::empty();
    let a1 = DataView { field_type: d.field_type, ..a0 };
    let a2 = DataView { id: d.id, ..a1 };
    let a3 = DataView { source: d.source, ..a2 };
    let tail5 = seq![f5] + none;
    match d.target {
        Some(t) => {
            lemma_i32_round_trip(t);
            let f4 = int_field(4, t);
            let a4 = DataView { target: Some(t), ..a3 };
            let tail4 = seq![f4] + tail5;
            let tail3 = seq![f3] + tail4;
            let tail2 = seq![f2] + tail3;
            assert(fields =~= seq![f1] + tail2);
            lemma_fold_cons(f1, tail2, a0, step);
            lemma_fold_cons(f2, tail3, a1, step);
            lemma_fold_cons(f3, tail4, a2, step);
            lemma_fold_cons(f4, tail5, a3, step);
            lemma_fold_cons(f5, none, a4, step);
            assert(DataView { data: d.data, ..a4 } == d);
        },
        None => {
            let tail3 = seq![f3] + tail5;
            let tail2 = seq![f2] + tail3;
            assert(fields =~= seq![f1] + tail2);
            lemma_fold_cons(f1, tail2, a0, step);
            lemma_fold_cons(f2, tail3, a1, step);
            lemma_fold_cons(f3, tail5, a2, step);
            lemma_fold_cons(f5, none, a3, step);
            assert(DataView { data: d.data, ..a3 } == d);
        },
    }
}

// ----------------------------------------------------------------------- row

pub open spec fn id_with(acc: IdView, field: FieldView) -> Option<IdView> {
    if field.number == 1 {
        match field.value {
            ValueView::Varint(v) => Some(IdView { id: i32_of_wire(v), ..acc }),
            _ => None,
        }
    } else if field.number == 2 {
        match field.value {
            ValueView::Bytes(bytes) => match text_of(bytes) {
                Some(name) => Some(IdView { name, ..acc }),
                None => None,
            },
            _ => None,
        }
    } else {
        Some(acc)
    }
}

pub open spec fn id_step() -> spec_fn(IdView, FieldView) -> Option<IdView> {
    |acc: IdView, field: FieldView| id_with(acc, field)
}

pub open spec fn id_fields(row: IdView) -> Seq<FieldView> {
    seq![int_field(1, row.id), bytes_field(2, encode_utf8(row.name))]
}

/// The bytes of a row of a listing.
pub open spec fn id_bytes(row: IdView) -> Seq<u8> {
    encode_fields(id_fields(row))
}

/// The row that bytes spell.
pub open spec fn id_of(s: Seq<u8>) -> Option<IdView> {
    match parse_fields(s) {
        Some(fields) => fold_fields(fields, IdView { id: 0, name: Seq::empty() }, id_step()),
        None => None,
    }
}

/// Whether a row can be sent: the lengths of its name and of its bytes fit
/// 64 bits.
pub open spec fn id_sendable(row: IdView) -> bool {
    encode_utf8(row.name).len() <= u64::MAX && id_bytes(row).len() <= u64::MAX
}

pub fn encode_id(row: &RICS_Response_RICS_Id) -> (out: Vec<u8>)
    ensures
        out@ == id_bytes(row@),
{
    let mut out: Vec<u8> = Vec::new();
    put_varint_field(&mut out, 1, to_wire(row.id));
    let name = row.name.as_str().as_bytes();
    put_bytes_field(&mut out, 2, name);
    proof {
        let first = Seq::<FieldView>::empty().push(int_field(1, row.id));
        lemma_encode_fields_push(Seq::empty(), int_field(1, row.id));
        lemma_encode_fields_push(first, bytes_field(2, encode_utf8(row.name@)));
        assert(first.push(bytes_field(2, encode_utf8(row.name@))) =~= id_fields(row@));
        assert(out@ =~= id_bytes(row@));
    }
    out
}

pub fn decode_id(buf: &[u8]) -> (r: Option<RICS_Response_RICS_Id>)
    ensures
        match id_of(buf@) {
            Some(row) => r matches Some(got) && got@ == row,
            None => r is None,
        },
{
    let fields = match read_fields(buf) {
        Some(fields) => fields,
        None => {
            return None;
        },
    };
    let mut acc = RICS_Response_RICS_Id { id: 0, name: String::new() };
    let mut k: usize = 0;
    let ghost all = fields_view(fields@);
    assert(all.skip(0) =~= all);
    while k < fields.len()
        invariant
            k <= fields.len(),
            all == fields_view(fields@),
            id_of(buf@) == fold_fields(all.skip(k as int), acc@, id_step()),
        decreases fields.len() - k,
    {
        proof {
            assert(all.skip(k as int)[0] == fields@[k as int]@);
            assert(all.skip(k as int).drop_first() =~= all.skip(k + 1));
        }
        let field = &fields[k];
        if field.number == 1 {
            match &field.value {
                Value::Varint(v) => {
                    acc.id = from_wire(*v);
                },
                _ => {
                    return None;
                },
            }
        } else if field.number == 2 {
            match &field.value {
                Value::Bytes(bytes) => match read_text(bytes) {
                    Some(name) => {
                        acc.name = name;
                    },
                    None => {
                        return None;
                    },
                },
                _ => {
                    return None;
                },
            }
        }
        k = k + 1;
    }
    Some(acc)
}

/// A row that was sent arrives.
pub proof fn lemma_id_round_trip(row: IdView)
    requires
        id_sendable(row),
    ensures
        id_of(id_bytes(row)) == Some(row),
{
    let fields = id_fields(row);
    lemma_fields_round_trip(fields);
    let start = IdView { id: 0, name: Seq::empty() };
    let last = seq![fields[1]] + Seq::<FieldView>::empty();
    assert(fields =~= seq![fields[0]] + last);
    lemma_fold_cons(fields[0], last, start, id_step());
    lemma_fold_cons(fields[1], Seq::empty(), IdView { id: row.id, ..start }, id_step());
    lemma_i32_round_trip(row.id);
    lemma_text_round_trip(row.name);
}

// ------------------------------------------------------------------- listing

pub open spec fn rows_with(acc: Seq<IdView>, field: FieldView) -> Option<Seq<IdView>> {
    if field.number == 1 {
        match field.value {
            ValueView::Bytes(bytes) => match id_of(bytes) {
                Some(row) => Some(acc.push(row)),
                None => None,
            },
            _ => None,
        }
    } else {
        Some(acc)
    }
}

pub open spec fn rows_step() -> spec_fn(Seq<IdView>, FieldView) -> Option<Seq<IdView>> {
    |acc: Seq<IdView>, field: FieldView| rows_with(acc, field)
}

pub open spec fn rows_fields(rows: Seq<IdView>) -> Seq<FieldView> {
    Seq::new(rows.len(), |k: int| bytes_field(1, id_bytes(rows[k])))
}

/// The bytes of a listing.
pub open spec fn rows_bytes(rows: Seq<IdView>) -> Seq<u8> {
    encode_fields(rows_fields(rows))
}

/// The listing that bytes spell.
pub open spec fn rows_of(s: Seq<u8>) -> Option<Seq<IdView>> {
    match parse_fields(s) {
        Some(fields) => fold_fields(fields, Seq::empty(), rows_step()),
        None => None,
    }
}

/// Whether a listing can be sent: each of its rows can.
pub open spec fn rows_sendable(rows: Seq<IdView>) -> bool {
    forall|k: int| 0 <= k < rows.len() ==> id_sendable(#[trigger] rows[k])
}

/// The rows of a vector, as sequences.
pub open spec fn ids_view(ids: Seq<RICS_Response_RICS_Id>) -> Seq<IdView> {
    Seq::new(ids.len(), |k: int| ids[k]@)
}

pub fn encode_idlist(list: &RICS_Response_RICS_IdList) -> (out: Vec<u8>)
    ensures
        out@ == rows_bytes(list@),
{
    let mut out: Vec<u8> = Vec::new();
    let mut k: usize = 0;
    let ghost fields = rows_fields(list@);
    assert(fields.subrange(0, 0) =~= Seq::<FieldView>::empty());
    while k < list.ids.len()
        invariant
            k <= list.ids.len(),
            fields == rows_fields(list@),
            fields.len() == list.ids.len(),
            out@ == encode_fields(fields.subrange(0, k as int)),
        decreases list.ids.len() - k,
    {
        let row = encode_id(&list.ids[k]);
        put_bytes_field(&mut out, 1, row.as_slice());
        proof {
            let field = bytes_field(1, id_bytes(list@[k as int]));
            assert(fields[k as int] == field);
            lemma_encode_fields_push(fields.subrange(0, k as int), field);
            assert(fields.subrange(0, k as int).push(field) =~= fields.subrange(0, k + 1));
        }
        k = k + 1;
    }
    assert(fields.subrange(0, k as int) =~= fields);
    out
}

pub fn decode_idlist(buf: &[u8]) -> (r: Option<RICS_Response_RICS_IdList>)
    ensures
        match rows_of(buf@) {
            Some(rows) => r matches Some(got) && got@ == rows,
            None => r is None,
        },
{
    let fields = match read_fields(buf) {
        Some(fields) => fields,
        None => {
            return None;
        },
    };
    let mut ids: Vec<RICS_Response_RICS_Id> = Vec::new();
    let mut k: usize = 0;
    let ghost all = fields_view(fields@);
    assert(all.skip(0) =~= all);
    assert(ids_view(ids@) =~= Seq::<IdView>::empty());
    while k < fields.len()
        invariant
            k <= fields.len(),
            all == fields_view(fields@),
            rows_of(buf@) == fold_fields(all.skip(k as int), ids_view(ids@), rows_step()),
        decreases fields.len() - k,
    {
        proof {
            assert(all.skip(k as int)[0] == fields@[k as int]@);
            assert(all.skip(k as int).drop_first() =~= all.skip(k + 1));
        }
        let field = &fields[k];
        if field.number == 1 {
            match &field.value {
                Value::Bytes(bytes) => match decode_id(bytes.as_slice()) {
                    Some(row) => {
                        assert(ids_view(ids@.push(row)) =~= ids_view(ids@).push(row@));
                        ids.push(row);
                    },
                    None => {
                        return None;
                    },
                },
                _ => {
                    return None;
                },
            }
        }
        k = k + 1;
    }
    let list = RICS_Response_RICS_IdList { ids };
    assert(list@ =~= ids_view(list.ids@));
    Some(list)
}

proof fn lemma_rows_fold(rows: Seq<IdView>, acc: Seq<IdView>)
    requires
        rows_sendable(rows),
    ensures
        fold_fields(rows_fields(rows), acc, rows_step()) == Some(acc + rows),
    decreases rows.len(),
{
    let fields = rows_fields(rows);
    if rows.len() == 0 {
        assert(acc + rows =~= acc);
    } else {
        let more = rows.drop_first();
        assert(fields[0] == bytes_field(1, id_bytes(rows[0])));
        assert(fields.drop_first() =~= rows_fields(more));
        assert(id_sendable(rows[0]));
        lemma_id_round_trip(rows[0]);
        assert forall|k: int| 0 <= k < more.len() implies id_sendable(#[trigger] more[k]) by {
            assert(more[k] == rows[k + 1]);
        }
        lemma_rows_fold(more, acc.push(rows[0]));
        assert(acc.push(rows[0]) + more =~= acc + rows);
    }
}

/// A listing that was sent arrives: the same rows in the same order.
pub proof fn lemma_rows_round_trip(rows: Seq<IdView>)
    requires
        rows_sendable(rows),
    ensures
        rows_of(rows_bytes(rows)) == Some(rows),
{
    let fields = rows_fields(rows);
    assert forall|k: int| 0 <= k < fields.len() implies (#[trigger] fields[k]).valid() by {
        assert(id_sendable(rows[k]));
    }
    lemma_fields_round_trip(fields);
    lemma_rows_fold(rows, Seq::empty());
    assert(Seq::<IdView>::empty() + rows =~= rows);
}

// ------------------------------------------------------------------- request

/// The number of a query on the wire.
pub open spec fn query_number(q: RICS_Request_RICS_Query) -> i32 {
    match q {
        RICS_Request_RICS_Query::NULL => 0,
        RICS_Request_RICS_Query::LIST_SINK => 1,
        RICS_Request_RICS_Query::WHO_AM_I => 2,
        RICS_Request_RICS_Query::SET_FLAG_CAN_BROADCAST => 3,
        RICS_Request_RICS_Query::CLEAR_FLAG_CAN_BROADCAST => 4,
        RICS_Request_RICS_Query::DAEMON_QUIT => 5,
    }
}

/// The query of a number, where it has one.
pub open spec fn query_of(n: i32) -> Option<RICS_Request_RICS_Query> {
    if n == 0 {
        Some(RICS_Request_RICS_Query::NULL)
    } else if n == 1 {
        Some(RICS_Request_RICS_Query::LIST_SINK)
    } else if n == 2 {
        Some(RICS_Request_RICS_Query::WHO_AM_I)
    } else if n == 3 {
        Some(RICS_Request_RICS_Query::SET_FLAG_CAN_BROADCAST)
    } else if n == 4 {
        Some(RICS_Request_RICS_Query::CLEAR_FLAG_CAN_BROADCAST)
    } else if n == 5 {
        Some(RICS_Request_RICS_Query::DAEMON_QUIT)
    } else {
        None
    }
}

pub open spec fn request_with(acc: RequestView, field: FieldView) -> Option<RequestView> {
    if field.number == 1 {
        match field.value {
            ValueView::Bytes(bytes) => match text_of(bytes) {
                Some(name) => Some(RequestView::SetName(name)),
                None => None,
            },
            _ => None,
        }
    } else if field.number == 2 {
        match field.value {
            ValueView::Varint(v) => Some(
                match query_of(i32_of_wire(v)) {
                    Some(q) => RequestView::Query(q),
                    None => acc,
                },
            ),
            _ => None,
        }
    } else if field.number == 3 {
        match field.value {
            ValueView::Bytes(bytes) => match data_of(bytes) {
                Some(d) => Some(RequestView::Data(d)),
                None => None,
            },
            _ => None,
        }
    } else if field.number == 4 {
        match field.value {
            ValueView::Bytes(bytes) => match route_of(bytes) {
                Some(r) => Some(RequestView::AddRoute(r)),
                None => None,
            },
            _ => None,
        }
    } else if field.number == 5 {
        match field.value {
            ValueView::Bytes(bytes) => match route_of(bytes) {
                Some(r) => Some(RequestView::DelRoute(r)),
                None => None,
            },
            _ => None,
        }
    } else if field.number == 6 {
        match field.value {
            ValueView::Fixed32(raw) => if raw.len() == 4 {
                Some(RequestView::CanDropChance(from_le32(raw)))
            } else {
                None
            },
            _ => None,
        }
    } else {
        Some(acc)
    }
}

pub open spec fn request_step() -> spec_fn(RequestView, FieldView) -> Option<RequestView> {
    |acc: RequestView, field: FieldView| request_with(acc, field)
}

/// The one field of a request; none for a request that says nothing.
pub open spec fn request_fields(r: RequestView) -> Seq<FieldView> {
    match r {
        RequestView::SetName(name) => seq![bytes_field(1, encode_utf8(name))],
        RequestView::Query(q) => seq![int_field(2, query_number(q))],
        RequestView::Data(d) => seq![bytes_field(3, data_bytes(d))],
        RequestView::AddRoute(route) => seq![bytes_field(4, route_bytes(route))],
        RequestView::DelRoute(route) => seq![bytes_field(5, route_bytes(route))],
        RequestView::CanDropChance(bits) => seq![
            FieldView { number: 6, value: ValueView::Fixed32(le32(bits)) },
        ],
        RequestView::Unrecognized => Seq::empty(),
    }
}

/// The bytes of a request.
pub open spec fn request_bytes(r: RequestView) -> Seq<u8> {
    encode_fields(request_fields(r))
}

/// The request that bytes spell.
pub open spec fn request_of(s: Seq<u8>) -> Option<RequestView> {
    match parse_fields(s) {
        Some(fields) => fold_fields(fields, RequestView::Unrecognized, request_step()),
        None => None,
    }
}

/// Whether a request can be sent: the lengths of what it holds fit 64 bits.
pub open spec fn request_sendable(r: RequestView) -> bool {
    match r {
        RequestView::SetName(name) => encode_utf8(name).len() <= u64::MAX,
        RequestView::Data(d) => data_sendable(d) && data_bytes(d).len() <= u64::MAX,
        RequestView::AddRoute(route) => route_bytes(route).len() <= u64::MAX,
        RequestView::DelRoute(route) => route_bytes(route).len() <= u64::MAX,
        _ => true,
    }
}

fn query_to_number(q: RICS_Request_RICS_Query) -> (n: i32)
    ensures
        n == query_number(q),
{
    match q {
        RICS_Request_RICS_Query::NULL => 0,
        RICS_Request_RICS_Query::LIST_SINK => 1,
        RICS_Request_RICS_Query::WHO_AM_I => 2,
        RICS_Request_RICS_Query::SET_FLAG_CAN_BROADCAST => 3,
        RICS_Request_RICS_Query::CLEAR_FLAG_CAN_BROADCAST => 4,
        RICS_Request_RICS_Query::DAEMON_QUIT => 5,
    }
}

fn query_from_number(n: i32) -> (q: Option<RICS_Request_RICS_Query>)
    ensures
        q == query_of(n),
{
    if n == 0 {
        Some(RICS_Request_RICS_Query::NULL)
    } else if n == 1 {
        Some(RICS_Request_RICS_Query::LIST_SINK)
    } else if n == 2 {
        Some(RICS_Request_RICS_Query::WHO_AM_I)
    } else if n == 3 {
        Some(RICS_Request_RICS_Query::SET_FLAG_CAN_BROADCAST)
    } else if n == 4 {
        Some(RICS_Request_RICS_Query::CLEAR_FLAG_CAN_BROADCAST)
    } else if n == 5 {
        Some(RICS_Request_RICS_Query::DAEMON_QUIT)
    } else {
        None
    }
}

pub fn encode_request(r: &RICS_Request) -> (out: Vec<u8>)
    ensures
        out@ == request_bytes(r@),
{
    let mut out: Vec<u8> = Vec::new();
    let ghost none = Seq::<FieldView>::empty();
    match r {
        RICS_Request::SetName(name) => {
            put_bytes_field(&mut out, 1, name.as_str().as_bytes());
            proof {
                lemma_encode_fields_push(none, bytes_field(1, encode_utf8(name@)));
                assert(none.push(bytes_field(1, encode_utf8(name@))) =~= request_fields(r@));
            }
        },
        RICS_Request::Query(q) => {
            put_varint_field(&mut out, 2, to_wire(query_to_number(*q)));
            proof {
                lemma_encode_fields_push(none, int_field(2, query_number(*q)));
                assert(none.push(int_field(2, query_number(*q))) =~= request_fields(r@));
            }
        },
        RICS_Request::Data(d) => {
            let inner = encode_data(d);
            put_bytes_field(&mut out, 3, inner.as_slice());
            proof {
                lemma_encode_fields_push(none, bytes_field(3, data_bytes(d@)));
                assert(none.push(bytes_field(3, data_bytes(d@))) =~= request_fields(r@));
            }
        },
        RICS_Request::AddRoute(route) => {
            let inner = encode_route(route);
            put_bytes_field(&mut out, 4, inner.as_slice());
            proof {
                lemma_encode_fields_push(none, bytes_field(4, route_bytes(*route)));
                assert(none.push(bytes_field(4, route_bytes(*route))) =~= request_fields(r@));
            }
        },
        RICS_Request::DelRoute(route) => {
            let inner = encode_route(route);
            put_bytes_field(&mut out, 5, inner.as_slice());
            proof {
                lemma_encode_fields_push(none, bytes_field(5, route_bytes(*route)));
                assert(none.push(bytes_field(5, route_bytes(*route))) =~= request_fields(r@));
            }
        },
        RICS_Request::CanDropChance(bits) => {
            let raw = bytes_of_bits(*bits);
            put_fixed32_field(&mut out, 6, raw.as_slice());
            proof {
                let field = FieldView { number: 6, value: ValueView::Fixed32(le32(*bits)) };
                lemma_encode_fields_push(none, field);
                assert(none.push(field) =~= request_fields(r@));
            }
        },
        RICS_Request::Unrecognized => {
            assert(request_fields(r@) =~= none);
        },
    }
    assert(out@ =~= request_bytes(r@));
    out
}

pub fn decode_request(buf: &[u8]) -> (r: Option<RICS_Request>)
    ensures
        match request_of(buf@) {
            Some(request) => r matches Some(got) && got@ == request,
            None => r is None,
        },
{
    let fields = match read_fields(buf) {
        Some(fields) => fields,
        None => {
            return None;
        },
    };
    let mut acc = RICS_Request::Unrecognized;
    let mut k: usize = 0;
    let ghost all = fields_view(fields@);
    assert(all.skip(0) =~= all);
    while k < fields.len()
        invariant
            k <= fields.len(),
            all == fields_view(fields@),
            request_of(buf@) == fold_fields(all.skip(k as int), acc@, request_step()),
        decreases fields.len() - k,
    {
        proof {
            assert(all.skip(k as int)[0] == fields@[k as int]@);
            assert(all.skip(k as int).drop_first() =~= all.skip(k + 1));
        }
        let field = &fields[k];
        if field.number == 1 {
            match &field.value {
                Value::Bytes(bytes) => match read_text(bytes) {
                    Some(name) => {
                        acc = RICS_Request::SetName(name);
                    },
                    None => {
                        return None;
                    },
                },
                _ => {
                    return None;
                },
            }
        } else if field.number == 2 {
            match &field.value {
                Value::Varint(v) => match query_from_number(from_wire(*v)) {
                    Some(q) => {
                        acc = RICS_Request::Query(q);
                    },
                    None => {},
                },
                _ => {
                    return None;
                },
            }
        } else if field.number == 3 {
            match &field.value {
                Value::Bytes(bytes) => match decode_data(bytes.as_slice()) {
                    Some(d) => {
                        acc = RICS_Request::Data(d);
                    },
                    None => {
                        return None;
                    },
                },
                _ => {
                    return None;
                },
            }
        } else if field.number == 4 {
            match &field.value {
                Value::Bytes(bytes) => match decode_route(bytes.as_slice()) {
                    Some(route) => {
                        acc = RICS_Request::AddRoute(route);
                    },
                    None => {
                        return None;
                    },
                },
                _ => {
                    return None;
                },
            }
        } else if field.number == 5 {
            match &field.value {
                Value::Bytes(bytes) => match decode_route(bytes.as_slice()) {
                    Some(route) => {
                        acc = RICS_Request::DelRoute(route);
                    },
                    None => {
                        return None;
                    },
                },
                _ => {
                    return None;
                },
            }
        } else if field.number == 6 {
            match &field.value {
                Value::Fixed32(raw) => {
                    if raw.len() == 4 {
                        acc = RICS_Request::CanDropChance(bits_of_bytes(raw));
                    } else {
                        return None;
                    }
                },
                _ => {
                    return None;
                },
            }
        }
        k = k + 1;
    }
    Some(acc)
}

/// A request that was sent arrives.
pub proof fn lemma_request_round_trip(r: RequestView)
    requires
        request_sendable(r),
    ensures
        request_of(request_bytes(r)) == Some(r),
{
    let fields = request_fields(r);
    let none = Seq::<FieldView>::empty();
    let start = RequestView::Unrecognized;
    match r {
        RequestView::SetName(name) => {
            lemma_text_round_trip(name);
        },
        RequestView::Query(q) => {
            lemma_i32_round_trip(query_number(q));
        },
        RequestView::Data(d) => {
            lemma_data_round_trip(d);
        },
        RequestView::AddRoute(route) => {
            lemma_route_round_trip(route);
        },
        RequestView::DelRoute(route) => {
            lemma_route_round_trip(route);
        },
        RequestView::CanDropChance(bits) => {
            lemma_le32_round_trip(bits);
        },
        RequestView::Unrecognized => {},
    }
    lemma_fields_round_trip(fields);
    if fields.len() > 0 {
        assert(fields =~= seq![fields[0]] + none);
        lemma_fold_cons(fields[0], none, start, request_step());
    }
}

// ------------------------------------------------------------------ response

pub open spec fn response_with(acc: ResponseView, field: FieldView) -> Option<ResponseView> {
    if field.number == 1 {
        match field.value {
            ValueView::Varint(v) => Some(ResponseView::Node(i32_of_wire(v))),
            _ => None,
        }
    } else if field.number == 2 {
        match field.value {
            ValueView::Bytes(bytes) => match rows_of(bytes) {
                Some(rows) => Some(ResponseView::IdList(rows)),
                None => None,
            },
            _ => None,
        }
    } else if field.number == 3 {
        match field.value {
            ValueView::Bytes(bytes) => match data_of(bytes) {
                Some(d) => Some(ResponseView::Data(d)),
                None => None,
            },
            _ => None,
        }
    } else {
        Some(acc)
    }
}

pub open spec fn response_step() -> spec_fn(ResponseView, FieldView) -> Option<ResponseView> {
    |acc: ResponseView, field: FieldView| response_with(acc, field)
}

/// The one field of a response; none for an empty response.
pub open spec fn response_fields(r: ResponseView) -> Seq<FieldView> {
    match r {
        ResponseView::Node(n) => seq![int_field(1, n)],
        ResponseView::IdList(rows) => seq![bytes_field(2, rows_bytes(rows))],
        ResponseView::Data(d) => seq![bytes_field(3, data_bytes(d))],
        ResponseView::Empty => Seq::empty(),
    }
}

/// The bytes of a response.
pub open spec fn response_bytes(r: ResponseView) -> Seq<u8> {
    encode_fields(response_fields(r))
}

/// The response that bytes spell.
pub open spec fn response_of(s: Seq<u8>) -> Option<ResponseView> {
    match parse_fields(s) {
        Some(fields) => fold_fields(fields, ResponseView::Empty, response_step()),
        None => None,
    }
}

/// Whether a response can be sent: the lengths of what it holds fit 64
/// bits.
pub open spec fn response_sendable(r: ResponseView) -> bool {
    match r {
        ResponseView::IdList(rows) => rows_sendable(rows) && rows_bytes(rows).len() <= u64::MAX,
        ResponseView::Data(d) => data_sendable(d) && data_bytes(d).len() <= u64::MAX,
        _ => true,
    }
}

pub fn encode_response(r: &RICS_Response) -> (out: Vec<u8>)
    ensures
        out@ == response_bytes(r@),
{
    let mut out: Vec<u8> = Vec::new();
    let ghost none = Seq::<FieldView>::empty();
    match r {
        RICS_Response::Node(n) => {
            put_varint_field(&mut out, 1, to_wire(*n));
            proof {
                lemma_encode_fields_push(none, int_field(1, *n));
                assert(none.push(int_field(1, *n)) =~= response_fields(r@));
            }
        },
        RICS_Response::IdList(list) => {
            let inner = encode_idlist(list);
            put_bytes_field(&mut out, 2, inner.as_slice());
            proof {
                lemma_encode_fields_push(none, bytes_field(2, rows_bytes(list@)));
                assert(none.push(bytes_field(2, rows_bytes(list@))) =~= response_fields(r@));
            }
        },
        RICS_Response::Data(d) => {
            let inner = encode_data(d);
            put_bytes_field(&mut out, 3, inner.as_slice());
            proof {
                lemma_encode_fields_push(none, bytes_field(3, data_bytes(d@)));
                assert(none.push(bytes_field(3, data_bytes(d@))) =~= response_fields(r@));
            }
        },
        RICS_Response::Empty => {
            assert(response_fields(r@) =~= none);
        },
    }
    assert(out@ =~= response_bytes(r@));
    out
}

pub fn decode_response(buf: &[u8]) -> (r: Option<RICS_Response>)
    ensures
        match response_of(buf@) {
            Some(response) => r matches Some(got) && got@ == response,
            None => r is None,
        },
{
    let fields = match read_fields(buf) {
        Some(fields) => fields,
        None => {
            return None;
        },
    };
    let mut acc = RICS_Response::Empty;
    let mut k: usize = 0;
    let ghost all = fields_view(fields@);
    assert(all.skip(0) =~= all);
    while k < fields.len()
        invariant
            k <= fields.len(),
            all == fields_view(fields@),
            response_of(buf@) == fold_fields(all.skip(k as int), acc@, response_step()),
        decreases fields.len() - k,
    {
        proof {
            assert(all.skip(k as int)[0] == fields@[k as int]@);
            assert(all.skip(k as int).drop_first() =~= all.skip(k + 1));
        }
        let field = &fields[k];
        if field.number == 1 {
            match &field.value {
                Value::Varint(v) => {
                    acc = RICS_Response::Node(from_wire(*v));
                },
                _ => {
                    return None;
                },
            }
        } else if field.number == 2 {
            match &field.value {
                Value::Bytes(bytes) => match decode_idlist(bytes.as_slice()) {
                    Some(list) => {
                        acc = RICS_Response::IdList(list);
                    },
                    None => {
                        return None;
                    },
                },
                _ => {
                    return None;
                },
            }
        } else if field.number == 3 {
            match &field.value {
                Value::Bytes(bytes) => match decode_data(bytes.as_slice()) {
                    Some(d) => {
                        acc = RICS_Response::Data(d);
                    },
                    None => {
                        return None;
                    },
                },
                _ => {
                    return None;
                },
            }
        }
        k = k + 1;
    }
    Some(acc)
}

/// A response that was sent arrives.
pub proof fn lemma_response_round_trip(r: ResponseView)
    requires
        response_sendable(r),
    ensures
        response_of(response_bytes(r)) == Some(r),
{
    let fields = response_fields(r);
    let none = Seq::<FieldView>::empty();
    let start = ResponseView::Empty;
    match r {
        ResponseView::Node(n) => {
            lemma_i32_round_trip(n);
        },
        ResponseView::IdList(rows) => {
            lemma_rows_round_trip(rows);
        },
        ResponseView::Data(d) => {
            lemma_data_round_trip(d);
        },
        ResponseView::Empty => {},
    }
    lemma_fields_round_trip(fields);
    if fields.len() > 0 {
        assert(fields =~= seq![fields[0]] + none);
        lemma_fold_cons(fields[0], none, start, response_step());
    }
}

} // verus!
