use protobuf::CodedInputStream;
use protobuf::CodedOutputStream;
use rics::codec::{
    decode_connection, decode_data, decode_id, decode_idlist, decode_request, decode_response,
    decode_route, encode_connection, encode_data, encode_id, encode_idlist, encode_request,
    encode_response, encode_route, from_wire, to_wire,
};
use rics::rics::{
    RICS_Connection, RICS_Data, RICS_Data_RICS_DataType, RICS_Request, RICS_Request_RICS_Query,
    RICS_Response, RICS_Response_RICS_Id, RICS_Response_RICS_IdList, RICS_Route,
};
use rics::server::{can_packet, stream_packet};

fn written(fill: fn(&mut CodedOutputStream)) -> Vec<u8> {
    let mut out = Vec::new();
    {
        let mut stream = CodedOutputStream::vec(&mut out);
        fill(&mut stream);
        stream.flush().unwrap();
    }
    out
}

fn data(kind: RICS_Data_RICS_DataType, id: i32, source: i32, target: Option<i32>, payload: &[u8]) -> RICS_Data {
    RICS_Data { field_type: kind, id, source, target, data: payload.to_vec() }
}

#[test]
fn signed_integers_travel_as_64_bits() {
    assert_eq!(to_wire(0), 0);
    assert_eq!(to_wire(1), 1);
    assert_eq!(to_wire(i32::MAX), 0x7fff_ffff);
    assert_eq!(to_wire(-1), u64::MAX);
    assert_eq!(to_wire(i32::MIN), 0xffff_ffff_8000_0000);
    for v in [0, 1, -1, 77, -77, i32::MAX, i32::MIN].iter() {
        assert_eq!(to_wire(*v), *v as i64 as u64);
        assert_eq!(from_wire(to_wire(*v)), *v);
    }
}

#[test]
fn the_low_32_bits_of_an_integer_count() {
    assert_eq!(from_wire(5), 5);
    assert_eq!(from_wire(0xffff_ffff), -1);
    assert_eq!(from_wire(0x1_0000_0005), 5);
    assert_eq!(from_wire(0x8000_0000), i32::MIN);
    for w in [0u64, 1, 0x7fff_ffff, 0x8000_0000, 0xffff_ffff, 0x1_0000_0000, u64::MAX].iter() {
        assert_eq!(from_wire(*w), *w as u32 as i32);
    }
}

#[test]
fn connection_round_trip() {
    for as_node in [true, false].iter() {
        let message = RICS_Connection { connect_as_node: *as_node };
        let bytes = encode_connection(&message);
        assert_eq!(decode_connection(&bytes), Some(message));
    }
    assert_eq!(encode_connection(&RICS_Connection { connect_as_node: true }), vec![0x08, 0x01]);
    assert_eq!(encode_connection(&RICS_Connection { connect_as_node: false }), vec![0x08, 0x00]);
}

#[test]
fn an_empty_connection_message_asks_for_no_node() {
    assert_eq!(decode_connection(&[]), Some(RICS_Connection { connect_as_node: false }));
    assert_eq!(decode_connection(&[0x08, 0x05]), Some(RICS_Connection { connect_as_node: true }));
}

#[test]
fn route_round_trip() {
    for route in [
        RICS_Route { from: 0, to: 1 },
        RICS_Route { from: -1, to: i32::MAX },
        RICS_Route { from: i32::MIN, to: 300 },
    ]
    .iter()
    {
        assert_eq!(decode_route(&encode_route(route)), Some(*route));
    }
    assert_eq!(encode_route(&RICS_Route { from: 0, to: 1 }), vec![0x08, 0x00, 0x10, 0x01]);
}

#[test]
fn data_round_trip() {
    let packets = vec![
        data(RICS_Data_RICS_DataType::CAN, 0x123, 0, None, &[1, 2]),
        data(RICS_Data_RICS_DataType::STREAM, 0, 4, Some(2), &[]),
        data(RICS_Data_RICS_DataType::CAN, -1, i32::MIN, Some(-7), &[0xff; 400]),
        data(RICS_Data_RICS_DataType::STREAM, i32::MAX, i32::MAX, Some(0), b"hello"),
    ];
    for packet in packets {
        let bytes = encode_data(&packet);
        assert_eq!(decode_data(&bytes), Some(packet));
    }
}

#[test]
fn a_can_packet_comes_back_as_it_was_made() {
    let cases: Vec<(i32, Vec<u8>)> = vec![
        (0, vec![]),
        (0x123, vec![1, 2]),
        (0x7ff, vec![0, 1, 2, 3, 4, 5, 6, 7]),
        (-5, vec![255; 64]),
        (i32::MAX, vec![9; 1000]),
    ];
    for (id, payload) in cases {
        let bytes = encode_data(&can_packet(id, payload.clone()));
        let read = decode_data(&bytes).unwrap();
        assert_eq!(read.field_type, RICS_Data_RICS_DataType::CAN);
        assert_eq!(read.id, id);
        assert_eq!(read.data, payload);
        assert_eq!(read.target, None);
        assert_eq!(read.source, 0);
    }
}

#[test]
fn a_stream_packet_comes_back_as_it_was_made() {
    let bytes = encode_data(&stream_packet(b"abc".to_vec()));
    let read = decode_data(&bytes).unwrap();
    assert_eq!(read.field_type, RICS_Data_RICS_DataType::STREAM);
    assert_eq!(read.id, 0);
    assert_eq!(read.data, b"abc".to_vec());
}

#[test]
fn data_bytes_are_those_of_the_protobuf_crate() {
    let packet = data(RICS_Data_RICS_DataType::STREAM, 0x123, -2, Some(7), &[1, 2, 3]);
    let theirs = written(|stream| {
        stream.write_enum(1, 1).unwrap();
        stream.write_int32(2, 0x123).unwrap();
        stream.write_int32(3, -2).unwrap();
        stream.write_int32(4, 7).unwrap();
        stream.write_bytes(5, &[1, 2, 3]).unwrap();
    });
    assert_eq!(encode_data(&packet), theirs);
}

#[test]
fn the_protobuf_crate_reads_our_data() {
    let packet = data(RICS_Data_RICS_DataType::CAN, -9, 3, None, &[4, 5]);
    let bytes = encode_data(&packet);
    let mut stream = CodedInputStream::from_bytes(&bytes);
    assert_eq!(stream.read_tag_unpack().unwrap().0, 1);
    assert_eq!(stream.read_int32().unwrap(), 0);
    assert_eq!(stream.read_tag_unpack().unwrap().0, 2);
    assert_eq!(stream.read_int32().unwrap(), -9);
    assert_eq!(stream.read_tag_unpack().unwrap().0, 3);
    assert_eq!(stream.read_int32().unwrap(), 3);
    assert_eq!(stream.read_tag_unpack().unwrap().0, 5);
    assert_eq!(stream.read_bytes().unwrap(), vec![4, 5]);
    assert!(stream.eof().unwrap());
}

#[test]
fn data_is_read_in_any_order_with_fields_left_out_or_unknown() {
    let bytes = written(|stream| {
        stream.write_bytes(5, &[8]).unwrap();
        stream.write_string(12, "who knows").unwrap();
        stream.write_int32(2, 44).unwrap();
        stream.write_fixed64(13, 1).unwrap();
        stream.write_fixed32(14, 1).unwrap();
        stream.write_uint64(15, 1).unwrap();
    });
    assert_eq!(
        decode_data(&bytes),
        Some(data(RICS_Data_RICS_DataType::CAN, 44, 0, None, &[8]))
    );
    assert_eq!(decode_data(&[]), Some(RICS_Data::new()));
}

#[test]
fn the_last_of_several_fields_wins() {
    let bytes = written(|stream| {
        stream.write_int32(2, 1).unwrap();
        stream.write_int32(2, 2).unwrap();
        stream.write_enum(1, 1).unwrap();
        stream.write_enum(1, 0).unwrap();
    });
    assert_eq!(decode_data(&bytes), Some(data(RICS_Data_RICS_DataType::CAN, 2, 0, None, &[])));
}

#[test]
fn a_data_type_that_is_not_known_changes_nothing() {
    let bytes = written(|stream| {
        stream.write_enum(1, 1).unwrap();
        stream.write_enum(1, 9).unwrap();
    });
    assert_eq!(decode_data(&bytes), Some(data(RICS_Data_RICS_DataType::STREAM, 0, 0, None, &[])));
}

#[test]
fn a_known_field_of_the_wrong_kind_spoils_the_message() {
    let bytes = written(|stream| {
        stream.write_string(2, "id").unwrap();
    });
    assert_eq!(decode_data(&bytes), None);
    let bytes = written(|stream| {
        stream.write_int32(5, 1).unwrap();
    });
    assert_eq!(decode_data(&bytes), None);
    assert_eq!(decode_route(&[0x0a, 0x00]), None);
    assert_eq!(decode_connection(&[0x0d, 0, 0, 0, 0]), None);
}

#[test]
fn bytes_that_are_no_fields_are_no_message() {
    assert_eq!(decode_data(&[0x08]), None);
    assert_eq!(decode_data(&[0x2a, 0x05, 1]), None);
    assert_eq!(decode_request(&[0x00, 0x00]), None);
    assert_eq!(decode_response(&[0x0b]), None);
    assert_eq!(decode_connection(&[0xff]), None);
    assert_eq!(decode_route(&[0x08]), None);
    assert_eq!(decode_id(&[0x12, 0x02, b'a']), None);
    assert_eq!(decode_idlist(&[0x0a, 0x01]), None);
}

#[test]
fn row_round_trip() {
    for (id, name) in [(0, ""), (1, "alpha"), (-3, "b\u{e9}ta \u{1f600}"), (i32::MAX, "0")].iter() {
        let row = RICS_Response_RICS_Id { id: *id, name: name.to_string() };
        assert_eq!(decode_id(&encode_id(&row)), Some(row));
    }
}

#[test]
fn a_name_that_is_not_utf8_spoils_the_message() {
    assert_eq!(decode_id(&[0x08, 0x01, 0x12, 0x02, 0xc3, 0x28]), None);
    assert_eq!(decode_id(&[0x08, 0x01, 0x12, 0x01, 0xff]), None);
    assert_eq!(decode_request(&[0x0a, 0x02, 0xc3, 0x28]), None);
    assert_eq!(
        decode_id(&[0x08, 0x01, 0x12, 0x02, 0xc3, 0xa9]),
        Some(RICS_Response_RICS_Id { id: 1, name: "\u{e9}".to_string() })
    );
}

#[test]
fn listing_round_trip() {
    let lists = vec![
        vec![],
        vec![(0, "alpha")],
        vec![(0, "alpha"), (1, "beta"), (7, ""), (1, "again")],
    ];
    for rows in lists {
        let list = RICS_Response_RICS_IdList {
            ids: rows
                .iter()
                .map(|(id, name)| RICS_Response_RICS_Id { id: *id, name: name.to_string() })
                .collect(),
        };
        assert_eq!(decode_idlist(&encode_idlist(&list)), Some(list));
    }
}

#[test]
fn request_round_trip() {
    let requests = vec![
        RICS_Request::SetName("alpha".to_string()),
        RICS_Request::SetName("".to_string()),
        RICS_Request::Query(RICS_Request_RICS_Query::NULL),
        RICS_Request::Query(RICS_Request_RICS_Query::LIST_SINK),
        RICS_Request::Query(RICS_Request_RICS_Query::WHO_AM_I),
        RICS_Request::Query(RICS_Request_RICS_Query::SET_FLAG_CAN_BROADCAST),
        RICS_Request::Query(RICS_Request_RICS_Query::CLEAR_FLAG_CAN_BROADCAST),
        RICS_Request::Query(RICS_Request_RICS_Query::DAEMON_QUIT),
        RICS_Request::Data(data(RICS_Data_RICS_DataType::CAN, 0x123, 0, Some(1), &[1, 2])),
        RICS_Request::AddRoute(RICS_Route { from: 0, to: 1 }),
        RICS_Request::DelRoute(RICS_Route { from: -4, to: 9 }),
        RICS_Request::CanDropChance(0.25f32.to_bits()),
        RICS_Request::CanDropChance(u32::MAX),
        RICS_Request::Unrecognized,
    ];
    for request in requests {
        let bytes = encode_request(&request);
        assert_eq!(decode_request(&bytes), Some(request));
    }
}

#[test]
fn request_bytes_are_those_of_the_protobuf_crate() {
    assert_eq!(
        encode_request(&RICS_Request::Query(RICS_Request_RICS_Query::WHO_AM_I)),
        written(|stream| stream.write_enum(2, 2).unwrap())
    );
    assert_eq!(
        encode_request(&RICS_Request::SetName("alpha".to_string())),
        written(|stream| stream.write_string(1, "alpha").unwrap())
    );
    assert_eq!(
        encode_request(&RICS_Request::CanDropChance(0.75f32.to_bits())),
        written(|stream| stream.write_float(6, 0.75).unwrap())
    );
    let route = encode_route(&RICS_Route { from: 3, to: 4 });
    assert_eq!(route, written(|stream| {
        stream.write_int32(1, 3).unwrap();
        stream.write_int32(2, 4).unwrap();
    }));
    let mut expected = vec![0x22, route.len() as u8];
    expected.extend_from_slice(&route);
    assert_eq!(encode_request(&RICS_Request::AddRoute(RICS_Route { from: 3, to: 4 })), expected);
    assert_eq!(encode_request(&RICS_Request::Unrecognized), Vec::<u8>::new());
}

#[test]
fn a_request_says_what_its_last_known_field_says() {
    let bytes = written(|stream| {
        stream.write_string(1, "alpha").unwrap();
        stream.write_enum(2, 1).unwrap();
        stream.write_enum(2, 77).unwrap();
        stream.write_string(20, "later").unwrap();
    });
    assert_eq!(
        decode_request(&bytes),
        Some(RICS_Request::Query(RICS_Request_RICS_Query::LIST_SINK))
    );
    let bytes = written(|stream| {
        stream.write_string(20, "unknown").unwrap();
    });
    assert_eq!(decode_request(&bytes), Some(RICS_Request::Unrecognized));
}

#[test]
fn a_request_with_a_spoilt_part_is_spoilt() {
    // A data message that ends in the middle of a field.
    assert_eq!(decode_request(&[0x1a, 0x01, 0x08]), None);
    // A route whose end is text.
    assert_eq!(decode_request(&[0x22, 0x02, 0x0a, 0x00]), None);
    // A chance of the wrong kind.
    assert_eq!(decode_request(&[0x30, 0x01]), None);
}

#[test]
fn response_round_trip() {
    let responses = vec![
        RICS_Response::Node(0),
        RICS_Response::Node(-12),
        RICS_Response::Empty,
        RICS_Response::Data(data(RICS_Data_RICS_DataType::STREAM, 1, 2, None, b"xyz")),
        RICS_Response::IdList(RICS_Response_RICS_IdList { ids: vec![] }),
        RICS_Response::IdList(RICS_Response_RICS_IdList {
            ids: vec![
                RICS_Response_RICS_Id { id: 0, name: "alpha".to_string() },
                RICS_Response_RICS_Id { id: 1, name: "beta".to_string() },
            ],
        }),
    ];
    for response in responses {
        let bytes = encode_response(&response);
        assert_eq!(decode_response(&bytes), Some(response));
    }
    assert_eq!(encode_response(&RICS_Response::Node(3)), vec![0x08, 0x03]);
    assert_eq!(encode_response(&RICS_Response::Empty), Vec::<u8>::new());
}

#[test]
fn clones_hold_the_same() {
    let packet = data(RICS_Data_RICS_DataType::STREAM, 1, 2, Some(3), &[4, 5]);
    assert_eq!(packet.clone(), packet);
    let row = RICS_Response_RICS_Id { id: 4, name: "four".to_string() };
    assert_eq!(row.clone(), row);
}

#[test]
fn accessors_of_the_messages() {
    let packet = data(RICS_Data_RICS_DataType::CAN, 1, 2, Some(3), &[]);
    assert_eq!(packet.get_target(), 3);
    assert_eq!(RICS_Data::new().get_target(), 0);
    assert_eq!(RICS_Response::Node(4).get_node(), 4);
    assert_eq!(RICS_Response::Empty.get_node(), 0);
    assert!(RICS_Response::Node(4).has_node());
    assert!(!RICS_Response::Node(4).has_data());
    assert!(RICS_Response::Data(RICS_Data::new()).has_data());
    assert!(!RICS_Response::Empty.has_node());
}
