use rics::forward::{destinations, needs_draw};
use rics::host::ServerState;
use rics::rics::{RICS_Data, RICS_Data_RICS_DataType};
use rics::server::{can_packet, stream_packet};

type Table = ServerState<u8, u8>;

fn table_of(nodes: i32) -> Table {
    let mut table = Table::new();
    for _ in 0..nodes {
        table.new_node(0, 0);
    }
    table
}

fn sorted(mut ids: Vec<i32>) -> Vec<i32> {
    ids.sort();
    ids
}

fn to(target: i32, mut packet: RICS_Data) -> RICS_Data {
    packet.target = Some(target);
    packet
}

const LOW: u32 = 0x3c00_0000; // a draw near zero
const HIGH: u32 = 0x3f7f_ffff; // the largest draw below one

#[test]
fn without_routes_and_target_a_packet_goes_nowhere() {
    let table = table_of(3);
    for sender in 0..3 {
        assert!(destinations(&table, Some(sender), &can_packet(1, vec![1]), LOW).is_empty());
        assert!(destinations(&table, Some(sender), &stream_packet(vec![1]), LOW).is_empty());
    }
    assert!(destinations(&table, None, &can_packet(1, vec![1]), LOW).is_empty());
}

#[test]
fn a_packet_follows_the_routes_of_its_sender_in_order() {
    let mut table = table_of(4);
    table.add_route(0, 3);
    table.add_route(0, 1);
    table.add_route(1, 2);
    assert_eq!(destinations(&table, Some(0), &can_packet(1, vec![]), LOW), vec![3, 1]);
    assert_eq!(destinations(&table, Some(1), &stream_packet(vec![]), LOW), vec![2]);
    assert!(destinations(&table, Some(2), &can_packet(1, vec![]), LOW).is_empty());
    assert!(destinations(&table, None, &can_packet(1, vec![]), LOW).is_empty());
}

#[test]
fn routes_to_ids_that_cannot_be_written_to_are_passed_over() {
    let mut table = table_of(3);
    table.add_route(0, 1);
    table.add_route(0, 9);
    table.add_route(0, 2);
    table.delete_node(1);
    table.new_node_raw(Some("mute".to_string()), None, None);
    table.add_route(0, 3);
    assert_eq!(destinations(&table, Some(0), &can_packet(1, vec![]), LOW), vec![2]);
}

#[test]
fn a_target_overrides_the_routes() {
    let mut table = table_of(3);
    table.add_route(0, 2);
    assert_eq!(destinations(&table, Some(0), &to(1, can_packet(1, vec![])), LOW), vec![1]);
    assert_eq!(destinations(&table, None, &to(1, stream_packet(vec![])), LOW), vec![1]);
    assert_eq!(destinations(&table, Some(0), &to(0, can_packet(1, vec![])), LOW), vec![0]);
    assert!(destinations(&table, Some(0), &to(5, can_packet(1, vec![])), LOW).is_empty());
}

#[test]
fn broadcast_reaches_every_node_but_the_sender() {
    let mut table = table_of(3);
    table.set_can_broadcast(true);
    table.add_route(0, 0);
    assert_eq!(sorted(destinations(&table, Some(0), &can_packet(1, vec![]), LOW)), vec![1, 2]);
    assert_eq!(sorted(destinations(&table, Some(1), &can_packet(1, vec![]), LOW)), vec![0, 2]);
    assert_eq!(sorted(destinations(&table, Some(2), &to(2, can_packet(1, vec![])), LOW)), vec![0, 1]);
    assert_eq!(sorted(destinations(&table, None, &can_packet(1, vec![]), LOW)), vec![0, 1, 2]);
    assert_eq!(sorted(destinations(&table, Some(7), &can_packet(1, vec![]), LOW)), vec![0, 1, 2]);
}

#[test]
fn broadcast_is_for_can_packets_only() {
    let mut table = table_of(3);
    table.set_can_broadcast(true);
    table.add_route(0, 2);
    assert_eq!(destinations(&table, Some(0), &stream_packet(vec![]), LOW), vec![2]);
    assert!(destinations(&table, Some(1), &stream_packet(vec![]), LOW).is_empty());
}

#[test]
fn a_chance_of_one_drops_every_can_packet() {
    let mut table = table_of(2);
    assert!(table.set_can_drop_chance(1.0f32.to_bits()));
    for draw in [0, LOW, 0.5f32.to_bits(), HIGH].iter() {
        assert!(destinations(&table, Some(0), &to(1, can_packet(1, vec![])), *draw).is_empty());
    }
    table.set_can_broadcast(true);
    assert!(destinations(&table, Some(0), &can_packet(1, vec![]), LOW).is_empty());
}

#[test]
fn a_chance_of_zero_drops_nothing() {
    let table = table_of(2);
    for draw in [0, LOW, 0.5f32.to_bits(), HIGH].iter() {
        assert_eq!(destinations(&table, Some(0), &to(1, can_packet(1, vec![])), *draw), vec![1]);
    }
}

#[test]
fn a_chance_between_drops_the_draws_below_it() {
    let mut table = table_of(2);
    table.set_can_drop_chance(0.5f32.to_bits());
    let packet = to(1, can_packet(1, vec![]));
    assert!(destinations(&table, Some(0), &packet, 0.25f32.to_bits()).is_empty());
    assert_eq!(destinations(&table, Some(0), &packet, 0.5f32.to_bits()), vec![1]);
    assert_eq!(destinations(&table, Some(0), &packet, 0.75f32.to_bits()), vec![1]);
}

#[test]
fn stream_packets_are_never_dropped() {
    let mut table = table_of(2);
    table.set_can_drop_chance(1.0f32.to_bits());
    assert_eq!(destinations(&table, Some(0), &to(1, stream_packet(vec![])), LOW), vec![1]);
}

#[test]
fn a_draw_is_needed_for_can_packets_under_a_chance() {
    let mut table = table_of(1);
    assert!(!needs_draw(&table, &can_packet(1, vec![])));
    table.set_can_drop_chance(0.5f32.to_bits());
    assert!(needs_draw(&table, &can_packet(1, vec![])));
    assert!(!needs_draw(&table, &stream_packet(vec![])));
    table.set_can_drop_chance((-0.0f32).to_bits());
    assert!(!needs_draw(&table, &can_packet(1, vec![])));
    let plain = RICS_Data::new();
    assert_eq!(plain.field_type, RICS_Data_RICS_DataType::CAN);
}
