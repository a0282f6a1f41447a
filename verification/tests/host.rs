use rics::host::ServerState;

type Table = ServerState<&'static str, &'static str>;

fn sorted(mut ids: Vec<i32>) -> Vec<i32> {
    ids.sort();
    ids
}

fn listing(table: &Table) -> Vec<(i32, String)> {
    let mut rows = table.list();
    rows.sort();
    rows
}

/// The invariants of the table, as far as its public face shows them.
fn well_formed(table: &Table, known: &[i32]) {
    let rows = table.list();
    let mut ids: Vec<i32> = rows.iter().map(|row| row.0).collect();
    ids.sort();
    let mut unique = ids.clone();
    unique.dedup();
    assert_eq!(ids, unique);
    for id in ids.iter() {
        assert!(table.has_node(*id));
        assert!(*id < table.next_id());
        assert!(table.lookup_name(*id).is_some());
        let routes = table.lookup_routes(*id);
        let mut distinct = routes.clone();
        distinct.sort();
        distinct.dedup();
        assert_eq!(distinct.len(), routes.len());
        for target in routes.iter() {
            assert!(known.contains(target));
        }
    }
    for id in table.writers() {
        assert!(table.has_node(id));
    }
}

#[test]
fn a_new_table_is_empty() {
    let table = Table::new();
    assert_eq!(table.next_id(), 0);
    assert!(!table.get_can_broadcast());
    assert_eq!(table.get_can_drop_chance(), 0);
    assert!(table.list().is_empty());
    assert!(table.writers().is_empty());
    assert!(!table.has_node(0));
    assert!(table.lookup_writer(0).is_none());
    assert!(table.lookup_routes(0).is_empty());
}

#[test]
fn nodes_get_ids_in_order_and_their_id_as_name() {
    let mut table = Table::new();
    assert_eq!(table.new_node("in0", "out0"), 0);
    assert_eq!(table.new_node("in1", "out1"), 1);
    assert_eq!(table.new_sink("out2"), 2);
    assert_eq!(table.next_id(), 3);
    assert_eq!(
        listing(&table),
        vec![(0, "0".to_string()), (1, "1".to_string()), (2, "2".to_string())]
    );
    assert_eq!(table.lookup_writer(1), Some(&"out1"));
    assert_eq!(table.lookup_writer(2), Some(&"out2"));
    assert_eq!(sorted(table.writers()), vec![0, 1, 2]);
    assert!(table.lookup_routes(1).is_empty());
}

#[test]
fn a_raw_node_takes_the_name_and_handles_it_is_given() {
    let mut table = Table::new();
    let id = table.new_node_raw(Some("probe".to_string()), None, None);
    assert_eq!(id, 0);
    assert_eq!(table.lookup_name(0), Some(&"probe".to_string()));
    assert!(!table.has_writer(0));
    assert!(table.has_node(0));
    assert!(table.writers().is_empty());
}

#[test]
fn rename_changes_the_name_of_a_node_only() {
    let mut table = Table::new();
    table.new_node("i", "o");
    assert!(table.rename_node(0, "alpha".to_string()));
    assert_eq!(table.lookup_name(0), Some(&"alpha".to_string()));
    assert!(!table.rename_node(5, "ghost".to_string()));
    assert!(!table.has_node(5));
    assert_eq!(listing(&table), vec![(0, "alpha".to_string())]);
}

#[test]
fn add_route_appends_once() {
    let mut table = Table::new();
    table.new_node("i", "o");
    table.new_node("i", "o");
    table.new_node("i", "o");
    table.add_route(0, 1);
    table.add_route(0, 2);
    table.add_route(0, 1);
    assert_eq!(table.lookup_routes(0), vec![1, 2]);
    assert!(table.lookup_routes(1).is_empty());
}

#[test]
fn adding_a_route_twice_leaves_it_once() {
    for a in 0..3 {
        for b in 0..5 {
            let mut table = Table::new();
            table.new_node("i", "o");
            table.new_node("i", "o");
            table.new_node("i", "o");
            table.add_route(a, 1);
            table.add_route(a, b);
            table.add_route(a, b);
            let routes = table.lookup_routes(a);
            assert_eq!(routes.iter().filter(|t| **t == b).count(), 1);
        }
    }
}

#[test]
fn a_route_that_is_added_and_deleted_is_gone() {
    for a in 0..3 {
        for b in 0..5 {
            let mut table = Table::new();
            table.new_node("i", "o");
            table.new_node("i", "o");
            table.new_node("i", "o");
            table.add_route(a, 2);
            table.add_route(a, b);
            table.del_route(a, b);
            assert!(!table.lookup_routes(a).contains(&b));
        }
    }
}

#[test]
fn add_route_from_an_unknown_node_does_nothing() {
    let mut table = Table::new();
    table.new_node("i", "o");
    table.add_route(7, 0);
    assert!(table.lookup_routes(7).is_empty());
    assert!(!table.has_node(7));
    assert_eq!(listing(&table), vec![(0, "0".to_string())]);
}

#[test]
fn add_route_does_not_ask_whether_the_target_exists() {
    let mut table = Table::new();
    table.new_node("i", "o");
    table.add_route(0, 99);
    assert_eq!(table.lookup_routes(0), vec![99]);
}

#[test]
fn del_route_keeps_the_other_routes_in_order() {
    let mut table = Table::new();
    table.new_node("i", "o");
    for target in [4, 2, 9, 7].iter() {
        table.add_route(0, *target);
    }
    table.del_route(0, 9);
    assert_eq!(table.lookup_routes(0), vec![4, 2, 7]);
    table.del_route(0, 5);
    assert_eq!(table.lookup_routes(0), vec![4, 2, 7]);
    table.del_route(3, 4);
    assert_eq!(table.lookup_routes(0), vec![4, 2, 7]);
}

#[test]
fn delete_removes_the_node_everywhere() {
    let mut table = Table::new();
    table.new_node("i0", "o0");
    table.new_node("i1", "o1");
    table.add_route(0, 1);
    table.add_route(1, 0);
    table.delete_node(0);
    assert!(!table.has_node(0));
    assert!(table.lookup_writer(0).is_none());
    assert!(table.lookup_name(0).is_none());
    assert!(table.lookup_routes(0).is_empty());
    assert_eq!(listing(&table), vec![(1, "1".to_string())]);
    // The route of node 1 to the node that is gone stays.
    assert_eq!(table.lookup_routes(1), vec![0]);
}

#[test]
fn the_allocator_steps_back_for_the_youngest_id_only() {
    let mut table = Table::new();
    table.new_node("i", "o");
    table.new_node("i", "o");
    table.new_node("i", "o");
    table.delete_node(0);
    assert_eq!(table.next_id(), 3);
    table.delete_node(2);
    assert_eq!(table.next_id(), 2);
    assert_eq!(table.new_node("i", "o"), 2);
    assert_eq!(table.next_id(), 3);
}

#[test]
fn after_creates_and_deletes_of_the_youngest_the_next_id_is_their_difference() {
    // true: create, false: delete the youngest id.
    let runs: Vec<Vec<bool>> = vec![
        vec![true, true, true],
        vec![true, false, true, false],
        vec![true, true, false, true, false, false],
        vec![true, true, true, false, false, true, true, false],
        vec![true, false, true, true, false, true, false, false, true],
    ];
    for run in runs {
        let mut table = Table::new();
        let mut creates = 0;
        let mut deletes = 0;
        for create in run {
            if create {
                table.new_node("i", "o");
                creates += 1;
            } else {
                let youngest = table.next_id() - 1;
                table.delete_node(youngest);
                deletes += 1;
            }
            assert_eq!(table.next_id(), creates - deletes);
            well_formed(&table, &[]);
        }
        assert_eq!(table.new_node("i", "o"), creates - deletes);
    }
}

#[test]
fn the_table_stays_well_formed_as_nodes_come_and_go() {
    let mut table = Table::new();
    let steps: [i32; 14] = [-1, -1, -1, 1, -1, 0, -1, -1, 4, 3, -1, 2, 9, -1];
    for step in steps.iter() {
        if *step < 0 {
            table.new_node("i", "o");
        } else {
            table.delete_node(*step);
        }
        well_formed(&table, &[]);
    }
}

#[test]
fn the_table_stays_well_formed_with_routes() {
    let mut table = Table::new();
    for _ in 0..4 {
        table.new_node("i", "o");
    }
    table.add_route(0, 1);
    table.add_route(0, 3);
    table.add_route(1, 0);
    table.add_route(3, 3);
    table.delete_node(3);
    table.del_route(0, 1);
    table.rename_node(1, "one".to_string());
    well_formed(&table, &[0, 1, 2, 3]);
    assert_eq!(table.lookup_routes(0), vec![3]);
}

#[test]
fn the_flags_are_kept() {
    let mut table = Table::new();
    table.set_can_broadcast(true);
    assert!(table.get_can_broadcast());
    table.set_can_broadcast(false);
    assert!(!table.get_can_broadcast());
}

#[test]
fn the_drop_chance_is_taken_from_zero_to_one_only() {
    let mut table = Table::new();
    assert!(table.set_can_drop_chance(0.25f32.to_bits()));
    assert_eq!(table.get_can_drop_chance(), 0.25f32.to_bits());
    assert!(!table.set_can_drop_chance(1.5f32.to_bits()));
    assert_eq!(table.get_can_drop_chance(), 0.25f32.to_bits());
    assert!(!table.set_can_drop_chance((-0.5f32).to_bits()));
    assert!(!table.set_can_drop_chance(f32::NAN.to_bits()));
    assert_eq!(table.get_can_drop_chance(), 0.25f32.to_bits());
    assert!(table.set_can_drop_chance(1.0f32.to_bits()));
    assert_eq!(table.get_can_drop_chance(), 1.0f32.to_bits());
    assert!(table.set_can_drop_chance(0.0f32.to_bits()));
    assert_eq!(table.get_can_drop_chance(), 0);
}
