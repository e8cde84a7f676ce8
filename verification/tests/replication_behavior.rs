use distribeautie::protocol::handle_request;
use distribeautie::replication::build_replication_request;
use distribeautie::replication::plan_tick;
use distribeautie::replication::replication_requests;
use distribeautie::storage::Store;

fn expected_request(item: &str) -> String {
    let body = "key1=value1&key2=value2";
    format!(
        "POST /{} HTTP/1.1\r\nHost: localhost\r\nContent-Type: text/plain\r\nContent-Length: {}\r\n\r\n{}",
        item,
        body.len(),
        body
    )
}

#[test]
fn replication_request_has_fixed_shape() {
    assert_eq!(build_replication_request("foo"), expected_request("foo"));
}

#[test]
fn one_request_per_item_in_snapshot_order() {
    let items = vec![String::from("b"), String::from("a")];
    let requests = replication_requests(&items);
    assert_eq!(requests, vec![expected_request("b"), expected_request("a")]);
}

#[test]
fn non_master_tick_plans_no_connections() {
    let replicas = vec![String::from("localhost:7879"), String::from("localhost:7880")];
    let items = vec![String::from("foo")];
    assert_eq!(plan_tick(false, &replicas, &items).len(), 0);
    assert_eq!(plan_tick(false, &Vec::new(), &Vec::new()).len(), 0);
}

#[test]
fn master_tick_plans_one_task_per_replica() {
    let replicas = vec![String::from("r1:1"), String::from("r2:2"), String::from("r3:3")];
    let items = vec![String::from("x"), String::from("y")];
    let tasks = plan_tick(true, &replicas, &items);
    assert_eq!(tasks.len(), 3);
    for (task, replica) in tasks.iter().zip(replicas.iter()) {
        assert_eq!(&task.addr, replica);
        assert_eq!(task.requests, vec![expected_request("x"), expected_request("y")]);
    }
}

#[test]
fn each_task_is_independent_of_other_replicas() {
    // The task for one replica is the same whether or not others are listed,
    // so skipping an unreachable replica cannot change what the rest receive.
    let items = vec![String::from("foo")];
    let alone = plan_tick(true, &vec![String::from("up:1")], &items);
    let with_unreachable = plan_tick(
        true,
        &vec![String::from("down:9"), String::from("up:1")],
        &items,
    );
    assert_eq!(alone[0].addr, with_unreachable[1].addr);
    assert_eq!(alone[0].requests, with_unreachable[1].requests);
}

#[test]
fn replicated_items_round_trip_into_a_replica_store() {
    // A master's tick delivers its snapshot: feeding the first line of each
    // planned request to a replica's handler stores the same identifiers.
    let mut master = Store::new();
    handle_request(&mut master, "POST /foo HTTP/1.1").unwrap();
    handle_request(&mut master, "POST /bar HTTP/1.1").unwrap();

    let replicas = vec![String::from("localhost:7879")];
    let snapshot = master.get_all_items();
    let tasks = plan_tick(true, &replicas, &snapshot);
    assert_eq!(tasks.len(), 1);
    assert_eq!(tasks[0].requests.len(), 2);

    let mut replica = Store::new();
    for request in tasks[0].requests.iter() {
        let first_line = request.lines().next().unwrap();
        let reply = handle_request(&mut replica, first_line);
        assert!(matches!(reply, Ok(Some(_))));
    }
    assert_eq!(replica.get_all_items(), snapshot);
    assert!(replica.get_item(String::from("foo")));
    assert!(replica.get_item(String::from("bar")));
}

#[test]
fn end_to_end_master_write_then_reads() {
    // The full scenario without sockets or timers: a write to the master, one
    // tick delivering to a replica, then reads against the master.
    let mut master = Store::new();
    handle_request(&mut master, "POST /foo HTTP/1.1").unwrap();

    let snapshot = master.get_all_items();
    let tasks = plan_tick(true, &vec![String::from("r:1")], &snapshot);
    let mut replica = Store::new();
    for request in tasks[0].requests.iter() {
        handle_request(&mut replica, request.lines().next().unwrap()).unwrap();
    }
    assert!(replica.get_item(String::from("foo")));

    let read_foo = handle_request(&mut master, "GET /foo HTTP/1.1").unwrap().unwrap();
    assert!(read_foo.ends_with("The following object exists: true"));
    let read_bar = handle_request(&mut master, "GET /bar HTTP/1.1").unwrap().unwrap();
    assert!(read_bar.ends_with("The following object exists: false"));
}
