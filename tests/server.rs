use futures::executor::block_on;
use hyper::body::to_bytes;
use hyper::Body;
use hyper_usse::Server;

#[test]
fn attached_clients_are_counted() {
    let mut server = Server::new();
    assert_eq!(server.connections(), 0);
    let (h1, _b1) = Body::channel();
    let (h2, _b2) = Body::channel();
    server.add_client(h1);
    server.add_client(h2);
    assert_eq!(server.connections(), 2);
}

#[test]
fn failed_write_prunes_its_client() {
    let mut server = Server::new();
    let (h1, _b1) = Body::channel();
    let (h2, _b2) = Body::channel();
    server.add_client(h1);
    server.add_client(h2);
    let clients = server.take_clients();
    assert_eq!(clients.len(), 2);
    assert_eq!(server.connections(), 0);
    assert_eq!(server.keep_delivered(clients, &vec![true, false]), 1);
    assert_eq!(server.connections(), 1);
}

#[test]
fn delivered_clients_stay_whatever_the_order() {
    let mut server = Server::new();
    let (h1, b1) = Body::channel();
    let (h2, b2) = Body::channel();
    let (h3, b3) = Body::channel();
    server.add_client(h1);
    server.add_client(h2);
    server.add_client(h3);
    let clients = server.take_clients();
    assert_eq!(server.keep_delivered(clients, &vec![true, false, true]), 2);
    // The kept streams end in an error once aborted; the dropped one ended cleanly.
    server.disconnect_all();
    assert!(block_on(to_bytes(b1)).is_err());
    assert!(block_on(to_bytes(b2)).is_ok());
    assert!(block_on(to_bytes(b3)).is_err());
}

#[test]
fn disconnect_all_aborts_and_forgets_clients() {
    let mut server = Server::new();
    let (h1, b1) = Body::channel();
    let (h2, b2) = Body::channel();
    server.add_client(h1);
    server.add_client(h2);
    server.disconnect_all();
    assert_eq!(server.connections(), 0);
    assert!(server.take_clients().is_empty());
    assert!(block_on(to_bytes(b1)).is_err());
    assert!(block_on(to_bytes(b2)).is_err());
}

#[test]
fn heartbeats_without_failures_keep_the_count() {
    let mut server = Server::default();
    for _ in 0..3 {
        let (h, _b) = Body::channel();
        server.add_client(h);
    }
    for _ in 0..4 {
        let clients = server.take_clients();
        let delivered = vec![true; clients.len()];
        assert_eq!(server.keep_delivered(clients, &delivered), 3);
        assert_eq!(server.connections(), 3);
    }
}

#[test]
fn keep_delivered_with_no_clients() {
    let mut server = Server::new();
    let clients = server.take_clients();
    assert_eq!(server.keep_delivered(clients, &Vec::new()), 0);
}

#[test]
fn all_failed_writes_empty_the_server() {
    let mut server = Server::new();
    let (h1, _b1) = Body::channel();
    let (h2, _b2) = Body::channel();
    server.add_client(h1);
    server.add_client(h2);
    let clients = server.take_clients();
    assert_eq!(server.keep_delivered(clients, &vec![false, false]), 0);
    assert_eq!(server.connections(), 0);
}
