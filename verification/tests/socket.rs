//! Where the socket is, and what a client says.

use clipd::client::{Client, ClientError};
use clipd::proto::{InternalRequest, Request, Response};
use clipd::socket::{nix_uid, socket_path};

#[test]
fn the_socket_is_in_the_runtime_directory() {
    for dir in ["/run/user/7", "/run/user/7/", "", "relative", "/"] {
        let expected = std::path::PathBuf::from(dir).join("clipd.sock");
        assert_eq!(socket_path(Some(dir), None), expected.to_str().unwrap());
    }
}

#[test]
fn without_a_runtime_directory_the_user_id_tells() {
    let status = "Name:\tclipd\nUid:\t1234\t1234\t1234\t1234\nGid:\t5\n";
    assert_eq!(socket_path(None, Some(status)), "/run/user/1234/clipd.sock");
    assert_eq!(socket_path(None, None), "/run/user/1000/clipd.sock");
}

#[test]
fn user_ids_are_read_from_the_status() {
    assert_eq!(nix_uid(Some("Uid:\t0\t0")), 0);
    assert_eq!(nix_uid(Some("x\r\nUid: 42\r\n")), 42);
    assert_eq!(nix_uid(Some("Uid: +7")), 7);
    assert_eq!(nix_uid(Some("uid: 7")), 1000);
    assert_eq!(nix_uid(Some(" Uid: 7")), 1000);
    assert_eq!(nix_uid(Some("Uid:7")), 1000);
    assert_eq!(nix_uid(Some("Uid:")), 1000);
    assert_eq!(nix_uid(Some("Uid: many")), 1000);
    assert_eq!(nix_uid(Some("Uid: 4294967296")), 1000);
    assert_eq!(nix_uid(Some("Uid:\nUid: 3")), 1000);
    assert_eq!(nix_uid(Some("")), 1000);
    assert_eq!(nix_uid(None), 1000);
}

fn client() -> Client {
    Client::new(Some("/tmp/x"), None)
}

#[test]
fn clients_know_the_socket() {
    assert_eq!(client().socket(), "/tmp/x/clipd.sock");
}

#[test]
fn clients_wrap_what_they_ask() {
    let c = client();
    assert!(matches!(c.ask_recent(9), InternalRequest::Public(Request::Recent { limit: 9 })));
    assert!(matches!(
        c.ask_search("q", 3),
        InternalRequest::Public(Request::Search { query, limit: 3 }) if query == "q"
    ));
    assert!(matches!(c.ask_activate(4), InternalRequest::Public(Request::Activate { id: 4 })));
    assert!(matches!(
        c.ask_set_pinned(5, true),
        InternalRequest::Public(Request::SetPinned { id: 5, pinned: true })
    ));
    assert!(matches!(c.ask_delete(6), InternalRequest::Public(Request::Delete { id: 6 })));
    assert!(matches!(
        c.ask_ingest("m".into(), vec![1]),
        InternalRequest::Ingest { mime, body } if mime == "m" && body == [1]
    ));
    assert!(matches!(c.call(Request::Clear), InternalRequest::Public(Request::Clear)));
}

#[test]
fn clients_read_replies() {
    let c = client();
    assert!(c.recent(Response::Clips(vec![])).unwrap().is_empty());
    assert!(c.search(Response::Clips(vec![])).unwrap().is_empty());
    assert!(c.activate(Response::Done).is_ok());
    assert!(c.set_pinned(Response::Done).is_ok());
    assert!(c.delete(Response::Done).is_ok());
    assert!(c.ingest(Response::Done).is_ok());
}

#[test]
fn clients_report_refusals() {
    let c = client();
    let no = || Response::Failed("clip 1 not found".into());
    for e in [
        c.recent(no()).unwrap_err(),
        c.search(no()).unwrap_err(),
        c.activate(no()).unwrap_err(),
        c.set_pinned(no()).unwrap_err(),
        c.delete(no()).unwrap_err(),
        c.ingest(no()).unwrap_err(),
    ] {
        assert!(matches!(e, ClientError::Daemon(m) if m == "daemon: clip 1 not found"));
    }
}

#[test]
fn clients_report_unexpected_replies() {
    let c = client();
    let pong = || Response::Pong { version: "1".into(), protocol: 1 };
    assert!(matches!(c.recent(Response::Done), Err(ClientError::Unexpected(Response::Done))));
    assert!(matches!(c.search(pong()), Err(ClientError::Unexpected(Response::Pong { .. }))));
    assert!(matches!(
        c.activate(Response::Clips(vec![])),
        Err(ClientError::Unexpected(Response::Clips(_)))
    ));
    assert!(matches!(c.delete(pong()), Err(ClientError::Unexpected(_))));
    assert!(matches!(c.set_pinned(pong()), Err(ClientError::Unexpected(_))));
    assert!(matches!(c.ingest(pong()), Err(ClientError::Unexpected(_))));
}
