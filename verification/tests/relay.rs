use rustchat::connection::{
    on_inbound, on_outbound, welcome_line, wire_line, Acceptor, Inbound, Outbound, ReaderStep,
    WriterStep,
};
use rustchat::lines::LineReader;
use rustchat::router::Router;
use rustchat::writer::{Action, Writer};
use std::sync::mpsc::{channel, Receiver};

/// One client as the server sees it: its handle, the receiving half of its
/// channel, and what its writer has put on the wire so far.
struct Client {
    handle: Writer,
    inbound: LineReader,
    outbox: Receiver<String>,
    wire: String,
}

fn connect(acceptor: &mut Acceptor, router: &mut Router) -> Client {
    let (tx, rx) = channel();
    let handle = acceptor.accept(tx);
    router.apply(Action::AddWriter(handle.duplicate()));
    let wire = wire_line(&welcome_line(handle.id()));
    Client { handle, inbound: LineReader::new(), outbox: rx, wire }
}

/// The client sends `bytes`; the server reads them and routes what they
/// complete.
fn send(router: &mut Router, client: &mut Client, bytes: &[u8]) {
    for got in client.inbound.feed(bytes) {
        match on_inbound(&client.handle, got) {
            ReaderStep::Forward(act) => {
                router.apply(act);
            }
            ReaderStep::Skip => {}
            _ => panic!("a line is forwarded or skipped"),
        }
    }
}

fn say(router: &mut Router, client: &mut Client, line: &str) {
    send(router, client, line.as_bytes());
    send(router, client, b"\n");
}

fn flush(client: &mut Client) {
    while let Ok(msg) = client.outbox.try_recv() {
        match on_outbound(Outbound::Message(msg)) {
            WriterStep::Write(text) => client.wire.push_str(&text),
            WriterStep::Finish => panic!("a message is written"),
        }
    }
}

#[test]
fn hello_reaches_the_other_client_only() {
    let mut acceptor = Acceptor::new();
    let mut router = Router::new();
    let mut a = connect(&mut acceptor, &mut router);
    let mut b = connect(&mut acceptor, &mut router);
    say(&mut router, &mut a, "hello");
    flush(&mut a);
    flush(&mut b);
    assert_eq!(b.wire, "server: connected as n°1\nhello\n");
    assert_eq!(a.wire, "server: connected as n°0\n");
    assert!(!a.wire.contains("hello"));
}

#[test]
fn third_client_sees_lines_in_router_order() {
    let mut acceptor = Acceptor::new();
    let mut router = Router::new();
    let mut a = connect(&mut acceptor, &mut router);
    let mut b = connect(&mut acceptor, &mut router);
    let mut c = connect(&mut acceptor, &mut router);
    say(&mut router, &mut a, "1");
    say(&mut router, &mut b, "2");
    flush(&mut a);
    flush(&mut b);
    flush(&mut c);
    assert_eq!(c.wire, "server: connected as n°2\n1\n2\n");
    assert_eq!(a.wire, "server: connected as n°0\n2\n");
    assert_eq!(b.wire, "server: connected as n°1\n1\n");
}

#[test]
fn a_departed_client_raises_no_error() {
    let mut acceptor = Acceptor::new();
    let mut router = Router::new();
    let a = connect(&mut acceptor, &mut router);
    drop(a);
    let mut b = connect(&mut acceptor, &mut router);
    assert_eq!(b.handle.id(), 1);
    let report = match on_inbound(&b.handle, Inbound::Line(String::from("hi"))) {
        ReaderStep::Forward(act) => router.apply(act),
        _ => panic!("a line is forwarded"),
    };
    assert_eq!(report.len(), 1);
    assert_eq!(report[0].id, 0);
    assert!(!report[0].queued);
    flush(&mut b);
    assert_eq!(b.wire, "server: connected as n°1\n");
}

#[test]
fn a_departed_and_deregistered_client_is_not_tried() {
    let mut acceptor = Acceptor::new();
    let mut router = Router::new();
    let a = connect(&mut acceptor, &mut router);
    router.apply(Action::RmWriter(a.handle.duplicate()));
    drop(a);
    let b = connect(&mut acceptor, &mut router);
    let report = match on_inbound(&b.handle, Inbound::Line(String::from("hi"))) {
        ReaderStep::Forward(act) => router.apply(act),
        _ => panic!("a line is forwarded"),
    };
    assert!(report.is_empty());
}

#[test]
fn an_empty_line_is_delivered_as_an_empty_line() {
    let mut acceptor = Acceptor::new();
    let mut router = Router::new();
    let mut a = connect(&mut acceptor, &mut router);
    let mut b = connect(&mut acceptor, &mut router);
    say(&mut router, &mut a, "before");
    say(&mut router, &mut a, "");
    say(&mut router, &mut a, "after");
    flush(&mut b);
    assert_eq!(b.wire, "server: connected as n°1\nbefore\n\nafter\n");
}

#[test]
fn a_garbled_line_is_not_relayed() {
    let mut acceptor = Acceptor::new();
    let mut router = Router::new();
    let mut a = connect(&mut acceptor, &mut router);
    let mut b = connect(&mut acceptor, &mut router);
    send(&mut router, &mut a, b"one\n\xff\xff\ntw");
    send(&mut router, &mut a, b"o\n");
    flush(&mut b);
    assert_eq!(b.wire, "server: connected as n°1\none\ntwo\n");
}
