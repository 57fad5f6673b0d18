use chutor::connection::{declared_length, Request, RESPONSE};
use chutor::reactor::Interest;

#[test]
fn complete_request_switches_to_write_and_answers_hello() {
    let head = b"POST / HTTP/1.1\r\nHost: localhost:8080\r\nContent-Length: 5\r\n\r\n".to_vec();
    let mut req = Request::new();
    assert_eq!(req.on_read(&head), Interest::Write);
    assert_eq!(req.declared(), 5);
    let body = b"Hello".to_vec();
    assert_eq!(req.on_read(&body), Interest::Write);
    assert_eq!(req.received().len(), head.len() + 5);
    assert!(RESPONSE.as_bytes().ends_with(b"\n\nHello"));
    assert_eq!(
        RESPONSE.as_bytes(),
        b"HTTP/1.1 200 OK\ncontent-type: text/html\ncontent-length: 5\n\nHello"
    );
}

#[test]
fn incomplete_request_rearms_read() {
    let mut req = Request::new();
    let head = b"POST / HTTP/1.1\r\ncontent-length: 300\r\n\r\nabc".to_vec();
    assert_eq!(req.on_read(&head), Interest::Read);
    assert_eq!(req.declared(), 300);
    let rest = vec![b'x'; 200];
    assert_eq!(req.on_read(&rest), Interest::Read);
    // a later chunk without the protocol marker keeps the declared length
    assert_eq!(req.declared(), 300);
    let more = vec![b'y'; 100];
    assert_eq!(req.on_read(&more), Interest::Write);
}

#[test]
fn declared_length_parsing() {
    assert_eq!(declared_length(&b"HTTP\ncontent-length: 5".to_vec()), Some(5));
    assert_eq!(declared_length(&b"HTTP\r\nCONTENT-LENGTH: 42\r\n".to_vec()), Some(42));
    assert_eq!(declared_length(&b"HTTP\r\ncontent-length: +7\r\n".to_vec()), Some(7));
    assert_eq!(declared_length(&b"content-length: 5\r\n".to_vec()), None);
    assert_eq!(declared_length(&b"HTTP\r\ncontent-length: \r\n".to_vec()), None);
    assert_eq!(declared_length(&b"HTTP\r\ncontent-length: 5x\r\n".to_vec()), None);
    assert_eq!(declared_length(&b"HTTP\r\ncontent-length:5\r\n".to_vec()), None);
    assert_eq!(
        declared_length(&b"HTTP\r\ncontent-length: 18446744073709551615\r\n".to_vec()),
        Some(usize::MAX)
    );
    assert_eq!(
        declared_length(&b"HTTP\r\ncontent-length: 18446744073709551616\r\n".to_vec()),
        None
    );
    assert_eq!(
        declared_length(&b"HTTP\r\nx: 1\r\ncontent-length: 9\r\ncontent-length: 8\r\n".to_vec()),
        Some(9)
    );
    assert_eq!(declared_length(&Vec::new()), None);
}

#[test]
fn header_is_looked_for_in_first_hundred_bytes() {
    let mut head = b"POST / HTTP/1.1\r\n".to_vec();
    head.extend(vec![b'a'; 90]);
    head.extend(b"\r\ncontent-length: 1\r\n\r\n");
    let mut req = Request::new();
    assert_eq!(req.on_read(&head), Interest::Write);
    assert_eq!(req.declared(), 0);
}
