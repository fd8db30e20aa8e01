use zbus::array::{array_contents_start, encode_array, extract_array};
use zbus::auth::{find_line, ClientAuth, ClientState, ServerAuth};
use zbus::connection::{Authenticated, CallStep, Connection, StreamAction, StreamEvent};
use zbus::endian::Endian;
use zbus::error::{Error, IoErrorKind, VariantError};
use zbus::message::{Message, MessageFields, MessageType, PrimaryHeader};
use zbus::raw::{FlushStep, RawConnection};
use zbus::string::encode;
use zbus::wire::{decode_head, message_length};

fn hello() -> Message {
    let mut m = Message::method(
        None,
        Some("org.freedesktop.DBus"),
        "/org/freedesktop/DBus",
        Some("org.freedesktop.DBus"),
        "Hello",
        "",
        &[],
        vec![],
    )
    .unwrap();
    m.set_serial_num(1);
    m
}

#[test]
fn hello_call_on_the_wire() {
    let bytes = hello().to_bytes().unwrap();
    let expected: Vec<u8> = vec![
        0x6c, 0x01, 0x00, 0x01, 0x00, 0x00, 0x00, 0x00, 0x01, 0x00, 0x00, 0x00, 0x6d, 0x00,
        0x00, 0x00, // fixed header, fields take 109 bytes
        0x01, 0x01, 0x6f, 0x00, 0x15, 0x00, 0x00, 0x00, // path
        0x2f, 0x6f, 0x72, 0x67, 0x2f, 0x66, 0x72, 0x65, 0x65, 0x64, 0x65, 0x73, 0x6b, 0x74,
        0x6f, 0x70, 0x2f, 0x44, 0x42, 0x75, 0x73, 0x00, 0x00, 0x00, //
        0x02, 0x01, 0x73, 0x00, 0x14, 0x00, 0x00, 0x00, // interface
        0x6f, 0x72, 0x67, 0x2e, 0x66, 0x72, 0x65, 0x65, 0x64, 0x65, 0x73, 0x6b, 0x74, 0x6f,
        0x70, 0x2e, 0x44, 0x42, 0x75, 0x73, 0x00, 0x00, 0x00, 0x00, //
        0x03, 0x01, 0x73, 0x00, 0x05, 0x00, 0x00, 0x00, // member
        0x48, 0x65, 0x6c, 0x6c, 0x6f, 0x00, 0x00, 0x00, //
        0x06, 0x01, 0x73, 0x00, 0x14, 0x00, 0x00, 0x00, // destination
        0x6f, 0x72, 0x67, 0x2e, 0x66, 0x72, 0x65, 0x65, 0x64, 0x65, 0x73, 0x6b, 0x74, 0x6f,
        0x70, 0x2e, 0x44, 0x42, 0x75, 0x73, 0x00, // end of the fields
        0x00, 0x00, 0x00, // padding to a multiple of eight
    ];
    assert_eq!(bytes, expected);
    assert_eq!(bytes.len() % 8, 0);
    assert_eq!(message_length(&bytes[..16]), Ok(bytes.len() as u64));
    assert_eq!(Message::from_bytes(&bytes, vec![]), Ok(hello()));
}

fn samples() -> Vec<Message> {
    let call = {
        let mut m = Message::method(
            Some(":1.5"),
            Some("org.zbus.Peer"),
            "/org/zbus",
            Some("org.zbus.Iface"),
            "Frob",
            "s",
            &encode("grüße", 0, Endian::Little),
            vec![],
        )
        .unwrap();
        m.set_serial_num(0xDEAD_BEEF);
        m
    };
    let reply = Message::method_reply(Some(":1.9"), &call, "u", &[7, 0, 0, 0], vec![]).unwrap();
    let error =
        Message::method_error(None, &call, "org.zbus.Error.No", "", &[], vec![]).unwrap();
    let signal =
        Message::signal(None, None, "/", "org.zbus.Iface", "Changed", "ay", &[1, 0, 0, 0, 9], vec![])
            .unwrap();
    let with_fds =
        Message::method(None, None, "/", None, "Take", "hh", &[0, 0, 0, 0, 1, 0, 0, 0], vec![5, 6])
            .unwrap();
    let big_endian = {
        let mut fields = MessageFields::empty();
        fields.reply_serial = Some(0x0102_0304);
        fields.signature = Some("s".to_string());
        let body = encode("big", 0, Endian::Big);
        let primary = PrimaryHeader {
            endian: Endian::Big,
            msg_type: MessageType::MethodReturn,
            flags: 3,
            protocol_version: 1,
            body_len: body.len() as u32,
            serial_num: 0x0A0B_0C0D,
        };
        Message::from_parts(primary, fields, body, vec![]).unwrap()
    };
    vec![call, reply, error, signal, with_fds, big_endian]
}

#[test]
fn messages_round_trip() {
    for m in samples() {
        let bytes = m.to_bytes().unwrap();
        assert_eq!(message_length(&bytes), Ok(bytes.len() as u64));
        let back = Message::from_bytes(&bytes, m.fds().to_vec()).unwrap();
        assert_eq!(back, m);
        assert_eq!(back.to_bytes().unwrap(), bytes);
        assert_eq!(&bytes[bytes.len() - m.body_bytes().len()..], m.body_bytes());
        assert_eq!((bytes.len() - m.body_bytes().len()) % 8, 0);
    }
}

#[test]
fn big_endian_header() {
    let m = samples().pop().unwrap();
    let bytes = m.to_bytes().unwrap();
    assert_eq!(&bytes[..4], &[0x42, 0x02, 0x03, 0x01]);
    assert_eq!(&bytes[4..8], &[0x00, 0x00, 0x00, 0x08]);
    assert_eq!(&bytes[8..12], &[0x0A, 0x0B, 0x0C, 0x0D]);
    let (primary, fields_len) = decode_head(&bytes).unwrap();
    assert_eq!(primary, m.primary_header());
    assert_eq!(fields_len, 8 + 7);
    assert_eq!(&bytes[16..24], &[0x05, 0x01, 0x75, 0x00, 0x01, 0x02, 0x03, 0x04]);
    assert_eq!(&bytes[24..31], &[0x08, 0x01, 0x67, 0x00, 0x01, 0x73, 0x00]);
}

#[test]
fn parsing_refuses_what_is_no_message() {
    let bytes = hello().to_bytes().unwrap();
    let parse = |b: &[u8]| Message::from_bytes(b, vec![]);
    let invalid = Err(Error::Variant(VariantError::InvalidData));
    let short = Err(Error::Variant(VariantError::InsufficientData));

    assert_eq!(parse(&bytes[..15]), short);
    assert_eq!(parse(&bytes[..bytes.len() - 1]), short);
    let mut longer = bytes.clone();
    longer.push(0);
    assert_eq!(parse(&longer), invalid);

    let mut b = bytes.clone();
    b[0] = b'x';
    assert_eq!(parse(&b), invalid);
    let mut b = bytes.clone();
    b[1] = 5;
    assert_eq!(parse(&b), invalid);
    let mut b = bytes.clone();
    b[1] = 0;
    assert_eq!(parse(&b), invalid);
    let mut b = bytes.clone();
    b[3] = 2;
    assert_eq!(parse(&b), invalid);
    let mut b = bytes.clone();
    b[15] = 0x04; // fields of 2^26 bytes and more
    assert_eq!(parse(&b), invalid);

    // A field code that is not known, a value of the wrong type, a field twice.
    let mut b = bytes.clone();
    b[16] = 10;
    assert_eq!(parse(&b), invalid);
    let mut b = bytes.clone();
    b[18] = b's';
    assert_eq!(parse(&b), invalid);
    let mut b = bytes.clone();
    b[80] = 2;
    assert_eq!(parse(&b), invalid);
    // A method call without a member.
    let mut b = bytes.clone();
    b[80] = 4;
    assert_eq!(parse(&b), invalid);
    // Text that is not UTF-8.
    let mut b = bytes.clone();
    b[88] = 0xFF;
    assert_eq!(parse(&b), Err(Error::Variant(VariantError::InvalidUtf8)));
    // File descriptors that the header does not count.
    assert_eq!(Message::from_bytes(&bytes, vec![4]), invalid);
}

#[test]
fn the_signature_of_a_body_must_be_a_signature() {
    let refused = Err(Error::Variant(VariantError::InvalidSignature));
    for text in ["z", "a", "(i", "{sv}"] {
        assert_eq!(
            Message::method(None, None, "/", None, "M", text, &[1], vec![]),
            refused
        );
        assert_eq!(
            Message::signal(None, None, "/", "a.b", "M", text, &[], vec![]),
            refused
        );
        assert_eq!(Message::method_reply(None, &hello(), text, &[1], vec![]), refused);
        assert_eq!(
            Message::method_error(None, &hello(), "a.b.E", text, &[1], vec![]),
            refused
        );
    }
    // On the wire: the field that holds the signature, with a text that
    // is none.
    let good = Message::method_reply(None, &hello(), "y", &[7], vec![]).unwrap();
    let mut bytes = good.to_bytes().unwrap();
    assert_eq!(Message::from_bytes(&bytes, vec![]), Ok(good));
    assert_eq!(&bytes[24..31], &[8, 1, b'g', 0, 1, b'y', 0]);
    bytes[29] = b'z';
    assert_eq!(Message::from_bytes(&bytes, vec![]), refused);
    bytes[29] = b'a';
    assert_eq!(Message::from_bytes(&bytes, vec![]), refused);

    let primary = PrimaryHeader {
        endian: Endian::Little,
        msg_type: MessageType::MethodReturn,
        flags: 0,
        protocol_version: 1,
        body_len: 1,
        serial_num: 1,
    };
    let mut fields = MessageFields::empty();
    fields.reply_serial = Some(1);
    fields.signature = Some("(y".to_string());
    assert_eq!(Message::from_parts(primary, fields.clone(), vec![7], vec![]), refused);
    fields.signature = Some("(y)".to_string());
    assert!(Message::from_parts(primary, fields, vec![7], vec![]).is_ok());
}

#[test]
fn from_parts_checks_the_parts() {
    let primary = PrimaryHeader {
        endian: Endian::Little,
        msg_type: MessageType::Signal,
        flags: 0,
        protocol_version: 1,
        body_len: 0,
        serial_num: 1,
    };
    let mut fields = MessageFields::empty();
    fields.path = Some("/".to_string());
    fields.interface = Some("a.b".to_string());
    let invalid = Err(Error::Variant(VariantError::InvalidData));
    assert_eq!(Message::from_parts(primary, fields.clone(), vec![], vec![]), invalid);
    fields.member = Some("M".to_string());
    assert!(Message::from_parts(primary, fields.clone(), vec![], vec![]).is_ok());
    assert_eq!(Message::from_parts(primary, fields.clone(), vec![1], vec![]), invalid);
    assert_eq!(Message::from_parts(primary, fields.clone(), vec![], vec![3]), invalid);
    let mut wrong_version = primary;
    wrong_version.protocol_version = 2;
    assert_eq!(Message::from_parts(wrong_version, fields.clone(), vec![], vec![]), invalid);
    let mut with_body = primary;
    with_body.body_len = 1;
    assert_eq!(Message::from_parts(with_body, fields.clone(), vec![1], vec![]), invalid);
    fields.signature = Some("y".to_string());
    fields.unix_fds = Some(1);
    assert!(Message::from_parts(with_body, fields, vec![1], vec![3]).is_ok());
}

#[test]
fn a_message_without_wire_form_is_refused() {
    let long_signature = "y".repeat(256);
    let m = Message::signal(None, None, "/", "a.b", "M", &long_signature, &[0; 256], vec![])
        .unwrap();
    assert_eq!(m.to_bytes(), Err(Error::Variant(VariantError::InvalidData)));
    let mut raw = RawConnection::new(true);
    assert_eq!(raw.enqueue_message(&m), Err(Error::Variant(VariantError::InvalidData)));
    assert!(raw.pending_bytes().is_empty());
}

#[test]
fn flushing_resumes_where_it_stopped() {
    let mut raw = RawConnection::new(true);
    assert_eq!(raw.try_flush(None), FlushStep::Done(Ok(())));
    let messages = samples();
    let mut all = vec![];
    for m in &messages {
        raw.enqueue_message(m).unwrap();
        all.extend(m.to_bytes().unwrap());
    }
    assert_eq!(raw.pending_bytes(), &all[..]);
    assert_eq!(raw.pending_fds(), &[5, 6][..]);
    assert_eq!(raw.try_flush(None), FlushStep::Write);
    assert_eq!(
        raw.try_flush(Some(Err(IoErrorKind::WouldBlock))),
        FlushStep::Done(Err(IoErrorKind::WouldBlock))
    );
    assert_eq!(raw.pending_bytes(), &all[..]);
    assert_eq!(raw.try_flush(Some(Ok(10))), FlushStep::Write);
    assert_eq!(raw.pending_bytes(), &all[10..]);
    assert!(raw.pending_fds().is_empty());
    assert_eq!(raw.try_flush(Some(Ok(0))), FlushStep::Done(Err(IoErrorKind::Other)));
    assert_eq!(
        raw.try_flush(Some(Ok(all.len()))),
        FlushStep::Done(Err(IoErrorKind::Other))
    );
    assert_eq!(raw.pending_bytes(), &all[10..]);
    assert_eq!(raw.try_flush(Some(Ok(all.len() - 10))), FlushStep::Done(Ok(())));
    assert!(raw.pending_bytes().is_empty());
    assert_eq!(raw.try_flush(Some(Ok(0))), FlushStep::Done(Ok(())));
}

#[test]
fn fds_need_the_peers_consent() {
    let with_fds = samples().remove(4);
    let mut raw = RawConnection::new(false);
    assert_eq!(raw.enqueue_message(&with_fds), Err(Error::Unsupported));
    assert!(raw.pending_bytes().is_empty());
    assert!(raw.pending_fds().is_empty());
    assert_eq!(raw.enqueue_message(&hello()), Ok(()));
    assert_eq!(raw.pending_bytes(), &hello().to_bytes().unwrap()[..]);
}

#[test]
fn reassembly_of_messages_that_arrive_in_pieces() {
    let messages = samples();
    let mut all = vec![];
    for m in &messages {
        all.extend(m.to_bytes().unwrap());
    }
    let would_block = Err(Error::Io(IoErrorKind::WouldBlock));
    for chunk in [1usize, 7, 16, 100, all.len()] {
        let mut raw = RawConnection::new(true);
        assert_eq!(raw.try_receive_message(), would_block);
        let mut received = vec![];
        let mut first = true;
        for piece in all.chunks(chunk) {
            // The two file descriptors come with the first piece.
            let fds: &[i32] = if first { &[5, 6] } else { &[] };
            first = false;
            raw.received(piece, fds).unwrap();
            loop {
                match raw.try_receive_message() {
                    Ok(m) => received.push(m),
                    Err(e) => {
                        assert_eq!(Err::<Message, Error>(e), would_block);
                        break;
                    }
                }
            }
        }
        assert_eq!(received, messages);
        assert!(raw.take_unclaimed_fds().is_empty());
    }
}

#[test]
fn a_closed_socket_is_a_broken_pipe() {
    let mut raw = RawConnection::new(false);
    assert_eq!(raw.received(&[], &[]), Err(Error::Io(IoErrorKind::BrokenPipe)));
}

#[test]
fn a_message_that_cannot_be_read_does_not_stop_the_next() {
    let good = hello().to_bytes().unwrap();
    let mut bad = good.clone();
    bad[16] = 10;
    let mut raw = RawConnection::new(false);
    raw.received(&bad, &[]).unwrap();
    raw.received(&good, &[9]).unwrap();
    assert_eq!(
        raw.try_receive_message(),
        Err(Error::Variant(VariantError::InvalidData))
    );
    assert_eq!(raw.try_receive_message(), Ok(hello()));
    assert_eq!(raw.take_unclaimed_fds(), vec![9]);
    assert!(raw.take_unclaimed_fds().is_empty());

    // Where no header is found, all that was read is dropped.
    let mut raw = RawConnection::new(false);
    let mut junk = good.clone();
    junk[0] = 0;
    raw.received(&junk, &[]).unwrap();
    assert_eq!(
        raw.try_receive_message(),
        Err(Error::Variant(VariantError::InvalidData))
    );
    assert_eq!(raw.try_receive_message(), Err(Error::Io(IoErrorKind::WouldBlock)));
}

#[test]
fn empty_array_is_length_and_padding() {
    for order in [Endian::Little, Endian::Big] {
        for align in [1usize, 2, 4, 8] {
            for offset in 0..16usize {
                let bytes = encode_array(&[], align, offset, order).unwrap();
                let pad = (4 - offset % 4) % 4;
                let after_length = offset + pad + 4;
                let gap = (align - after_length % align) % align;
                assert_eq!(bytes.len(), pad + 4 + gap);
                assert!(bytes.iter().all(|b| *b == 0));
                assert_eq!(array_contents_start(offset, align), offset + bytes.len());
                assert_eq!((offset + bytes.len()) % align, 0);
            }
        }
    }
    assert_eq!(encode_array(&[], 8, 0, Endian::Little).unwrap(), vec![0; 8]);
    assert_eq!(encode_array(&[], 4, 0, Endian::Little).unwrap(), vec![0; 4]);
    assert_eq!(encode_array(&[], 8, 4, Endian::Little).unwrap(), vec![0; 4]);
    assert_eq!(encode_array(&[], 1, 3, Endian::Little).unwrap(), vec![0; 5]);
}

#[test]
fn array_round_trip() {
    let contents = [1u8, 2, 3, 4, 5, 6, 7, 8, 9];
    for order in [Endian::Little, Endian::Big] {
        for align in [1usize, 2, 4, 8] {
            for offset in 0..16usize {
                let bytes = encode_array(&contents, align, offset, order).unwrap();
                let pad = (4 - offset % 4) % 4;
                let (got, used) = extract_array(&bytes[pad..], align, offset + pad, order).unwrap();
                assert_eq!(got, &contents[..]);
                assert_eq!(used, bytes.len() - pad);
            }
        }
    }
    assert_eq!(
        encode_array(&[0xAA, 0xBB], 8, 0, Endian::Little).unwrap(),
        vec![2, 0, 0, 0, 0, 0, 0, 0, 0xAA, 0xBB]
    );
    assert_eq!(
        encode_array(&[0xAA, 0xBB], 2, 1, Endian::Big).unwrap(),
        vec![0, 0, 0, 0, 0, 0, 2, 0xAA, 0xBB]
    );
}

#[test]
fn array_errors() {
    let too_long = vec![0u8; 0x400_0000];
    assert_eq!(
        encode_array(&too_long, 1, 0, Endian::Little),
        Err(VariantError::InvalidData)
    );
    assert!(encode_array(&too_long[1..], 1, 0, Endian::Little).is_ok());
    assert_eq!(
        extract_array(&[0, 0, 0], 1, 0, Endian::Little),
        Err(VariantError::InsufficientData)
    );
    assert_eq!(
        extract_array(&[0, 0, 0, 4], 1, 0, Endian::Little),
        Err(VariantError::InvalidData)
    );
    assert_eq!(
        extract_array(&[3, 0, 0, 0, 1, 2], 1, 0, Endian::Little),
        Err(VariantError::InsufficientData)
    );
    assert_eq!(
        extract_array(&[1, 0, 0, 0, 0, 0, 0], 8, 0, Endian::Little),
        Err(VariantError::InsufficientData)
    );
    assert_eq!(
        extract_array(&[0, 0, 0, 0], 1, 0, Endian::Little),
        Ok((&[][..], 4))
    );
}

// One end of a socket pair: the state of a connection and its buffers.
struct Peer {
    conn: Connection,
    raw: RawConnection,
}

impl Peer {
    fn new(auth: Authenticated) -> Peer {
        let raw = RawConnection::new(auth.cap_unix_fd);
        Peer { conn: Connection::new_authenticated(auth), raw }
    }

    // Writes all that waits, a few bytes at a time, and hands back what went
    // over the socket.
    fn flush(&mut self) -> (Vec<u8>, Vec<i32>) {
        while let Some(m) = self.conn.next_outgoing() {
            self.raw.enqueue_message(&m).unwrap();
        }
        let mut bytes = vec![];
        let mut fds = vec![];
        let mut written = None;
        while self.raw.try_flush(written) == FlushStep::Write {
            let n = self.raw.pending_bytes().len().min(13);
            bytes.extend_from_slice(&self.raw.pending_bytes()[..n]);
            fds.extend_from_slice(self.raw.pending_fds());
            written = Some(Ok(n));
        }
        (bytes, fds)
    }

    // Takes what came over the socket and hands back the next message.
    fn next(&mut self) -> Option<Message> {
        let mut event = StreamEvent::Start;
        loop {
            event = match self.conn.poll_next(event) {
                StreamAction::TryReceive => StreamEvent::Received(self.raw.try_receive_message()),
                StreamAction::Yield(m) => return Some(m),
                StreamAction::PollReadable => return None,
                other => panic!("{:?}", other),
            };
        }
    }
}

#[test]
fn peers_talk_over_bytes() {
    // The dialogue first.
    let guid = "00112233445566778899aabbccddeeff";
    let mut client_auth = ClientAuth::new();
    let mut server_auth = ServerAuth::new();
    let mut to_server = client_auth.begin(1000);
    server_auth.on_first_byte(to_server.remove(0)).unwrap();
    while client_auth.state() != ClientState::Ready {
        let end = find_line(&to_server).unwrap();
        let to_client = server_auth.on_line(&to_server[..end], guid, 1000).unwrap();
        let end = find_line(&to_client).unwrap();
        to_server = client_auth.on_line(&to_client[..end]).unwrap();
    }
    let end = find_line(&to_server).unwrap();
    assert_eq!(server_auth.on_line(&to_server[..end], guid, 1000), Ok(vec![]));
    let mut client = Peer::new(client_auth.finish().unwrap());
    let mut server = Peer::new(server_auth.finish(guid).unwrap());

    // Two calls, answered in the opposite order.
    let mut call1 = client
        .conn
        .call_method(None, "/", Some("org.zbus.p2p"), "Test1", "", &[], vec![])
        .unwrap();
    let mut call2 = client
        .conn
        .call_method(None, "/", Some("org.zbus.p2p"), "Test2", "h", &[0, 0, 0, 0], vec![11])
        .unwrap();
    let (bytes, fds) = client.flush();
    assert_eq!(fds, vec![11]);
    server.raw.received(&bytes, &fds).unwrap();
    let m1 = server.next().unwrap();
    let m2 = server.next().unwrap();
    assert!(server.next().is_none());
    assert_eq!(m1.header().fields().member.as_deref(), Some("Test1"));
    assert_eq!(m2.header().fields().member.as_deref(), Some("Test2"));
    assert_eq!(m2.fds(), &[11][..]);
    server.conn.reply(&m2, "s", &encode("nay", 0, Endian::Little), vec![]).unwrap();
    server.conn.reply(&m1, "s", &encode("yay", 0, Endian::Little), vec![]).unwrap();
    let (bytes, fds) = server.flush();
    assert!(fds.is_empty());

    // The replies arrive byte by byte. The first call reads until it is
    // answered.
    let mut val = None;
    for byte in bytes {
        client.raw.received(&[byte], &[]).unwrap();
        while val.is_none() {
            match client.next() {
                Some(m) => {
                    if let CallStep::Reply(reply) = call1.deliver(&mut client.conn, m) {
                        val = Some(reply.body_as_str().unwrap().to_string());
                    }
                }
                None => break,
            }
        }
    }
    assert_eq!(val.unwrap(), "yay");
    assert_eq!(client.conn.queued(), 1);
    let queued = client.next().unwrap();
    match call2.deliver(&mut client.conn, queued) {
        CallStep::Reply(reply) => {
            assert_eq!(reply.body_as_str(), Ok("nay"));
            assert_eq!(reply.header().reply_serial(), Some(call2.serial()));
        }
        other => panic!("{:?}", other),
    }
}
