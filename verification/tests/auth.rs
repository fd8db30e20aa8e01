use zbus::address::Address;
use zbus::auth::{find_line, ClientAuth, ClientState, ServerAuth, ServerState};
use zbus::connection::Connection;
use zbus::error::{Error, VariantError};
use zbus::signature::validate;
use zbus::string::Signature;

const GUID: &str = "0123456789abcdefABCDEF0123456789";

#[test]
fn client_dialogue() {
    let mut client = ClientAuth::new();
    assert_eq!(client.state(), ClientState::Start);
    assert_eq!(client.begin(1000), b"\0AUTH EXTERNAL 31303030\r\n".to_vec());
    assert_eq!(client.state(), ClientState::WaitingOk);
    let line = format!("OK {}", GUID);
    assert_eq!(
        client.on_line(line.as_bytes()),
        Ok(b"NEGOTIATE_UNIX_FD\r\n".to_vec())
    );
    assert_eq!(client.state(), ClientState::NegotiatingFds);
    assert_eq!(client.on_line(b"AGREE_UNIX_FD"), Ok(b"BEGIN\r\n".to_vec()));
    assert_eq!(client.state(), ClientState::Ready);
    let auth = client.finish().unwrap();
    assert_eq!(auth.server_guid, GUID);
    assert!(auth.cap_unix_fd);
    let conn = Connection::new_authenticated(auth);
    assert_eq!(conn.server_guid(), GUID);
    assert!(conn.cap_unix_fd());
}

#[test]
fn client_takes_an_error_as_no_to_fds() {
    let mut client = ClientAuth::new();
    client.begin(0);
    client.on_line(format!("OK {}", GUID).as_bytes()).unwrap();
    assert_eq!(client.on_line(b"ERROR not here"), Ok(b"BEGIN\r\n".to_vec()));
    let auth = client.finish().unwrap();
    assert!(!auth.cap_unix_fd);
    assert_eq!(auth.server_guid, GUID);
}

#[test]
fn uid_is_written_in_hex() {
    assert_eq!(ClientAuth::new().begin(0), b"\0AUTH EXTERNAL 30\r\n".to_vec());
    assert_eq!(
        ClientAuth::new().begin(u32::MAX),
        b"\0AUTH EXTERNAL 34323934393637323935\r\n".to_vec()
    );
    assert_eq!(ClientAuth::new().begin(75), b"\0AUTH EXTERNAL 3735\r\n".to_vec());
}

#[test]
fn client_fails_on_what_is_not_due() {
    let handshake = |r: Result<Vec<u8>, Error>| matches!(r, Err(Error::Handshake(_)));
    let mut client = ClientAuth::new();
    assert!(handshake(client.on_line(b"OK 0123456789abcdef0123456789abcdef")));
    assert_eq!(client.state(), ClientState::Start);
    assert!(client.finish().is_none());

    let mut client = ClientAuth::new();
    client.begin(1);
    assert!(handshake(client.on_line(b"REJECTED EXTERNAL")));
    assert!(handshake(client.on_line(b"OK")));
    assert!(handshake(client.on_line(b"OK 0123")));
    assert!(handshake(client.on_line(b"OK 0123456789abcdef0123456789abcdeg")));
    assert!(handshake(client.on_line(b"OK 0123456789abcdef0123456789abcdef0")));
    assert!(handshake(client.on_line(b"AGREE_UNIX_FD")));
    assert_eq!(client.state(), ClientState::WaitingOk);
    client.on_line(format!("OK {}", GUID).as_bytes()).unwrap();
    assert!(handshake(client.on_line(b"AGREE_UNIX_FD ")));
    assert!(handshake(client.on_line(b"BEGIN")));
    assert_eq!(client.state(), ClientState::NegotiatingFds);
    client.on_line(b"AGREE_UNIX_FD").unwrap();
    assert!(handshake(client.on_line(b"AGREE_UNIX_FD")));
    assert_eq!(client.state(), ClientState::Ready);
}

#[test]
fn server_dialogue() {
    let mut server = ServerAuth::new();
    assert_eq!(server.state(), ServerState::WaitingNul);
    assert_eq!(server.on_first_byte(0), Ok(()));
    assert_eq!(server.state(), ServerState::WaitingAuth);
    assert_eq!(
        server.on_line(b"AUTH EXTERNAL 31303030", GUID, 1000),
        Ok(format!("OK {}\r\n", GUID).into_bytes())
    );
    assert_eq!(server.state(), ServerState::WaitingFdNegotiation);
    assert_eq!(
        server.on_line(b"NEGOTIATE_UNIX_FD", GUID, 1000),
        Ok(b"AGREE_UNIX_FD\r\n".to_vec())
    );
    assert_eq!(server.state(), ServerState::WaitingBegin);
    assert_eq!(server.on_line(b"BEGIN", GUID, 1000), Ok(vec![]));
    assert_eq!(server.state(), ServerState::Ready);
    let auth = server.finish(GUID).unwrap();
    assert!(auth.cap_unix_fd);
    assert_eq!(auth.server_guid, GUID);
}

#[test]
fn server_without_fd_negotiation() {
    let mut server = ServerAuth::new();
    server.on_first_byte(0).unwrap();
    server.on_line(b"AUTH EXTERNAL 30", GUID, 0).unwrap();
    assert_eq!(server.on_line(b"BEGIN", GUID, 0), Ok(vec![]));
    let auth = server.finish(GUID).unwrap();
    assert!(!auth.cap_unix_fd);
}

#[test]
fn server_rejects_another_user() {
    let handshake = |r: Result<Vec<u8>, Error>| matches!(r, Err(Error::Handshake(_)));
    let mut server = ServerAuth::new();
    assert!(matches!(server.on_first_byte(1), Err(Error::Handshake(_))));
    assert!(handshake(server.on_line(b"AUTH EXTERNAL 30", GUID, 0)));
    assert_eq!(server.state(), ServerState::WaitingNul);
    server.on_first_byte(0).unwrap();
    assert!(matches!(server.on_first_byte(0), Err(Error::Handshake(_))));
    assert_eq!(
        server.on_line(b"AUTH EXTERNAL 31303031", GUID, 1000),
        Ok(b"REJECTED EXTERNAL\r\n".to_vec())
    );
    assert_eq!(
        server.on_line(b"AUTH ANONYMOUS", GUID, 1000),
        Ok(b"REJECTED EXTERNAL\r\n".to_vec())
    );
    assert_eq!(server.state(), ServerState::WaitingAuth);
    assert!(handshake(server.on_line(b"BEGIN", GUID, 1000)));
    assert!(server.on_line(b"AUTH EXTERNAL 31303030", GUID, 1000).is_ok());
    assert!(handshake(server.on_line(b"AUTH EXTERNAL 31303030", GUID, 1000)));
    server.on_line(b"NEGOTIATE_UNIX_FD", GUID, 1000).unwrap();
    assert!(handshake(server.on_line(b"NEGOTIATE_UNIX_FD", GUID, 1000)));
    assert!(matches!(ServerAuth::new().finish(GUID), None));
}

#[test]
fn client_and_server_agree() {
    let mut client = ClientAuth::new();
    let mut server = ServerAuth::new();
    let mut to_server = client.begin(4242);
    server.on_first_byte(to_server.remove(0)).unwrap();
    loop {
        let mut to_client = vec![];
        while let Some(end) = find_line(&to_server) {
            to_client.extend(server.on_line(&to_server[..end], GUID, 4242).unwrap());
            to_server.drain(..end + 2);
        }
        if to_client.is_empty() {
            break;
        }
        while let Some(end) = find_line(&to_client) {
            to_server.extend(client.on_line(&to_client[..end]).unwrap());
            to_client.drain(..end + 2);
        }
    }
    let client = client.finish().unwrap();
    let server = server.finish(GUID).unwrap();
    assert_eq!(client, server);
    assert!(client.cap_unix_fd);
}

#[test]
fn lines_end_in_cr_lf() {
    assert_eq!(find_line(b""), None);
    assert_eq!(find_line(b"\r"), None);
    assert_eq!(find_line(b"OK\r"), None);
    assert_eq!(find_line(b"OK\n\r"), None);
    assert_eq!(find_line(b"\r\n"), Some(0));
    assert_eq!(find_line(b"OK\r\nBEGIN\r\n"), Some(2));
    assert_eq!(find_line(b"a\rb\r\n"), Some(3));
}

#[test]
fn addresses() {
    assert_eq!(
        Address::parse("unix:path=/run/user/1000/bus"),
        Some(Address::UnixPath(b"/run/user/1000/bus".to_vec()))
    );
    assert_eq!(
        Address::parse("unix:abstract=/tmp/dbus-x"),
        Some(Address::UnixAbstract(b"/tmp/dbus-x".to_vec()))
    );
    assert_eq!(Address::parse("unix:runtime=yes"), Some(Address::UnixRuntime));
    assert_eq!(Address::parse("unix:path="), Some(Address::UnixPath(vec![])));
    assert_eq!(Address::parse("unix:runtime=no"), None);
    assert_eq!(Address::parse("unix:runtime=yes,guid=1"), None);
    assert_eq!(Address::parse("tcp:host=localhost,port=1"), None);
    assert_eq!(Address::parse("unix:"), None);
    assert_eq!(Address::parse(""), None);
}

#[test]
fn bus_addresses_from_the_environment() {
    assert_eq!(Address::session(None), None);
    assert_eq!(
        Address::session(Some("unix:path=/tmp/s")),
        Some(Address::UnixPath(b"/tmp/s".to_vec()))
    );
    assert_eq!(Address::session(Some("nonsense")), None);
    assert_eq!(
        Address::system(None),
        Some(Address::UnixPath(b"/var/run/dbus/system_bus_socket".to_vec()))
    );
    assert_eq!(
        Address::system(Some("unix:abstract=sys")),
        Some(Address::UnixAbstract(b"sys".to_vec()))
    );
    assert_eq!(Address::system(Some("nonsense")), None);
}

#[test]
fn socket_paths() {
    assert_eq!(
        Address::UnixPath(b"/a/b".to_vec()).socket_path(b"/run/user/1"),
        Some(b"/a/b".to_vec())
    );
    assert_eq!(
        Address::UnixRuntime.socket_path(b"/run/user/1"),
        Some(b"/run/user/1/bus".to_vec())
    );
    assert_eq!(Address::UnixAbstract(b"x".to_vec()).socket_path(b"/run"), None);
}

#[test]
fn signatures_follow_the_grammar() {
    let valid = [
        "", "y", "b", "n", "q", "i", "u", "x", "t", "d", "h", "s", "o", "g", "v", "ii", "ai",
        "aai", "a{sv}", "a{s(ii)}", "(i)", "(ii)", "(i(ii))", "((i)i)", "a(ii)", "aa{sv}",
        "a{sa{sv}}", "yyyyuua(yv)", "(iiav)", "a{us}", "a{(i)s}", "sa{sv}as", "(a{sv})",
        "a{ia{ia{ii}}}",
    ];
    for text in valid {
        assert_eq!(Signature::new(text).map(|s| s.as_str().to_string()), Ok(text.to_string()));
        assert!(validate(text.as_bytes()), "{}", text);
        // A frame that holds the text is read as that signature.
        let mut frame = vec![text.len() as u8];
        frame.extend_from_slice(text.as_bytes());
        frame.push(0);
        assert_eq!(Signature::decode(&frame, "g"), Signature::new(text));
    }
    let invalid = [
        "a", "aa", "(", ")", "()", "(i", "i)", "{", "}", "{sv}", "a{", "a{}", "a{s}", "a{sv",
        "a{svv}", "a{sv)", "(a)", "(i}", "a{s(}", "z", "i z", "é", "(ii)(", "a{sv}}", "ia",
        "a()", "((i)", "i{sv}", "a{{sv}s}",
    ];
    for text in invalid {
        assert_eq!(Signature::new(text), Err(VariantError::InvalidSignature), "{}", text);
        assert!(!validate(text.as_bytes()), "{}", text);
        let mut frame = vec![text.len() as u8];
        frame.extend_from_slice(text.as_bytes());
        frame.push(0);
        assert_eq!(Signature::decode(&frame, "g"), Err(VariantError::InvalidSignature));
    }
    let deep = "a".repeat(100_000) + "i";
    assert!(Signature::new(&deep).is_ok());
    let deep = "(".repeat(100_000);
    assert!(Signature::new(&deep).is_err());
    let deep = "(".repeat(50_000) + "i" + &")".repeat(50_000);
    assert!(Signature::new(&deep).is_ok());
}
