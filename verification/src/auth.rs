//! The authentication dialogue that precedes the messages on a socket:
//! lines of text that end in CR LF, by which the client names its user and
//! both sides settle whether file descriptors may travel.

use vstd::prelude::*;
use vstd::string::*;
use vstd::slice::slice_subrange;
use crate::connection::Authenticated;
use crate::error::Error;
use crate::text::{
    all_ascii, ascii_text, ascii_to_string, bytes_eq, decimal_digits, has_prefix, push_bytes,
    push_decimal, starts_with, word,
};

verus! {

/// A line as it travels: the text, CR, LF.
pub open spec fn line_of(text: Seq<u8>) -> Seq<u8> {
    text + seq![0x0du8, 0x0au8]
}

/// The lower-case hexadecimal digit of `n`, for `n` below 16.
pub open spec fn hex_digit(n: int) -> u8 {
    if n < 10 {
        (0x30 + n) as u8
    } else {
        (0x61 + n - 10) as u8
    }
}

/// `bytes` in hexadecimal, two lower-case digits for each byte.
pub open spec fn hex_encoding(bytes: Seq<u8>) -> Seq<u8>
    decreases bytes.len(),
{
    if bytes.len() == 0 {
        Seq::<u8>::empty()
    } else {
        hex_encoding(bytes.drop_last()).push(hex_digit(bytes.last() as int / 16)).push(
            hex_digit(bytes.last() as int % 16),
        )
    }
}

/// How a user's number is written in the dialogue: its decimal digits, in
/// hexadecimal.
pub open spec fn hex_uid(uid: u32) -> Seq<u8> {
    hex_encoding(decimal_digits(uid as nat))
}

/// Whether `c` is a hexadecimal digit, of either case.
pub open spec fn is_hex_digit(c: u8) -> bool {
    (0x30 <= c <= 0x39) || (0x61 <= c <= 0x66) || (0x41 <= c <= 0x46)
}

/// Whether `bytes` are an identifier of a server: 32 hexadecimal digits.
pub open spec fn is_guid(bytes: Seq<u8>) -> bool {
    bytes.len() == 32 && forall|i: int| 0 <= i < bytes.len() ==> is_hex_digit(#[trigger] bytes[i])
}

/// Position of the first CR LF in `buf`, if there is one: the line before
/// it is complete.
pub open spec fn line_end(buf: Seq<u8>) -> Option<int> {
    if exists|p: int| is_line_end(buf, p) {
        Some(choose|p: int| is_line_end(buf, p))
    } else {
        None
    }
}

/// Whether the first CR LF of `buf` stands at `p`.
pub open spec fn is_line_end(buf: Seq<u8>, p: int) -> bool {
    &&& 0 <= p && p + 1 < buf.len()
    &&& buf[p] == 0x0d && buf[p + 1] == 0x0a
    &&& forall|q: int| 0 <= q < p ==> !(#[trigger] buf[q] == 0x0d && buf[q + 1] == 0x0a)
}

/// Finds the first complete line in what has been read so far: the
/// position of its CR LF. The line is what stands before, the next line
/// starts two bytes on.
pub fn find_line(buf: &[u8]) -> (r: Option<usize>)
    ensures
        match r {
            Some(p) => is_line_end(buf@, p as int),
            None => forall|p: int| !is_line_end(buf@, p),
        },
        r matches Some(p) ==> line_end(buf@) == Some(p as int),
        r is None ==> line_end(buf@) is None,
{
    let mut p: usize = 0;
    while p < buf.len() && p + 1 < buf.len()
        invariant
            forall|q: int| 0 <= q < p ==> !(#[trigger] buf@[q] == 0x0d && buf@[q + 1] == 0x0a),
        decreases buf.len() - p,
    {
        if buf[p] == 0x0d && buf[p + 1] == 0x0a {
            assert(is_line_end(buf@, p as int));
            assert forall|other: int| is_line_end(buf@, other) implies other == p by {
                if other < p {
                    assert(!(buf@[other] == 0x0d && buf@[other + 1] == 0x0a));
                } else if other > p {
                    assert(!(buf@[p as int] == 0x0d && buf@[p + 1] == 0x0a));
                }
            }
            return Some(p);
        }
        p = p + 1;
    }
    assert forall|q: int| !is_line_end(buf@, q) by {
        if 0 <= q && q + 1 < buf@.len() {
            assert(!(buf@[q] == 0x0d && buf@[q + 1] == 0x0a));
        }
    }
    None
}

/// Whether `bytes` are an identifier of a server.
fn check_guid(bytes: &[u8]) -> (yes: bool)
    ensures
        yes == is_guid(bytes@),
{
    if bytes.len() != 32 {
        return false;
    }
    let mut i: usize = 0;
    while i < bytes.len()
        invariant
            i <= bytes.len(),
            forall|j: int| 0 <= j < i ==> is_hex_digit(#[trigger] bytes@[j]),
        decreases bytes.len() - i,
    {
        let c: u8 = bytes[i];
        if !((0x30 <= c && c <= 0x39) || (0x61 <= c && c <= 0x66) || (0x41 <= c && c <= 0x46)) {
            return false;
        }
        i = i + 1;
    }
    true
}

/// The line with the given command word.
fn command(text: &str) -> (line: Vec<u8>)
    ensures
        line@ == line_of(word(text@)),
{
    let mut line: Vec<u8> = Vec::new();
    push_bytes(&mut line, text.as_bytes());
    line.push(0x0d);
    line.push(0x0a);
    assert(line@ =~= line_of(word(text@)));
    line
}

/// The lower-case hexadecimal digit of `n`.
fn hex_digit_of(n: u8) -> (c: u8)
    requires
        n < 16,
    ensures
        c == hex_digit(n as int),
{
    if n < 10 {
        0x30 + n
    } else {
        0x61 + (n - 10)
    }
}

/// Appends `bytes` in hexadecimal.
fn push_hex(out: &mut Vec<u8>, bytes: &[u8])
    ensures
        final(out)@ == old(out)@ + hex_encoding(bytes@),
{
    let mut i: usize = 0;
    assert(bytes@.take(0) =~= Seq::<u8>::empty());
    assert(out@ =~= old(out)@ + hex_encoding(bytes@.take(0)));
    while i < bytes.len()
        invariant
            i <= bytes.len(),
            out@ == old(out)@ + hex_encoding(bytes@.take(i as int)),
        decreases bytes.len() - i,
    {
        let ghost next = bytes@.take(i + 1);
        assert(next.drop_last() =~= bytes@.take(i as int));
        assert(next.last() == bytes@[i as int]);
        out.push(hex_digit_of(bytes[i] / 16));
        out.push(hex_digit_of(bytes[i] % 16));
        i = i + 1;
        assert(out@ =~= old(out)@ + hex_encoding(next));
    }
    assert(bytes@.take(i as int) =~= bytes@);
}

/// What the client sends first: a NUL, then the line that names its user.
pub open spec fn client_opening(uid: u32) -> Seq<u8> {
    seq![0u8] + line_of(word("AUTH EXTERNAL "@) + hex_uid(uid))
}

/// Where the client stands in the dialogue.
#[derive(Debug, Clone, Copy, PartialEq, Eq, Structural)]
pub enum ClientState {
    /// Nothing sent yet.
    Start,
    /// The user was named; the server's verdict is due.
    WaitingOk,
    /// File descriptors were asked for; the server's answer is due.
    NegotiatingFds,
    /// The dialogue is over; messages follow.
    Ready,
}

/// The client's side of the dialogue.
#[derive(Debug)]
pub struct ClientAuth {
    state: ClientState,
    server_guid: String,
    cap_unix_fd: bool,
}

/// The client's side as plain values.
pub struct ClientAuthView {
    /// Where the client stands.
    pub state: ClientState,
    /// The identifier of the server, once the server gave it.
    pub server_guid: Seq<char>,
    /// Whether the server agreed to take file descriptors.
    pub cap_unix_fd: bool,
}

impl View for ClientAuth {
    type V = ClientAuthView;

    closed spec fn view(&self) -> ClientAuthView {
        ClientAuthView {
            state: self.state,
            server_guid: self.server_guid@,
            cap_unix_fd: self.cap_unix_fd,
        }
    }
}

/// What a line from the server means to the client: where it stands
/// afterwards and what it sends, or nothing where the line was not due.
/// `OK` and an identifier make the client ask for file descriptors;
/// agreement or an error to that make it begin.
pub open spec fn client_next(v: ClientAuthView, line: Seq<u8>) -> Option<(ClientAuthView, Seq<u8>)> {
    match v.state {
        ClientState::WaitingOk => if has_prefix(line, word("OK "@)) && is_guid(
            line.skip(word("OK "@).len() as int),
        ) {
            Some(
                (
                    ClientAuthView {
                        state: ClientState::NegotiatingFds,
                        server_guid: ascii_text(line.skip(word("OK "@).len() as int)),
                        cap_unix_fd: false,
                    },
                    line_of(word("NEGOTIATE_UNIX_FD"@)),
                ),
            )
        } else {
            None
        },
        ClientState::NegotiatingFds => if line == word("AGREE_UNIX_FD"@) {
            Some(
                (
                    ClientAuthView { state: ClientState::Ready, cap_unix_fd: true, ..v },
                    line_of(word("BEGIN"@)),
                ),
            )
        } else if has_prefix(line, word("ERROR"@)) {
            Some(
                (
                    ClientAuthView { state: ClientState::Ready, cap_unix_fd: false, ..v },
                    line_of(word("BEGIN"@)),
                ),
            )
        } else {
            None
        },
        _ => None,
    }
}

impl ClientAuth {
    /// A dialogue that has not begun.
    pub fn new() -> (auth: Self)
        ensures
            auth@ == (ClientAuthView {
                state: ClientState::Start,
                server_guid: Seq::empty(),
                cap_unix_fd: false,
            }),
    {
        ClientAuth { state: ClientState::Start, server_guid: String::new(), cap_unix_fd: false }
    }

    /// Where the client stands.
    pub fn state(&self) -> (s: ClientState)
        ensures
            s == self@.state,
    {
        self.state
    }

    /// Begins the dialogue for the user `uid`: hands back what to send,
    /// and waits for the server's verdict.
    pub fn begin(&mut self, uid: u32) -> (send: Vec<u8>)
        ensures
            send@ == client_opening(uid),
            final(self)@ == (ClientAuthView { state: ClientState::WaitingOk, ..old(self)@ }),
    {
        let mut digits: Vec<u8> = Vec::new();
        push_decimal(&mut digits, uid as usize);
        let mut send: Vec<u8> = Vec::new();
        send.push(0u8);
        push_bytes(&mut send, "AUTH EXTERNAL ".as_bytes());
        push_hex(&mut send, digits.as_slice());
        send.push(0x0d);
        send.push(0x0a);
        assert(digits@ =~= decimal_digits(uid as nat));
        assert(send@ =~= client_opening(uid));
        self.state = ClientState::WaitingOk;
        send
    }

    /// Takes a line from the server, without its CR LF, and hands back
    /// what to send in answer. A line that was not due ends the dialogue
    /// in failure, and the state stays as it was.
    #[verifier::rlimit(30)]
    pub fn on_line(&mut self, line: &[u8]) -> (r: Result<Vec<u8>, Error>)
        ensures
            match client_next(old(self)@, line@) {
                Some((next, send)) => r matches Ok(bytes) && bytes@ == send && final(self)@
                    == next,
                None => r matches Err(Error::Handshake(_)) && final(self)@ == old(self)@,
            },
    {
        match self.state {
            ClientState::WaitingOk => {
                let ok = "OK ".as_bytes();
                if starts_with(line, ok) {
                    let guid = slice_subrange(line, ok.len(), line.len());
                    assert(guid@ =~= line@.skip(word("OK "@).len() as int));
                    if check_guid(guid) {
                        assert(all_ascii(guid@)) by {
                            assert forall|i: int| 0 <= i < guid@.len() implies #[trigger] guid@[i]
                                < 0x80 by {
                                assert(is_hex_digit(guid@[i]));
                            }
                        }
                        self.server_guid = ascii_to_string(guid);
                        self.state = ClientState::NegotiatingFds;
                        self.cap_unix_fd = false;
                        return Ok(command("NEGOTIATE_UNIX_FD"));
                    }
                }
                Err(Error::Handshake(String::from_str("Unexpected reply to AUTH")))
            },
            ClientState::NegotiatingFds => {
                if bytes_eq(line, "AGREE_UNIX_FD".as_bytes()) {
                    self.cap_unix_fd = true;
                    self.state = ClientState::Ready;
                    Ok(command("BEGIN"))
                } else if starts_with(line, "ERROR".as_bytes()) {
                    self.cap_unix_fd = false;
                    self.state = ClientState::Ready;
                    Ok(command("BEGIN"))
                } else {
                    Err(Error::Handshake(String::from_str("Unexpected reply to NEGOTIATE_UNIX_FD")))
                }
            },
            _ => Err(Error::Handshake(String::from_str("No line is due"))),
        }
    }

    /// What the dialogue leaves behind, once it is over.
    pub fn finish(self) -> (r: Option<Authenticated>)
        ensures
            r is Some <==> self@.state == ClientState::Ready,
            r matches Some(auth) ==> auth.server_guid@ == self@.server_guid && auth.cap_unix_fd
                == self@.cap_unix_fd,
    {
        match self.state {
            ClientState::Ready => Some(
                Authenticated { server_guid: self.server_guid, cap_unix_fd: self.cap_unix_fd },
            ),
            _ => None,
        }
    }
}

/// Where the server stands in the dialogue.
#[derive(Debug, Clone, Copy, PartialEq, Eq, Structural)]
pub enum ServerState {
    /// The client's first byte, a NUL, is due.
    WaitingNul,
    /// The line that names the user is due.
    WaitingAuth,
    /// The user was accepted; the client may ask for file descriptors or
    /// begin.
    WaitingFdNegotiation,
    /// File descriptors were agreed; the client must begin.
    WaitingBegin,
    /// The dialogue is over; messages follow.
    Ready,
}

/// The server's side of the dialogue.
#[derive(Debug)]
pub struct ServerAuth {
    state: ServerState,
    cap_unix_fd: bool,
}

/// The server's side as plain values.
pub struct ServerAuthView {
    /// Where the server stands.
    pub state: ServerState,
    /// Whether file descriptors were agreed.
    pub cap_unix_fd: bool,
}

impl View for ServerAuth {
    type V = ServerAuthView;

    closed spec fn view(&self) -> ServerAuthView {
        ServerAuthView { state: self.state, cap_unix_fd: self.cap_unix_fd }
    }
}

/// What a line from the client means to the server: where it stands
/// afterwards and what it sends, or nothing where the line was not due.
/// `peer_uid` is the user that the operating system names as the owner of
/// the other end of the socket: the client is accepted where it names that
/// user, and rejected, to try again, where it names another.
pub open spec fn server_next(v: ServerAuthView, line: Seq<u8>, guid: Seq<char>, peer_uid: u32)
    -> Option<(ServerAuthView, Seq<u8>)> {
    match v.state {
        ServerState::WaitingAuth => if line == word("AUTH EXTERNAL "@) + hex_uid(peer_uid) {
            Some(
                (
                    ServerAuthView { state: ServerState::WaitingFdNegotiation, ..v },
                    line_of(word("OK "@) + word(guid)),
                ),
            )
        } else if has_prefix(line, word("AUTH"@)) {
            Some((v, line_of(word("REJECTED EXTERNAL"@))))
        } else {
            None
        },
        ServerState::WaitingFdNegotiation => if line == word("NEGOTIATE_UNIX_FD"@) {
            Some(
                (
                    ServerAuthView { state: ServerState::WaitingBegin, cap_unix_fd: true },
                    line_of(word("AGREE_UNIX_FD"@)),
                ),
            )
        } else if line == word("BEGIN"@) {
            Some((ServerAuthView { state: ServerState::Ready, ..v }, Seq::<u8>::empty()))
        } else {
            None
        },
        ServerState::WaitingBegin => if line == word("BEGIN"@) {
            Some((ServerAuthView { state: ServerState::Ready, ..v }, Seq::<u8>::empty()))
        } else {
            None
        },
        _ => None,
    }
}

impl ServerAuth {
    /// A dialogue that has not begun.
    pub fn new() -> (auth: Self)
        ensures
            auth@ == (ServerAuthView { state: ServerState::WaitingNul, cap_unix_fd: false }),
    {
        ServerAuth { state: ServerState::WaitingNul, cap_unix_fd: false }
    }

    /// Where the server stands.
    pub fn state(&self) -> (s: ServerState)
        ensures
            s == self@.state,
    {
        self.state
    }

    /// Takes the client's first byte, which must be a NUL.
    pub fn on_first_byte(&mut self, byte: u8) -> (r: Result<(), Error>)
        ensures
            if old(self)@.state == ServerState::WaitingNul && byte == 0 {
                r is Ok && final(self)@ == (ServerAuthView {
                    state: ServerState::WaitingAuth,
                    ..old(self)@
                })
            } else {
                r matches Err(Error::Handshake(_)) && final(self)@ == old(self)@
            },
    {
        match self.state {
            ServerState::WaitingNul => {
                if byte == 0 {
                    self.state = ServerState::WaitingAuth;
                    Ok(())
                } else {
                    Err(Error::Handshake(String::from_str("The first byte is not NUL")))
                }
            },
            _ => Err(Error::Handshake(String::from_str("No first byte is due"))),
        }
    }

    /// Takes a line from the client, without its CR LF, and hands back
    /// what to send in answer. A line that was not due ends the dialogue
    /// in failure, and the state stays as it was.
    pub fn on_line(&mut self, line: &[u8], guid: &str, peer_uid: u32) -> (r: Result<Vec<u8>, Error>)
        ensures
            match server_next(old(self)@, line@, guid@, peer_uid) {
                Some((next, send)) => r matches Ok(bytes) && bytes@ == send && final(self)@
                    == next,
                None => r matches Err(Error::Handshake(_)) && final(self)@ == old(self)@,
            },
    {
        match self.state {
            ServerState::WaitingAuth => {
                let mut digits: Vec<u8> = Vec::new();
                push_decimal(&mut digits, peer_uid as usize);
                let mut expected: Vec<u8> = Vec::new();
                push_bytes(&mut expected, "AUTH EXTERNAL ".as_bytes());
                push_hex(&mut expected, digits.as_slice());
                assert(digits@ =~= decimal_digits(peer_uid as nat));
                assert(expected@ =~= word("AUTH EXTERNAL "@) + hex_uid(peer_uid));
                if bytes_eq(line, expected.as_slice()) {
                    self.state = ServerState::WaitingFdNegotiation;
                    let mut send: Vec<u8> = Vec::new();
                    push_bytes(&mut send, "OK ".as_bytes());
                    push_bytes(&mut send, guid.as_bytes());
                    send.push(0x0d);
                    send.push(0x0a);
                    assert(send@ =~= line_of(word("OK "@) + word(guid@)));
                    Ok(send)
                } else if starts_with(line, "AUTH".as_bytes()) {
                    Ok(command("REJECTED EXTERNAL"))
                } else {
                    Err(Error::Handshake(String::from_str("Unexpected line in place of AUTH")))
                }
            },
            ServerState::WaitingFdNegotiation => {
                if bytes_eq(line, "NEGOTIATE_UNIX_FD".as_bytes()) {
                    self.state = ServerState::WaitingBegin;
                    self.cap_unix_fd = true;
                    Ok(command("AGREE_UNIX_FD"))
                } else if bytes_eq(line, "BEGIN".as_bytes()) {
                    self.state = ServerState::Ready;
                    Ok(Vec::new())
                } else {
                    Err(Error::Handshake(String::from_str("Unexpected line after OK")))
                }
            },
            ServerState::WaitingBegin => {
                if bytes_eq(line, "BEGIN".as_bytes()) {
                    self.state = ServerState::Ready;
                    Ok(Vec::new())
                } else {
                    Err(Error::Handshake(String::from_str("Unexpected line in place of BEGIN")))
                }
            },
            _ => Err(Error::Handshake(String::from_str("No line is due"))),
        }
    }

    /// What the dialogue leaves behind, once it is over.
    pub fn finish(self, guid: &str) -> (r: Option<Authenticated>)
        ensures
            r is Some <==> self@.state == ServerState::Ready,
            r matches Some(auth) ==> auth.server_guid@ == guid@ && auth.cap_unix_fd
                == self@.cap_unix_fd,
    {
        match self.state {
            ServerState::Ready => Some(
                Authenticated {
                    server_guid: String::from_str(guid),
                    cap_unix_fd: self.cap_unix_fd,
                },
            ),
            _ => None,
        }
    }
}

/// A client and a server that follow the dialogue come to an end
/// together: the server accepts the client that names the user at the
/// other end of the socket, the client takes the server's identifier,
/// both agree on file descriptors, and each line that one side sends is
/// the line that the other side waits for.
pub proof fn lemma_dialogue_agrees(uid: u32, guid: Seq<char>)
    requires
        is_guid(word(guid)),
    ensures
        ({
            let server0 = ServerAuthView { state: ServerState::WaitingAuth, cap_unix_fd: false };
            let client0 = ClientAuthView {
                state: ClientState::WaitingOk,
                server_guid: Seq::empty(),
                cap_unix_fd: false,
            };
            let auth_line = word("AUTH EXTERNAL "@) + hex_uid(uid);
            let ok_line = word("OK "@) + word(guid);
            &&& client_opening(uid) == seq![0u8] + line_of(auth_line)
            &&& server_next(server0, auth_line, guid, uid) matches Some((server1, sent1))
            &&& sent1 == line_of(ok_line)
            &&& client_next(client0, ok_line) matches Some((client1, sent2))
            &&& sent2 == line_of(word("NEGOTIATE_UNIX_FD"@))
            &&& client1.server_guid == ascii_text(word(guid))
            &&& server_next(server1, word("NEGOTIATE_UNIX_FD"@), guid, uid) matches Some(
                (server2, sent3),
            )
            &&& sent3 == line_of(word("AGREE_UNIX_FD"@))
            &&& client_next(client1, word("AGREE_UNIX_FD"@)) matches Some((client2, sent4))
            &&& sent4 == line_of(word("BEGIN"@))
            &&& server_next(server2, word("BEGIN"@), guid, uid) matches Some((server3, sent5))
            &&& sent5.len() == 0
            &&& client2.state == ClientState::Ready
            &&& server3.state == ServerState::Ready
            &&& client2.cap_unix_fd && server3.cap_unix_fd
        }),
{
    let ok = word("OK "@);
    let ok_line = ok + word(guid);
    assert(ok_line.subrange(0, ok.len() as int) =~= ok);
    assert(ok_line.skip(ok.len() as int) =~= word(guid));
}

} // verus!
