//! The decisions of a connection: serial numbers, what may be sent, which
//! message answers which call, and what waits in the queue. The socket is
//! the caller's: it hands in what it read and carries out what is queued
//! here.

use vstd::prelude::*;
use vstd::string::*;
use vstd::utf8::encode_utf8;
use crate::error::{Error, IoErrorKind, VariantError};
use crate::message::{
    body_text, build_error, error_view, method_view, reply_view, signal_view, str_of, text_of,
    Message,
    MessageType, MessageView, PrimaryHeader,
};

verus! {

/// How many received messages wait in the queue unless told otherwise.
pub const DEFAULT_MAX_QUEUED: usize = 64;

/// What happens to a received message that no one waits for when the
/// queue is full.
#[derive(Debug, Clone, Copy, PartialEq, Eq, Structural)]
pub enum OverflowPolicy {
    /// The message is dropped. This is what a connection does unless told
    /// otherwise.
    DropNewest,
    /// The oldest message that waits is dropped to make room.
    DropOldest,
}

/// What the authentication dialogue leaves behind.
#[derive(Debug, Clone, PartialEq, Eq)]
pub struct Authenticated {
    /// The identifier of the server.
    pub server_guid: String,
    /// Whether the peer agreed to take file descriptors.
    pub cap_unix_fd: bool,
}

/// The serial number that follows `s`: one more, and one after the
/// largest. Zero is no serial number.
pub open spec fn serial_after(s: u32) -> u32 {
    if s == u32::MAX {
        1
    } else {
        (s + 1) as u32
    }
}

/// The serial number handed out `n` calls after `start` was.
pub open spec fn nth_serial(start: u32, n: nat) -> u32 {
    ((start - 1 + n) % 0xFFFF_FFFF + 1) as u32
}

/// What each message of a queue holds.
pub open spec fn message_views(q: Seq<Message>) -> Seq<MessageView> {
    Seq::new(q.len(), |i: int| q[i]@)
}

/// A connection as plain values.
pub struct ConnectionView {
    /// The identifier of the server.
    pub server_guid: Seq<char>,
    /// Whether the peer agreed to take file descriptors.
    pub cap_unix_fd: bool,
    /// The name that the bus gave, once it gave one.
    pub unique_name: Option<Seq<char>>,
    /// The serial number that the next message gets; never zero.
    pub next_serial: u32,
    /// The received messages that wait for the consumer, oldest first.
    pub in_queue: Seq<MessageView>,
    /// How many received messages may wait.
    pub max_queued: nat,
    /// What happens to a received message when the queue is full.
    pub overflow: OverflowPolicy,
    /// The messages that wait for the socket, oldest first.
    pub outbound: Seq<MessageView>,
}

/// The state of a connection once the authentication dialogue is over.
#[derive(Debug)]
pub struct Connection {
    server_guid: String,
    cap_unix_fd: bool,
    unique_name: Option<String>,
    last_serial: u32,
    in_queue: Vec<Message>,
    max_queued: usize,
    overflow: OverflowPolicy,
    outbound: Vec<Message>,
}

impl View for Connection {
    type V = ConnectionView;

    closed spec fn view(&self) -> ConnectionView {
        ConnectionView {
            server_guid: self.server_guid@,
            cap_unix_fd: self.cap_unix_fd,
            unique_name: text_of(self.unique_name),
            next_serial: serial_after(self.last_serial),
            in_queue: message_views(self.in_queue@),
            max_queued: self.max_queued as nat,
            overflow: self.overflow,
            outbound: message_views(self.outbound@),
        }
    }
}

/// `m` with the serial number `serial`.
pub open spec fn with_serial(m: MessageView, serial: u32) -> MessageView {
    MessageView { primary: PrimaryHeader { serial_num: serial, ..m.primary }, ..m }
}

/// Whether a message may be sent: it carries no file descriptors, or the
/// peer agreed to take them.
pub open spec fn may_send(c: ConnectionView, m: MessageView) -> bool {
    m.fds.len() == 0 || c.cap_unix_fd
}

impl Connection {
    /// The next serial number of a connection never is zero.
    pub proof fn lemma_next_serial(self)
        ensures
            self@.next_serial != 0,
    {
    }

    /// The connection that an authentication dialogue leaves behind: no
    /// unique name yet, the first serial number is 1, nothing queued.
    pub fn new_authenticated(auth: Authenticated) -> (c: Self)
        ensures
            c@ == (ConnectionView {
                server_guid: auth.server_guid@,
                cap_unix_fd: auth.cap_unix_fd,
                unique_name: None,
                next_serial: 1,
                in_queue: Seq::empty(),
                max_queued: DEFAULT_MAX_QUEUED as nat,
                overflow: OverflowPolicy::DropNewest,
                outbound: Seq::empty(),
            }),
    {
        let c = Connection {
            server_guid: auth.server_guid,
            cap_unix_fd: auth.cap_unix_fd,
            unique_name: None,
            last_serial: 0,
            in_queue: Vec::new(),
            max_queued: DEFAULT_MAX_QUEUED,
            overflow: OverflowPolicy::DropNewest,
            outbound: Vec::new(),
        };
        assert(c@.in_queue =~= Seq::empty());
        assert(c@.outbound =~= Seq::empty());
        c
    }

    /// The identifier of the server.
    pub fn server_guid(&self) -> (guid: &str)
        ensures
            guid@ == self@.server_guid,
    {
        self.server_guid.as_str()
    }

    /// The name that the bus gave this connection, if it gave one.
    pub fn unique_name(&self) -> (name: Option<&str>)
        ensures
            str_of(name) == self@.unique_name,
    {
        match &self.unique_name {
            Some(name) => Some(name.as_str()),
            None => None,
        }
    }

    /// Whether the peer agreed to take file descriptors.
    pub fn cap_unix_fd(&self) -> (cap: bool)
        ensures
            cap == self@.cap_unix_fd,
    {
        self.cap_unix_fd
    }

    /// How many received messages may wait in the queue.
    pub fn max_queued(&self) -> (max: usize)
        ensures
            max == self@.max_queued,
    {
        self.max_queued
    }

    /// How many received messages wait in the queue.
    pub fn queued(&self) -> (n: usize)
        ensures
            n == self@.in_queue.len(),
    {
        self.in_queue.len()
    }

    /// Sets how many received messages may wait in the queue.
    pub fn set_max_queued(self, max: usize) -> (c: Self)
        ensures
            c@ == (ConnectionView { max_queued: max as nat, ..self@ }),
    {
        let mut c = self;
        c.max_queued = max;
        c
    }

    /// What happens to a received message that no one waits for when the
    /// queue is full.
    pub fn overflow_policy(&self) -> (policy: OverflowPolicy)
        ensures
            policy == self@.overflow,
    {
        self.overflow
    }

    /// Sets what happens to a received message that no one waits for when
    /// the queue is full.
    pub fn set_overflow_policy(self, policy: OverflowPolicy) -> (c: Self)
        ensures
            c@ == (ConnectionView { overflow: policy, ..self@ }),
    {
        let mut c = self;
        c.overflow = policy;
        c
    }

    /// Sets the unique name, once: a second name is refused.
    pub fn set_unique_name(self, name: String) -> (r: Result<Self, Error>)
        ensures
            match self@.unique_name {
                None => r matches Ok(c) && c@ == (ConnectionView {
                    unique_name: Some(name@),
                    ..self@
                }),
                Some(_) => r matches Err(e) && e == Error::NameTaken,
            },
    {
        if self.unique_name.is_some() {
            return Err(Error::NameTaken);
        }
        let mut c = self;
        c.unique_name = Some(name);
        Ok(c)
    }

    /// Hands out the next serial number.
    pub fn next_serial(&mut self) -> (serial: u32)
        ensures
            serial == old(self)@.next_serial,
            serial != 0,
            final(self)@ == (ConnectionView { next_serial: serial_after(serial), ..old(self)@ }),
            final(self)@.next_serial == serial_after_calls(old(self)@.next_serial, 1),
    {
        let serial: u32 = if self.last_serial == u32::MAX {
            1
        } else {
            self.last_serial + 1
        };
        self.last_serial = serial;
        proof {
            reveal_with_fuel(serial_after_calls, 2);
        }
        serial
    }

    /// Gives `msg` the next serial number of this connection.
    pub fn assign_serial_num(&mut self, msg: &mut Message) -> (serial: u32)
        ensures
            serial == old(self)@.next_serial,
            serial != 0,
            final(self)@ == (ConnectionView { next_serial: serial_after(serial), ..old(self)@ }),
            final(msg)@ == with_serial(old(msg)@, serial),
    {
        let serial: u32 = self.next_serial();
        msg.set_serial_num(serial);
        serial
    }

    /// Queues `msg` for the socket as it is, with the serial number that
    /// the caller gave it. A message with file descriptors is refused
    /// where the peer did not agree to take them, and nothing is queued.
    pub fn start_send(&mut self, msg: Message) -> (r: Result<(), Error>)
        ensures
            may_send(old(self)@, msg@) ==> r is Ok && final(self)@ == (ConnectionView {
                outbound: old(self)@.outbound.push(msg@),
                ..old(self)@
            }),
            !may_send(old(self)@, msg@) ==> (r matches Err(e) && e == Error::Unsupported)
                && final(self)@ == old(self)@,
    {
        if msg.fds().len() != 0 && !self.cap_unix_fd {
            return Err(Error::Unsupported);
        }
        self.outbound.push(msg);
        assert(message_views(self.outbound@) =~= message_views(old(self).outbound@).push(msg@));
        Ok(())
    }

    /// Gives `msg` the next serial number and queues it for the socket.
    /// The serial number is spent even where the message is refused.
    pub fn send_message(&mut self, msg: Message) -> (r: Result<u32, Error>)
        ensures
            old(self)@.next_serial != 0,
            final(self)@.next_serial == serial_after(old(self)@.next_serial),
            may_send(old(self)@, msg@) ==> r == Ok::<u32, Error>(old(self)@.next_serial) && final(self)@ == (ConnectionView {
                next_serial: serial_after(old(self)@.next_serial),
                outbound: old(self)@.outbound.push(with_serial(msg@, old(self)@.next_serial)),
                ..old(self)@
            }),
            !may_send(old(self)@, msg@) ==> (r matches Err(e) && e == Error::Unsupported)
                && final(self)@ == (ConnectionView {
                next_serial: serial_after(old(self)@.next_serial),
                ..old(self)@
            }),
    {
        let mut msg = msg;
        let serial: u32 = self.assign_serial_num(&mut msg);
        match self.start_send(msg) {
            Ok(()) => Ok(serial),
            Err(e) => Err(e),
        }
    }

    /// Takes the oldest message that waits for the socket.
    pub fn next_outgoing(&mut self) -> (r: Option<Message>)
        ensures
            match r {
                Some(m) => old(self)@.outbound.len() > 0 && m@ == old(self)@.outbound[0] && final(self)@ == (ConnectionView {
                    outbound: old(self)@.outbound.drop_first(),
                    ..old(self)@
                }),
                None => old(self)@.outbound.len() == 0 && final(self)@ == old(self)@,
            },
    {
        if self.outbound.len() == 0 {
            return None;
        }
        let m: Message = self.outbound.remove(0);
        assert(message_views(self.outbound@) =~= message_views(old(self).outbound@).drop_first());
        Some(m)
    }

    /// Takes the oldest received message that waits in the queue.
    pub fn next_queued(&mut self) -> (r: Option<Message>)
        ensures
            match r {
                Some(m) => old(self)@.in_queue.len() > 0 && m@ == old(self)@.in_queue[0] && final(self)@ == (ConnectionView {
                    in_queue: old(self)@.in_queue.drop_first(),
                    ..old(self)@
                }),
                None => old(self)@.in_queue.len() == 0 && final(self)@ == old(self)@,
            },
    {
        if self.in_queue.len() == 0 {
            return None;
        }
        let m: Message = self.in_queue.remove(0);
        assert(message_views(self.in_queue@) =~= message_views(old(self).in_queue@).drop_first());
        Some(m)
    }
}

/// The serial number that the `n`-th of successive calls of `next_serial`
/// hands out, counted from zero, where the first of them hands out
/// `start`: each call hands out what follows the number before.
pub open spec fn serial_after_calls(start: u32, n: nat) -> u32
    decreases n,
{
    if n == 0 {
        start
    } else {
        serial_after(serial_after_calls(start, (n - 1) as nat))
    }
}

/// Calls that follow other calls go on where those stopped.
pub proof fn lemma_calls_compose(start: u32, a: nat, b: nat)
    ensures
        serial_after_calls(serial_after_calls(start, a), b) == serial_after_calls(start, a + b),
    decreases b,
{
    if b > 0 {
        lemma_calls_compose(start, a, (b - 1) as nat);
    }
}

/// The `n`-th of successive calls hands out the `n`-th serial number.
pub proof fn lemma_calls_nth(start: u32, n: nat)
    requires
        start != 0,
    ensures
        serial_after_calls(start, n) == nth_serial(start, n),
    decreases n,
{
    if n == 0 {
        lemma_serials(start, 0, 1);
    } else {
        lemma_calls_nth(start, (n - 1) as nat);
        lemma_serials(start, (n - 1) as nat, n);
    }
}

/// Of the serial numbers that successive calls on one connection hand
/// out, none is zero, a later one is larger than an earlier one as long as
/// the largest number is not passed in between, and no two of fewer than
/// 2^32 - 1 successive calls are the same.
pub proof fn lemma_successive_serials(start: u32, i: nat, j: nat)
    requires
        start != 0,
        i < j,
    ensures
        serial_after_calls(start, i) != 0,
        serial_after_calls(start, j) != 0,
        start + j <= u32::MAX ==> serial_after_calls(start, i) < serial_after_calls(start, j),
        j - i < 0xFFFF_FFFF ==> serial_after_calls(start, i) != serial_after_calls(start, j),
{
    lemma_calls_nth(start, i);
    lemma_calls_nth(start, j);
    lemma_serials(start, i, j);
    lemma_serials(start, j, j + 1);
}

/// Serial numbers never are zero, each is one more than the one before
/// until the largest is reached, and the one after the largest is 1.
pub proof fn lemma_serial_after(s: u32)
    requires
        s != 0,
    ensures
        serial_after(s) != 0,
        serial_after(s) == nth_serial(s, 1),
        s < u32::MAX ==> serial_after(s) > s,
        s == u32::MAX ==> serial_after(s) == 1,
{
}

/// The serial numbers of successive calls: none is zero, each follows the
/// one before, they grow as long as they do not pass the largest, and no
/// two of fewer than 2^32 - 1 successive calls are the same.
#[verifier::rlimit(30)]
pub proof fn lemma_serials(start: u32, i: nat, j: nat)
    requires
        start != 0,
        i < j,
    ensures
        nth_serial(start, 0) == start,
        nth_serial(start, i) != 0,
        nth_serial(start, i + 1) == serial_after(nth_serial(start, i)),
        start + j <= u32::MAX ==> nth_serial(start, i) < nth_serial(start, j),
        j - i < 0xFFFF_FFFF ==> nth_serial(start, i) != nth_serial(start, j),
{
    let m = 0xFFFF_FFFFint;
    let a = start - 1 + i;
    let b = start - 1 + j;
    assert(0 <= a % m < m && 0 <= b % m < m);
    assert((a + 1) % m == (if a % m == m - 1 {
        0
    } else {
        a % m + 1
    })) by {
        vstd::arithmetic::div_mod::lemma_fundamental_div_mod(a, m);
        vstd::arithmetic::div_mod::lemma_fundamental_div_mod(a + 1, m);
        let q = a / m;
        let r = a % m;
        if r == m - 1 {
            vstd::arithmetic::div_mod::lemma_fundamental_div_mod_converse(a + 1, m, q + 1, 0);
        } else {
            vstd::arithmetic::div_mod::lemma_fundamental_div_mod_converse(a + 1, m, q, r + 1);
        }
    }
    if start + j <= u32::MAX {
        vstd::arithmetic::div_mod::lemma_small_mod(a as nat, m as nat);
        vstd::arithmetic::div_mod::lemma_small_mod(b as nat, m as nat);
    }
    if j - i < 0xFFFF_FFFF && a % m == b % m {
        vstd::arithmetic::div_mod::lemma_fundamental_div_mod(a, m);
        vstd::arithmetic::div_mod::lemma_fundamental_div_mod(b, m);
        let qa = a / m;
        let qb = b / m;
        assert(b - a == m * (qb - qa)) by (nonlinear_arith)
            requires
                a == m * qa + a % m,
                b == m * qb + b % m,
                a % m == b % m,
        ;
        assert(false) by (nonlinear_arith)
            requires
                b - a == m * (qb - qa),
                0 < b - a < m,
        ;
    }
    vstd::arithmetic::div_mod::lemma_small_mod((start - 1) as nat, m as nat);
}

/// A method call that waits for its reply.
#[derive(Debug)]
pub struct PendingCall {
    serial: u32,
    tmp_queue: Vec<Message>,
}

/// A waiting call as plain values: the serial number of the call, and the
/// messages that came in since and answer something else.
pub struct PendingCallView {
    /// The serial number of the call.
    pub serial: u32,
    /// The messages set aside, oldest first.
    pub set_aside: Seq<MessageView>,
}

impl View for PendingCall {
    type V = PendingCallView;

    closed spec fn view(&self) -> PendingCallView {
        PendingCallView { serial: self.serial, set_aside: message_views(self.tmp_queue@) }
    }
}

/// What a received message means to a waiting call.
#[derive(Debug, PartialEq, Eq)]
pub enum CallStep {
    /// The message is not the end of the call: wait for the next one.
    Wait,
    /// The message is the reply.
    Reply(Message),
    /// The message is an error reply.
    Failed(Error),
}

/// Whether `m` answers the call with the serial number `serial`.
pub open spec fn answers(m: MessageView, serial: u32) -> bool {
    m.fields.reply_serial == Some(serial)
}

/// Queue and set-aside messages once `m` has come in and answers
/// something else. While they are together fewer than the queue may hold,
/// `m` joins those set aside. Else the connection's policy decides: either
/// `m` is dropped, or the oldest message that waits is, the head of the
/// queue before those set aside, and `m` joins those set aside; where
/// nothing waits, `m` is dropped.
pub open spec fn after_other(c: ConnectionView, call: PendingCallView, m: MessageView) -> (
    Seq<MessageView>,
    Seq<MessageView>,
) {
    if c.in_queue.len() + call.set_aside.len() < c.max_queued {
        (c.in_queue, call.set_aside.push(m))
    } else {
        match c.overflow {
            OverflowPolicy::DropNewest => (c.in_queue, call.set_aside),
            OverflowPolicy::DropOldest => if c.in_queue.len() > 0 {
                (c.in_queue.drop_first(), call.set_aside.push(m))
            } else if call.set_aside.len() > 0 {
                (c.in_queue, call.set_aside.drop_first().push(m))
            } else {
                (c.in_queue, call.set_aside)
            },
        }
    }
}

/// Whether the messages in the queue and those set aside are together no
/// more than the queue may hold.
pub open spec fn within_bound(c: ConnectionView, call: PendingCallView) -> bool {
    c.in_queue.len() + call.set_aside.len() <= c.max_queued
}

impl PendingCall {
    /// The serial number of the call.
    pub fn serial(&self) -> (s: u32)
        ensures
            s == self@.serial,
    {
        self.serial
    }

    /// Takes the next received message. A message that answers another
    /// call, or none, is set aside; where the queue is full, it or the
    /// oldest message that waits is dropped, as the connection's policy
    /// says. A
    /// message that answers this call moves what was set aside to the end
    /// of the connection's queue, in the order of arrival; it ends the
    /// call where it is a reply or an error, and is dropped otherwise.
    #[verifier::rlimit(30)]
    pub fn deliver(&mut self, conn: &mut Connection, m: Message) -> (step: CallStep)
        ensures
            final(self)@.serial == old(self)@.serial,
            within_bound(old(conn)@, old(self)@) ==> within_bound(final(conn)@, final(self)@),
            step matches CallStep::Reply(reply) ==> reply@.fields.reply_serial == Some(
                old(self)@.serial,
            ),
            step matches CallStep::Failed(Error::MethodError { name, body }) ==> body@.fields.reply_serial
                == Some(old(self)@.serial),
            !answers(m@, old(self)@.serial) ==> {
                &&& step is Wait
                &&& final(conn)@ == (ConnectionView {
                    in_queue: after_other(old(conn)@, old(self)@, m@).0,
                    ..old(conn)@
                })
                &&& final(self)@.set_aside == after_other(old(conn)@, old(self)@, m@).1
            },
            answers(m@, old(self)@.serial) ==> {
                &&& final(self)@.set_aside == Seq::<MessageView>::empty()
                &&& final(conn)@ == (ConnectionView {
                    in_queue: old(conn)@.in_queue + old(self)@.set_aside,
                    ..old(conn)@
                })
                &&& match m@.primary.msg_type {
                    MessageType::MethodReturn => step matches CallStep::Reply(reply) && reply@
                        == m@,
                    MessageType::Error => step matches CallStep::Failed(
                        Error::MethodError { name, body },
                    ) && body@ == m@ && Some(name@) == m@.fields.error_name,
                    _ => step is Wait,
                }
            },
    {
        let answered: bool = match m.header().reply_serial() {
            Some(s) => s == self.serial,
            None => false,
        };
        if !answered {
            if self.tmp_queue.len() < conn.max_queued && conn.in_queue.len() < conn.max_queued
                - self.tmp_queue.len() {
                self.tmp_queue.push(m);
                assert(message_views(self.tmp_queue@) =~= message_views(old(self).tmp_queue@).push(
                    m@,
                ));
                assert(message_views(conn.in_queue@) =~= message_views(old(conn).in_queue@));
            } else {
                match conn.overflow {
                    OverflowPolicy::DropNewest => {
                        assert(message_views(conn.in_queue@) =~= message_views(
                            old(conn).in_queue@,
                        ));
                    },
                    OverflowPolicy::DropOldest => {
                        if conn.in_queue.len() > 0 {
                            conn.in_queue.remove(0);
                            self.tmp_queue.push(m);
                            assert(message_views(conn.in_queue@) =~= message_views(
                                old(conn).in_queue@,
                            ).drop_first());
                            assert(message_views(self.tmp_queue@) =~= message_views(
                                old(self).tmp_queue@,
                            ).push(m@));
                        } else if self.tmp_queue.len() > 0 {
                            self.tmp_queue.remove(0);
                            self.tmp_queue.push(m);
                            assert(message_views(self.tmp_queue@) =~= message_views(
                                old(self).tmp_queue@,
                            ).drop_first().push(m@));
                            assert(message_views(conn.in_queue@) =~= message_views(
                                old(conn).in_queue@,
                            ));
                        }
                    },
                }
            }
            return CallStep::Wait;
        }
        conn.in_queue.append(&mut self.tmp_queue);
        assert(message_views(conn.in_queue@) =~= message_views(old(conn).in_queue@)
            + message_views(old(self).tmp_queue@));
        assert(message_views(self.tmp_queue@) =~= Seq::<MessageView>::empty());
        m.is_well_formed();
        match m.header().message_type() {
            MessageType::Error => CallStep::Failed(m.into_method_error()),
            MessageType::MethodReturn => CallStep::Reply(m),
            _ => CallStep::Wait,
        }
    }

    /// The failure of a call whose socket was closed before the reply
    /// came. What was set aside is lost with the call.
    pub fn closed(self) -> (e: Error)
        ensures
            e == Error::Io(IoErrorKind::BrokenPipe),
    {
        Error::Io(IoErrorKind::BrokenPipe)
    }
}

/// The name on the bus of the bus itself.
pub open spec fn bus_name() -> Seq<char> {
    "org.freedesktop.DBus"@
}

/// The path of the bus's own object.
pub open spec fn bus_path() -> Seq<char> {
    "/org/freedesktop/DBus"@
}

impl Connection {
    /// Queues a call of a method and hands back the token that waits for
    /// its reply. The message is sent under this connection's unique name
    /// and with its next serial number.
    #[verifier::rlimit(30)]
    pub fn call_method(
        &mut self,
        destination: Option<&str>,
        path: &str,
        iface: Option<&str>,
        method_name: &str,
        signature: &str,
        body: &[u8],
        fds: Vec<i32>,
    ) -> (r: Result<PendingCall, Error>)
        ensures
            ({
                let c = old(self)@;
                let m = method_view(
                    c.unique_name,
                    str_of(destination),
                    path@,
                    str_of(iface),
                    method_name@,
                    signature@,
                    body@,
                    fds@,
                );
                if build_error(signature@, body@, fds@) is Some {
                    &&& r matches Err(e) && e == Error::Variant(
                        build_error(signature@, body@, fds@).unwrap(),
                    )
                    &&& final(self)@ == c
                } else if !may_send(c, m) {
                    &&& r matches Err(e) && e == Error::Unsupported
                    &&& final(self)@ == (ConnectionView {
                        next_serial: serial_after(c.next_serial),
                        ..c
                    })
                } else {
                    &&& r matches Ok(call) && call@ == (PendingCallView {
                        serial: c.next_serial,
                        set_aside: Seq::empty(),
                    })
                    &&& final(self)@ == (ConnectionView {
                        next_serial: serial_after(c.next_serial),
                        outbound: c.outbound.push(with_serial(m, c.next_serial)),
                        ..c
                    })
                }
            }),
    {
        let m: Message = match Message::method(
            self.unique_name(),
            destination,
            path,
            iface,
            method_name,
            signature,
            body,
            fds,
        ) {
            Ok(m) => m,
            Err(e) => {
                return Err(e);
            },
        };
        match self.send_message(m) {
            Ok(serial) => {
                let call = PendingCall { serial: serial, tmp_queue: Vec::new() };
                assert(call@.set_aside =~= Seq::empty());
                Ok(call)
            },
            Err(e) => Err(e),
        }
    }

    /// Queues a signal, under this connection's unique name and with its
    /// next serial number.
    pub fn emit_signal(
        &mut self,
        destination: Option<&str>,
        path: &str,
        iface: &str,
        signal_name: &str,
        signature: &str,
        body: &[u8],
        fds: Vec<i32>,
    ) -> (r: Result<(), Error>)
        ensures
            ({
                let c = old(self)@;
                let m = signal_view(
                    c.unique_name,
                    str_of(destination),
                    path@,
                    iface@,
                    signal_name@,
                    signature@,
                    body@,
                    fds@,
                );
                sent(c, m, build_error(signature@, body@, fds@), r is Ok, final(self)@) && failure_of(build_error(signature@, body@, fds@), r)
            }),
    {
        let m: Message = match Message::signal(
            self.unique_name(),
            destination,
            path,
            iface,
            signal_name,
            signature,
            body,
            fds,
        ) {
            Ok(m) => m,
            Err(e) => {
                return Err(e);
            },
        };
        match self.send_message(m) {
            Ok(_) => Ok(()),
            Err(e) => Err(e),
        }
    }

    /// Queues the reply to `call` and hands back its serial number.
    pub fn reply(&mut self, call: &Message, signature: &str, body: &[u8], fds: Vec<i32>) -> (r:
        Result<u32, Error>)
        ensures
            ({
                let c = old(self)@;
                let m = reply_view(c.unique_name, call@, signature@, body@, fds@);
                &&& sent(c, m, build_error(signature@, body@, fds@), r is Ok, final(self)@)
                &&& failure_of(build_error(signature@, body@, fds@), r)
                &&& r matches Ok(serial) ==> serial == c.next_serial
            }),
    {
        let m: Message = match Message::method_reply(
            self.unique_name(),
            call,
            signature,
            body,
            fds,
        ) {
            Ok(m) => m,
            Err(e) => {
                return Err(e);
            },
        };
        self.send_message(m)
    }

    /// Queues the error reply to `call` and hands back its serial number.
    pub fn reply_error(
        &mut self,
        call: &Message,
        error_name: &str,
        signature: &str,
        body: &[u8],
        fds: Vec<i32>,
    ) -> (r: Result<u32, Error>)
        ensures
            ({
                let c = old(self)@;
                let m = error_view(c.unique_name, call@, error_name@, signature@, body@, fds@);
                &&& sent(c, m, build_error(signature@, body@, fds@), r is Ok, final(self)@)
                &&& failure_of(build_error(signature@, body@, fds@), r)
                &&& r matches Ok(serial) ==> serial == c.next_serial
            }),
    {
        let m: Message = match Message::method_error(
            self.unique_name(),
            call,
            error_name,
            signature,
            body,
            fds,
        ) {
            Ok(m) => m,
            Err(e) => {
                return Err(e);
            },
        };
        self.send_message(m)
    }

    /// Queues the call that a client makes first on a bus: `Hello`, on the
    /// bus's own object. The reply names this connection.
    pub fn hello(&mut self) -> (r: Result<PendingCall, Error>)
        ensures
            ({
                let c = old(self)@;
                let m = method_view(
                    c.unique_name,
                    Some(bus_name()),
                    bus_path(),
                    Some(bus_name()),
                    "Hello"@,
                    ""@,
                    Seq::empty(),
                    Seq::empty(),
                );
                &&& r matches Ok(call) && call@ == (PendingCallView {
                    serial: c.next_serial,
                    set_aside: Seq::empty(),
                })
                &&& final(self)@ == (ConnectionView {
                    next_serial: serial_after(c.next_serial),
                    outbound: c.outbound.push(with_serial(m, c.next_serial)),
                    ..c
                })
            }),
    {
        let body: Vec<u8> = Vec::new();
        proof {
            reveal_strlit("");
            assert(""@ =~= Seq::<char>::empty());
            assert(encode_utf8(""@) =~= Seq::<u8>::empty());
        }
        self.call_method(
            Some("org.freedesktop.DBus"),
            "/org/freedesktop/DBus",
            Some("org.freedesktop.DBus"),
            "Hello",
            "",
            body.as_slice(),
            Vec::new(),
        )
    }
}

/// What sending the new message `m` does to a connection: nothing where
/// the message cannot be built; else a serial number is spent, and where
/// the message may be sent it is queued for the socket under that number.
pub open spec fn sent(
    c: ConnectionView,
    m: MessageView,
    problem: Option<VariantError>,
    ok: bool,
    after: ConnectionView,
) -> bool {
    if problem is Some {
        !ok && after == c
    } else if !may_send(c, m) {
        !ok && after == (ConnectionView { next_serial: serial_after(c.next_serial), ..c })
    } else {
        ok && after == (ConnectionView {
            next_serial: serial_after(c.next_serial),
            outbound: c.outbound.push(with_serial(m, c.next_serial)),
            ..c
        })
    }
}

/// Which failure sending a new message ends in: the reason why it cannot
/// be built, or unsupported where it may not be sent.
pub open spec fn failure_of<T>(problem: Option<VariantError>, r: Result<T, Error>) -> bool {
    r matches Err(e) ==> e == (match problem {
        Some(err) => Error::Variant(err),
        None => Error::Unsupported,
    })
}

impl Connection {
    /// Takes the unique name of this connection from the reply to `Hello`,
    /// whose body is that name. A body that is not one string is refused,
    /// and so is a second name.
    pub fn set_unique_name_from(self, reply: &Message) -> (r: Result<Self, Error>)
        ensures
            match body_text(reply@) {
                Err(e) => r matches Err(got) && got == Error::Variant(e),
                Ok(name) => match self@.unique_name {
                    None => r matches Ok(c) && c@ == (ConnectionView {
                        unique_name: Some(name),
                        ..self@
                    }),
                    Some(_) => r matches Err(e) && e == Error::NameTaken,
                },
            },
    {
        match reply.body_as_str() {
            Ok(name) => self.set_unique_name(String::from_str(name)),
            Err(e) => Err(Error::Variant(e)),
        }
    }
}

/// What the scheduler says of the socket.
#[derive(Debug, Clone, Copy, PartialEq, Eq, Structural)]
pub enum Readiness {
    /// Not ready yet; the task will be woken.
    Pending,
    /// Ready.
    Ready,
    /// Asking failed.
    Failed(IoErrorKind),
}

/// What happened since the sending side last decided.
#[derive(Debug, Clone, Copy, PartialEq, Eq)]
pub enum SinkEvent {
    /// Nothing yet: flushing, or closing, begins.
    Start,
    /// The attempt to write what is queued ended so.
    Flushed(Result<(), IoErrorKind>),
    /// The scheduler said so when asked whether the socket can be written.
    Writable(Readiness),
    /// The attempt to close the socket ended so.
    Closed(Result<(), IoErrorKind>),
}

/// What the sending side does next.
#[derive(Debug, Clone, Copy, PartialEq, Eq, Structural)]
pub enum SinkAction {
    /// Try to write what is queued.
    TryFlush,
    /// Ask the scheduler whether the socket can be written.
    PollWritable,
    /// Close the socket.
    Close,
    /// Give up the processor until woken.
    Suspend,
    /// Done, with success.
    Done,
    /// Done, with this failure of the socket.
    Fail(IoErrorKind),
}

/// What the sending side does next while it flushes, and while it closes
/// where `closing` holds. Writing is tried until all is written; a socket
/// that would block is waited for; any other failure ends the operation.
/// Closing flushes first and then closes.
pub open spec fn sink_step(closing: bool, event: SinkEvent) -> SinkAction {
    match event {
        SinkEvent::Start => SinkAction::TryFlush,
        SinkEvent::Flushed(Ok(())) => if closing {
            SinkAction::Close
        } else {
            SinkAction::Done
        },
        SinkEvent::Flushed(Err(IoErrorKind::WouldBlock)) => SinkAction::PollWritable,
        SinkEvent::Flushed(Err(kind)) => SinkAction::Fail(kind),
        SinkEvent::Writable(Readiness::Pending) => SinkAction::Suspend,
        SinkEvent::Writable(Readiness::Ready) => SinkAction::TryFlush,
        SinkEvent::Writable(Readiness::Failed(kind)) => SinkAction::Fail(kind),
        SinkEvent::Closed(Ok(())) => SinkAction::Done,
        SinkEvent::Closed(Err(kind)) => SinkAction::Fail(kind),
    }
}

/// What flushing does next.
pub fn poll_flush(event: SinkEvent) -> (action: SinkAction)
    ensures
        action == sink_step(false, event),
{
    match event {
        SinkEvent::Start => SinkAction::TryFlush,
        SinkEvent::Flushed(Ok(())) => SinkAction::Done,
        SinkEvent::Flushed(Err(kind)) => match kind {
            IoErrorKind::WouldBlock => SinkAction::PollWritable,
            _ => SinkAction::Fail(kind),
        },
        SinkEvent::Writable(Readiness::Pending) => SinkAction::Suspend,
        SinkEvent::Writable(Readiness::Ready) => SinkAction::TryFlush,
        SinkEvent::Writable(Readiness::Failed(kind)) => SinkAction::Fail(kind),
        SinkEvent::Closed(Ok(())) => SinkAction::Done,
        SinkEvent::Closed(Err(kind)) => SinkAction::Fail(kind),
    }
}

/// What closing does next.
pub fn poll_close(event: SinkEvent) -> (action: SinkAction)
    ensures
        action == sink_step(true, event),
{
    match event {
        SinkEvent::Flushed(Ok(())) => SinkAction::Close,
        _ => poll_flush(event),
    }
}

/// What happened since the receiving side last decided.
#[derive(Debug, PartialEq, Eq)]
pub enum StreamEvent {
    /// Nothing yet: the consumer asks for the next message.
    Start,
    /// The attempt to take a message from the socket ended so.
    Received(Result<Message, Error>),
    /// The scheduler said so when asked whether the socket can be read.
    Readable(Readiness),
}

/// What the receiving side does next.
#[derive(Debug, PartialEq, Eq)]
pub enum StreamAction {
    /// Try to take a message from the socket.
    TryReceive,
    /// Ask the scheduler whether the socket can be read.
    PollReadable,
    /// Give up the processor until woken.
    Suspend,
    /// Hand this message to the consumer.
    Yield(Message),
    /// Hand this failure to the consumer; the stream goes on.
    YieldError(Error),
    /// The peer closed the socket: the stream is over.
    End,
}

impl Connection {
    /// What the receiving side does next. The queue is served first,
    /// oldest message first; then the socket is tried until a message
    /// comes. A socket that would block is waited for, a closed one ends
    /// the stream, and any other failure is handed on.
    #[verifier::rlimit(30)]
    pub fn poll_next(&mut self, event: StreamEvent) -> (action: StreamAction)
        ensures
            !(event is Start) ==> final(self)@ == old(self)@,
            match event {
                StreamEvent::Start => if old(self)@.in_queue.len() > 0 {
                    &&& action matches StreamAction::Yield(m) && m@ == old(self)@.in_queue[0]
                    &&& final(self)@ == (ConnectionView {
                        in_queue: old(self)@.in_queue.drop_first(),
                        ..old(self)@
                    })
                } else {
                    action is TryReceive && final(self)@ == old(self)@
                },
                StreamEvent::Received(Ok(m)) => action matches StreamAction::Yield(got) && got@
                    == m@,
                StreamEvent::Received(Err(Error::Io(IoErrorKind::WouldBlock))) => action
                    is PollReadable,
                StreamEvent::Received(Err(Error::Io(IoErrorKind::BrokenPipe))) => action is End,
                StreamEvent::Received(Err(e)) => action matches StreamAction::YieldError(got)
                    && got == e,
                StreamEvent::Readable(Readiness::Pending) => action is Suspend,
                StreamEvent::Readable(Readiness::Ready) => action is TryReceive,
                StreamEvent::Readable(Readiness::Failed(kind)) => action
                    matches StreamAction::YieldError(got) && got == Error::Io(kind),
            },
    {
        match event {
            StreamEvent::Start => match self.next_queued() {
                Some(m) => StreamAction::Yield(m),
                None => StreamAction::TryReceive,
            },
            StreamEvent::Received(Ok(m)) => StreamAction::Yield(m),
            StreamEvent::Received(Err(e)) => match e {
                Error::Io(IoErrorKind::WouldBlock) => StreamAction::PollReadable,
                Error::Io(IoErrorKind::BrokenPipe) => StreamAction::End,
                _ => StreamAction::YieldError(e),
            },
            StreamEvent::Readable(Readiness::Pending) => StreamAction::Suspend,
            StreamEvent::Readable(Readiness::Ready) => StreamAction::TryReceive,
            StreamEvent::Readable(Readiness::Failed(kind)) => StreamAction::YieldError(
                Error::Io(kind),
            ),
        }
    }
}

} // verus!
