//! The buffers between the messages of a connection and its socket: what
//! waits to be written, and what was read and is not a whole message yet.

use vstd::prelude::*;
use crate::error::{Error, IoErrorKind, VariantError};
use crate::message::Message;
use crate::text::push_bytes;
use crate::wire::{
    decode_message, encodable, message_bytes, message_length, no_fields, parse_fields, parse_head,
    parse_message, total_len, HEAD_LEN,
};

verus! {

/// The buffers of a connection.
#[derive(Debug)]
pub struct RawConnection {
    cap_unix_fd: bool,
    outbound: Vec<u8>,
    out_fds: Vec<i32>,
    inbound: Vec<u8>,
    in_fds: Vec<i32>,
}

/// The buffers as plain values.
pub struct RawView {
    /// Whether the peer agreed to take file descriptors.
    pub cap_unix_fd: bool,
    /// The bytes that wait to be written.
    pub outbound: Seq<u8>,
    /// The file descriptors that go out with the next write.
    pub out_fds: Seq<i32>,
    /// The bytes that were read and belong to no message yet.
    pub inbound: Seq<u8>,
    /// The file descriptors that were received and belong to no message
    /// yet.
    pub in_fds: Seq<i32>,
}

impl View for RawConnection {
    type V = RawView;

    closed spec fn view(&self) -> RawView {
        RawView {
            cap_unix_fd: self.cap_unix_fd,
            outbound: self.outbound@,
            out_fds: self.out_fds@,
            inbound: self.inbound@,
            in_fds: self.in_fds@,
        }
    }
}

/// What the writing side does next.
#[derive(Debug, Clone, Copy, PartialEq, Eq)]
pub enum FlushStep {
    /// Write what waits, with the file descriptors that go out with it.
    Write,
    /// Flushing is over, with this outcome.
    Done(Result<(), IoErrorKind>),
}

/// How many of the `available` file descriptors the message `bytes`
/// claims: as many as its header counts, all where it counts more than
/// there are, none where it counts none or its fields cannot be read.
pub open spec fn claimed_fds(bytes: Seq<u8>, available: int) -> int {
    match parse_head(bytes) {
        Ok((primary, fields_len)) => match parse_fields(
            bytes,
            HEAD_LEN as int,
            HEAD_LEN + fields_len,
            no_fields(),
            primary.endian,
        ) {
            Ok(fields) => match fields.unix_fds {
                Some(n) => if n <= available {
                    n as int
                } else {
                    available
                },
                None => 0,
            },
            Err(_) => 0,
        },
        Err(_) => 0,
    }
}

/// What the bytes read so far hold.
pub enum Inbound {
    /// Not a whole message yet.
    NeedMore,
    /// No message starts here: the fixed header is not one.
    Corrupt(VariantError),
    /// A whole message of `len` bytes that claims `fds` file descriptors.
    Complete { len: int, fds: int },
}

/// What the bytes read so far hold: nothing to go by while fewer than
/// sixteen are there; no message where these are no header; and else a
/// message of the length that the header gives, once that many bytes are
/// there.
pub open spec fn inbound_state(v: RawView) -> Inbound {
    match parse_head(v.inbound) {
        Err(VariantError::InsufficientData) => Inbound::NeedMore,
        Err(e) => Inbound::Corrupt(e),
        Ok((primary, fields_len)) => {
            let total = total_len(primary.body_len as int, fields_len);
            if v.inbound.len() < total {
                Inbound::NeedMore
            } else {
                Inbound::Complete {
                    len: total,
                    fds: claimed_fds(v.inbound.take(total), v.in_fds.len() as int),
                }
            }
        },
    }
}

impl RawConnection {
    /// Empty buffers.
    pub fn new(cap_unix_fd: bool) -> (raw: Self)
        ensures
            raw@ == (RawView {
                cap_unix_fd: cap_unix_fd,
                outbound: Seq::empty(),
                out_fds: Seq::empty(),
                inbound: Seq::empty(),
                in_fds: Seq::empty(),
            }),
    {
        RawConnection {
            cap_unix_fd: cap_unix_fd,
            outbound: Vec::new(),
            out_fds: Vec::new(),
            inbound: Vec::new(),
            in_fds: Vec::new(),
        }
    }

    /// Puts the wire form of `msg` behind what waits to be written, and
    /// its file descriptors behind those that wait. A message with file
    /// descriptors is refused where the peer did not agree to take them,
    /// and so is a message without a wire form; nothing changes then.
    #[verifier::rlimit(30)]
    pub fn enqueue_message(&mut self, msg: &Message) -> (r: Result<(), Error>)
        ensures
            if msg@.fds.len() > 0 && !old(self)@.cap_unix_fd {
                r matches Err(e) && e == Error::Unsupported && final(self)@ == old(self)@
            } else if !encodable(msg@) {
                r matches Err(e) && e == Error::Variant(VariantError::InvalidData) && final(self)@
                    == old(self)@
            } else {
                r is Ok && final(self)@ == (RawView {
                    outbound: old(self)@.outbound + message_bytes(msg@),
                    out_fds: old(self)@.out_fds + msg@.fds,
                    ..old(self)@
                })
            },
    {
        if msg.fds().len() > 0 && !self.cap_unix_fd {
            return Err(Error::Unsupported);
        }
        let bytes: Vec<u8> = match msg.to_bytes() {
            Ok(bytes) => bytes,
            Err(e) => {
                return Err(e);
            },
        };
        push_bytes(&mut self.outbound, bytes.as_slice());
        let fds = msg.fds();
        let mut i: usize = 0;
        while i < fds.len()
            invariant
                i <= fds.len(),
                self.out_fds@ == old(self).out_fds@ + fds@.subrange(0, i as int),
                self.outbound@ == old(self).outbound@ + bytes@,
                self.cap_unix_fd == old(self).cap_unix_fd,
                self.inbound@ == old(self).inbound@,
                self.in_fds@ == old(self).in_fds@,
            decreases fds.len() - i,
        {
            self.out_fds.push(fds[i]);
            i = i + 1;
            assert(self.out_fds@ =~= old(self).out_fds@ + fds@.subrange(0, i as int));
        }
        assert(fds@.subrange(0, i as int) =~= fds@);
        Ok(())
    }

    /// The bytes that wait to be written.
    pub fn pending_bytes(&self) -> (bytes: &[u8])
        ensures
            bytes@ == self@.outbound,
    {
        self.outbound.as_slice()
    }

    /// The file descriptors that go out with the next write.
    pub fn pending_fds(&self) -> (fds: &[i32])
        ensures
            fds@ == self@.out_fds,
    {
        self.out_fds.as_slice()
    }

    /// What the writing side does next. `written` is how the last write
    /// ended, and nothing where none was made yet. What was written leaves
    /// the buffer, and the file descriptors went out with it. Flushing is
    /// over when nothing waits or the socket failed; a write of no bytes
    /// while bytes wait, or of more bytes than wait, counts as a failure.
    #[verifier::rlimit(30)]
    pub fn try_flush(&mut self, written: Option<Result<usize, IoErrorKind>>) -> (step: FlushStep)
        ensures
            match written {
                None => final(self)@ == old(self)@ && step == (if old(self)@.outbound.len() == 0 {
                    FlushStep::Done(Ok(()))
                } else {
                    FlushStep::Write
                }),
                Some(Err(kind)) => final(self)@ == old(self)@ && step == FlushStep::Done(
                    Err(kind),
                ),
                Some(Ok(n)) => if (n == 0 && old(self)@.outbound.len() > 0) || n > old(self)@.outbound.len() {
                    final(self)@ == old(self)@ && step == FlushStep::Done(
                        Err(IoErrorKind::Other),
                    )
                } else {
                    final(self)@ == (RawView {
                        outbound: old(self)@.outbound.skip(n as int),
                        out_fds: if n > 0 {
                            Seq::empty()
                        } else {
                            old(self)@.out_fds
                        },
                        ..old(self)@
                    }) && step == (if old(self)@.outbound.len() == n {
                        FlushStep::Done(Ok(()))
                    } else {
                        FlushStep::Write
                    })
                },
            },
    {
        match written {
            Some(Err(kind)) => {
                return FlushStep::Done(Err(kind));
            },
            Some(Ok(n)) => {
                if n > self.outbound.len() {
                    return FlushStep::Done(Err(IoErrorKind::Other));
                }
                if n == 0 {
                    if self.outbound.len() > 0 {
                        return FlushStep::Done(Err(IoErrorKind::Other));
                    }
                    assert(self.outbound@.skip(0) =~= self.outbound@);
                } else {
                    let rest: Vec<u8> = self.outbound.split_off(n);
                    self.outbound = rest;
                    self.out_fds = Vec::new();
                    assert(self.outbound@ =~= old(self).outbound@.skip(n as int));
                }
            },
            None => {},
        }
        if self.outbound.len() == 0 {
            FlushStep::Done(Ok(()))
        } else {
            FlushStep::Write
        }
    }

    /// Takes in what was read from the socket: bytes, and the file
    /// descriptors that came with them. A read of no bytes means that the
    /// peer closed the socket.
    pub fn received(&mut self, bytes: &[u8], fds: &[i32]) -> (r: Result<(), Error>)
        ensures
            if bytes@.len() == 0 {
                r matches Err(e) && e == Error::Io(IoErrorKind::BrokenPipe) && final(self)@
                    == old(self)@
            } else {
                r is Ok && final(self)@ == (RawView {
                    inbound: old(self)@.inbound + bytes@,
                    in_fds: old(self)@.in_fds + fds@,
                    ..old(self)@
                })
            },
    {
        if bytes.len() == 0 {
            return Err(Error::Io(IoErrorKind::BrokenPipe));
        }
        push_bytes(&mut self.inbound, bytes);
        let mut i: usize = 0;
        while i < fds.len()
            invariant
                i <= fds.len(),
                self.in_fds@ == old(self).in_fds@ + fds@.subrange(0, i as int),
                self.inbound@ == old(self).inbound@ + bytes@,
                self.cap_unix_fd == old(self).cap_unix_fd,
                self.outbound@ == old(self).outbound@,
                self.out_fds@ == old(self).out_fds@,
            decreases fds.len() - i,
        {
            self.in_fds.push(fds[i]);
            i = i + 1;
            assert(self.in_fds@ =~= old(self).in_fds@ + fds@.subrange(0, i as int));
        }
        assert(fds@.subrange(0, i as int) =~= fds@);
        Ok(())
    }

    /// The file descriptors that were received and that no message
    /// claimed; they leave the buffer, for the caller to close.
    pub fn take_unclaimed_fds(&mut self) -> (fds: Vec<i32>)
        ensures
            fds@ == old(self)@.in_fds,
            final(self)@ == (RawView { in_fds: Seq::empty(), ..old(self)@ }),
    {
        let mut fds: Vec<i32> = Vec::new();
        fds.append(&mut self.in_fds);
        assert(fds@ =~= old(self)@.in_fds);
        assert(self.in_fds@ =~= Seq::<i32>::empty());
        fds
    }

    /// Takes the next whole message out of what was read. While the bytes
    /// are not a whole message the socket would block, and nothing
    /// changes. A message leaves the buffer with the file descriptors that
    /// it claims, also where it cannot be read, so that the next message
    /// can. Where no message starts at all, everything read is dropped.
    #[verifier::rlimit(30)]
    pub fn try_receive_message(&mut self) -> (r: Result<Message, Error>)
        ensures
            match inbound_state(old(self)@) {
                Inbound::NeedMore => r matches Err(e) && e == Error::Io(IoErrorKind::WouldBlock)
                    && final(self)@ == old(self)@,
                Inbound::Corrupt(err) => r matches Err(e) && e == Error::Variant(err) && final(self)@ == (RawView { inbound: Seq::empty(), ..old(self)@ }),
                Inbound::Complete { len, fds } => {
                    &&& final(self)@ == (RawView {
                        inbound: old(self)@.inbound.skip(len),
                        in_fds: old(self)@.in_fds.skip(fds),
                        ..old(self)@
                    })
                    &&& match parse_message(
                        old(self)@.inbound.take(len),
                        old(self)@.in_fds.take(fds),
                    ) {
                        Ok(m) => r matches Ok(msg) && msg@ == m,
                        Err(err) => r matches Err(e) && e == Error::Variant(err),
                    }
                },
            },
    {
        let total: u64 = match message_length(self.inbound.as_slice()) {
            Ok(total) => total,
            Err(VariantError::InsufficientData) => {
                return Err(Error::Io(IoErrorKind::WouldBlock));
            },
            Err(err) => {
                self.inbound = Vec::new();
                assert(self.inbound@ =~= Seq::<u8>::empty());
                return Err(Error::Variant(err));
            },
        };
        if (self.inbound.len() as u64) < total {
            return Err(Error::Io(IoErrorKind::WouldBlock));
        }
        let total: usize = total as usize;
        let mut bytes: Vec<u8> = self.inbound.split_off(total);
        core::mem::swap(&mut bytes, &mut self.inbound);
        assert(bytes@ =~= old(self)@.inbound.take(total as int));
        assert(self.inbound@ =~= old(self)@.inbound.skip(total as int));
        proof {
            let all = old(self)@.inbound;
            assert(all.subrange(0, 16) =~= bytes@.subrange(0, 16));
            assert(all.subrange(4, 8) =~= bytes@.subrange(4, 8));
            assert(all.subrange(8, 12) =~= bytes@.subrange(8, 12));
            assert(all.subrange(12, 16) =~= bytes@.subrange(12, 16));
            assert(parse_head(all) == parse_head(bytes@));
        }
        match decode_message(bytes.as_slice()) {
            Err(err) => {
                assert(self.in_fds@.skip(0) =~= self.in_fds@);
                assert(self.in_fds@.take(0) =~= Seq::<i32>::empty());
                Err(Error::Variant(err))
            },
            Ok((primary, fields, body)) => {
                let claimed: usize = match fields.unix_fds {
                    Some(n) => if n as usize <= self.in_fds.len() {
                        n as usize
                    } else {
                        self.in_fds.len()
                    },
                    None => 0,
                };
                let mut fds: Vec<i32> = self.in_fds.split_off(claimed);
                core::mem::swap(&mut fds, &mut self.in_fds);
                assert(fds@ =~= old(self)@.in_fds.take(claimed as int));
                assert(self.in_fds@ =~= old(self)@.in_fds.skip(claimed as int));
                Message::from_parts(primary, fields, body, fds)
            },
        }
    }
}

} // verus!
