//! A message: its fixed header, its header fields, its body and the file
//! descriptors that travel with it.

use vstd::prelude::*;
use vstd::string::*;
use crate::basic::{basic_decoding, Basic};
use crate::endian::Endian;
use crate::error::{Error, VariantError};
use crate::signature::{is_signature, validate, STRING};
use vstd::utf8::encode_utf8;
use crate::string::{checked, decode, extract_slice, str_decoding, str_extent};
use crate::text::{is_single_ascii, push_bytes};
use crate::wire::{decode_message, encodable, encode_message, message_bytes, parse_message};

verus! {

/// The four kinds of message.
#[derive(Debug, Clone, Copy, PartialEq, Eq, Structural)]
pub enum MessageType {
    /// A call of a method; the caller may expect a reply.
    MethodCall,
    /// The reply to a method call.
    MethodReturn,
    /// The reply to a method call that failed.
    Error,
    /// A signal.
    Signal,
}

/// The version of the protocol that this library speaks.
pub const PROTOCOL_VERSION: u8 = 1;

/// The fixed part at the front of every message.
#[derive(Debug, Clone, Copy, PartialEq, Eq)]
pub struct PrimaryHeader {
    /// Byte order of every number in the message.
    pub endian: Endian,
    /// Kind of the message.
    pub msg_type: MessageType,
    /// Flags.
    pub flags: u8,
    /// Major version of the protocol.
    pub protocol_version: u8,
    /// Length of the body in bytes.
    pub body_len: u32,
    /// Serial number of the message; zero while none is assigned.
    pub serial_num: u32,
}

/// The header fields with well-known codes.
#[derive(Debug, PartialEq, Eq)]
pub struct MessageFields {
    /// The object that a call is sent to or a signal comes from.
    pub path: Option<String>,
    /// The interface of the method or signal.
    pub interface: Option<String>,
    /// The name of the method or signal.
    pub member: Option<String>,
    /// The name of the error.
    pub error_name: Option<String>,
    /// The serial number of the call that this message answers.
    pub reply_serial: Option<u32>,
    /// The name of the peer that the message is for.
    pub destination: Option<String>,
    /// The unique name of the peer that sent the message.
    pub sender: Option<String>,
    /// The signature of the body.
    pub signature: Option<String>,
    /// The number of file descriptors that travel with the message.
    pub unix_fds: Option<u32>,
}

/// What an optional text holds.
pub open spec fn text_of(text: Option<String>) -> Option<Seq<char>> {
    match text {
        Some(t) => Some(t@),
        None => None,
    }
}

/// What an optional borrowed text holds.
pub open spec fn str_of(text: Option<&str>) -> Option<Seq<char>> {
    match text {
        Some(t) => Some(t@),
        None => None,
    }
}

/// The header fields as plain values.
pub struct FieldsView {
    /// The object that a call is sent to or a signal comes from.
    pub path: Option<Seq<char>>,
    /// The interface of the method or signal.
    pub interface: Option<Seq<char>>,
    /// The name of the method or signal.
    pub member: Option<Seq<char>>,
    /// The name of the error.
    pub error_name: Option<Seq<char>>,
    /// The serial number of the call that the message answers.
    pub reply_serial: Option<u32>,
    /// The name of the peer that the message is for.
    pub destination: Option<Seq<char>>,
    /// The unique name of the peer that sent the message.
    pub sender: Option<Seq<char>>,
    /// The signature of the body.
    pub signature: Option<Seq<char>>,
    /// The number of file descriptors that travel with the message.
    pub unix_fds: Option<u32>,
}

impl View for MessageFields {
    type V = FieldsView;

    open spec fn view(&self) -> FieldsView {
        FieldsView {
            path: text_of(self.path),
            interface: text_of(self.interface),
            member: text_of(self.member),
            error_name: text_of(self.error_name),
            reply_serial: self.reply_serial,
            destination: text_of(self.destination),
            sender: text_of(self.sender),
            signature: text_of(self.signature),
            unix_fds: self.unix_fds,
        }
    }
}

/// A message as plain values.
pub struct MessageView {
    /// The fixed part of the header.
    pub primary: PrimaryHeader,
    /// The header fields.
    pub fields: FieldsView,
    /// The bytes of the body.
    pub body: Seq<u8>,
    /// The file descriptors that travel with the message.
    pub fds: Seq<i32>,
}

/// Whether the fields that a message of kind `t` must carry are there: a
/// method call names a path and a member, a reply and an error name the
/// call they answer, an error names itself, and a signal names a path, an
/// interface and a member.
pub open spec fn has_required_fields(t: MessageType, f: FieldsView) -> bool {
    match t {
        MessageType::MethodCall => f.path is Some && f.member is Some,
        MessageType::MethodReturn => f.reply_serial is Some,
        MessageType::Error => f.reply_serial is Some && f.error_name is Some,
        MessageType::Signal => f.path is Some && f.interface is Some && f.member is Some,
    }
}

/// Whether the signature of the body, where there is one, follows the
/// grammar of signatures.
pub open spec fn signature_fits(f: FieldsView) -> bool {
    f.signature matches Some(s) ==> is_signature(encode_utf8(s))
}

/// Whether header, fields, body and file descriptors fit together: the
/// protocol version is the one spoken here, the required fields are there,
/// the signature of the body is a signature, the header gives the length
/// of the body, a body has a signature, and the field for file descriptors
/// is there exactly when some travel with the message, and counts them.
pub open spec fn parts_fit(m: MessageView) -> bool {
    &&& signature_fits(m.fields)
    &&& m.primary.protocol_version == PROTOCOL_VERSION
    &&& has_required_fields(m.primary.msg_type, m.fields)
    &&& m.primary.body_len == m.body.len()
    &&& (m.body.len() > 0 ==> m.fields.signature is Some)
    &&& match m.fields.unix_fds {
        Some(n) => n == m.fds.len(),
        None => m.fds.len() == 0,
    }
}

/// The message with the given parts, where they fit together: a signature
/// that is none is refused as such, anything else that does not fit as
/// invalid data.
pub open spec fn checked_parts(m: MessageView) -> Result<MessageView, VariantError> {
    if !signature_fits(m.fields) {
        Err(VariantError::InvalidSignature)
    } else if !parts_fit(m) {
        Err(VariantError::InvalidData)
    } else {
        Ok(m)
    }
}

/// Why no message can be built with the given signature, body and file
/// descriptors, if none can: the signature is none, or body or file
/// descriptors are too many for the header to count.
pub open spec fn build_error(signature: Seq<char>, body: Seq<u8>, fds: Seq<i32>) -> Option<
    VariantError,
> {
    if !is_signature(encode_utf8(signature)) {
        Some(VariantError::InvalidSignature)
    } else if !fits_header(body, fds) {
        Some(VariantError::InvalidData)
    } else {
        None
    }
}

/// The fields that every new message starts from: who sends it, whom it is
/// for, the signature of its body where it has one, and the number of file
/// descriptors where some travel with it.
pub open spec fn base_fields(
    sender: Option<Seq<char>>,
    destination: Option<Seq<char>>,
    signature: Seq<char>,
    body: Seq<u8>,
    fds: Seq<i32>,
) -> FieldsView {
    FieldsView {
        path: None,
        interface: None,
        member: None,
        error_name: None,
        reply_serial: None,
        destination: destination,
        sender: sender,
        signature: if body.len() > 0 {
            Some(signature)
        } else {
            None
        },
        unix_fds: if fds.len() > 0 {
            Some(fds.len() as u32)
        } else {
            None
        },
    }
}

/// The fixed header of a new message of kind `t`: little-endian, no flags,
/// no serial number yet.
pub open spec fn new_primary(t: MessageType, body: Seq<u8>) -> PrimaryHeader {
    PrimaryHeader {
        endian: Endian::Little,
        msg_type: t,
        flags: 0,
        protocol_version: PROTOCOL_VERSION,
        body_len: body.len() as u32,
        serial_num: 0,
    }
}

/// Whether body and file descriptors are few enough for their counts to
/// fit the header.
pub open spec fn fits_header(body: Seq<u8>, fds: Seq<i32>) -> bool {
    body.len() <= u32::MAX && fds.len() <= u32::MAX
}

/// A method call as plain values.
pub open spec fn method_view(
    sender: Option<Seq<char>>,
    destination: Option<Seq<char>>,
    path: Seq<char>,
    interface: Option<Seq<char>>,
    member: Seq<char>,
    signature: Seq<char>,
    body: Seq<u8>,
    fds: Seq<i32>,
) -> MessageView {
    MessageView {
        primary: new_primary(MessageType::MethodCall, body),
        fields: FieldsView {
            path: Some(path),
            interface: interface,
            member: Some(member),
            ..base_fields(sender, destination, signature, body, fds)
        },
        body: body,
        fds: fds,
    }
}

/// A signal as plain values.
pub open spec fn signal_view(
    sender: Option<Seq<char>>,
    destination: Option<Seq<char>>,
    path: Seq<char>,
    interface: Seq<char>,
    member: Seq<char>,
    signature: Seq<char>,
    body: Seq<u8>,
    fds: Seq<i32>,
) -> MessageView {
    MessageView {
        primary: new_primary(MessageType::Signal, body),
        fields: FieldsView {
            path: Some(path),
            interface: Some(interface),
            member: Some(member),
            ..base_fields(sender, destination, signature, body, fds)
        },
        body: body,
        fds: fds,
    }
}

/// The reply to `call` as plain values: it goes to the sender of the call
/// and names the call's serial number.
pub open spec fn reply_view(
    sender: Option<Seq<char>>,
    call: MessageView,
    signature: Seq<char>,
    body: Seq<u8>,
    fds: Seq<i32>,
) -> MessageView {
    MessageView {
        primary: new_primary(MessageType::MethodReturn, body),
        fields: FieldsView {
            reply_serial: Some(call.primary.serial_num),
            ..base_fields(sender, call.fields.sender, signature, body, fds)
        },
        body: body,
        fds: fds,
    }
}

/// The error reply to `call` as plain values.
pub open spec fn error_view(
    sender: Option<Seq<char>>,
    call: MessageView,
    error_name: Seq<char>,
    signature: Seq<char>,
    body: Seq<u8>,
    fds: Seq<i32>,
) -> MessageView {
    MessageView {
        primary: new_primary(MessageType::Error, body),
        fields: FieldsView {
            reply_serial: Some(call.primary.serial_num),
            error_name: Some(error_name),
            ..base_fields(sender, call.fields.sender, signature, body, fds)
        },
        body: body,
        fds: fds,
    }
}

/// A message.
#[derive(Debug, PartialEq, Eq)]
pub struct Message {
    primary: PrimaryHeader,
    fields: MessageFields,
    body: Vec<u8>,
    fds: Vec<i32>,
}

impl View for Message {
    type V = MessageView;

    closed spec fn view(&self) -> MessageView {
        MessageView {
            primary: self.primary,
            fields: self.fields@,
            body: self.body@,
            fds: self.fds@,
        }
    }
}

/// The parsed header of a message.
pub struct MessageHeader<'m> {
    primary: &'m PrimaryHeader,
    fields: &'m MessageFields,
}

impl<'m> MessageHeader<'m> {
    /// The fixed part of the header.
    pub closed spec fn spec_primary(&self) -> PrimaryHeader {
        *self.primary
    }

    /// The header fields.
    pub closed spec fn spec_fields(&self) -> MessageFields {
        *self.fields
    }

    /// The fixed part of the header.
    pub fn primary(&self) -> (p: &PrimaryHeader)
        ensures
            *p == self.spec_primary(),
    {
        self.primary
    }

    /// The header fields.
    pub fn fields(&self) -> (f: &MessageFields)
        ensures
            *f == self.spec_fields(),
    {
        self.fields
    }

    /// The kind of the message.
    pub fn message_type(&self) -> (t: MessageType)
        ensures
            t == self.spec_primary().msg_type,
    {
        self.primary.msg_type
    }

    /// The serial number of the call that the message answers.
    pub fn reply_serial(&self) -> (s: Option<u32>)
        ensures
            s == self.spec_fields().reply_serial,
    {
        self.fields.reply_serial
    }
}

/// A copy of an optional text.
fn owned(text: Option<&str>) -> (r: Option<String>)
    ensures
        text_of(r) == str_of(text),
{
    match text {
        Some(t) => Some(String::from_str(t)),
        None => None,
    }
}

/// A copy of an optional text.
fn cloned(text: &Option<String>) -> (r: Option<String>)
    ensures
        text_of(r) == text_of(*text),
{
    match text {
        Some(t) => Some(t.clone()),
        None => None,
    }
}

impl MessageFields {
    /// No field at all.
    pub fn empty() -> (f: Self)
        ensures
            f@ == (FieldsView {
                path: None,
                interface: None,
                member: None,
                error_name: None,
                reply_serial: None,
                destination: None,
                sender: None,
                signature: None,
                unix_fds: None,
            }),
    {
        MessageFields {
            path: None,
            interface: None,
            member: None,
            error_name: None,
            reply_serial: None,
            destination: None,
            sender: None,
            signature: None,
            unix_fds: None,
        }
    }
}

impl Clone for MessageFields {
    fn clone(&self) -> (f: Self)
        ensures
            f@ == self@,
    {
        MessageFields {
            path: cloned(&self.path),
            interface: cloned(&self.interface),
            member: cloned(&self.member),
            error_name: cloned(&self.error_name),
            reply_serial: self.reply_serial,
            destination: cloned(&self.destination),
            sender: cloned(&self.sender),
            signature: cloned(&self.signature),
            unix_fds: self.unix_fds,
        }
    }
}

/// A copy of a list of file descriptors.
fn copy_fds(src: &[i32]) -> (out: Vec<i32>)
    ensures
        out@ == src@,
{
    let mut out: Vec<i32> = Vec::new();
    let mut i: usize = 0;
    while i < src.len()
        invariant
            i <= src.len(),
            out@ == src@.subrange(0, i as int),
        decreases src.len() - i,
    {
        out.push(src[i]);
        i = i + 1;
        assert(out@ =~= src@.subrange(0, i as int));
    }
    assert(src@.subrange(0, i as int) =~= src@);
    out
}

/// A copy of a byte string.
fn copy_bytes(src: &[u8]) -> (out: Vec<u8>)
    ensures
        out@ == src@,
{
    let mut out: Vec<u8> = Vec::new();
    push_bytes(&mut out, src);
    assert(out@ =~= src@);
    out
}

impl Clone for Message {
    fn clone(&self) -> (m: Self)
        ensures
            m@ == self@,
    {
        proof {
            use_type_invariant(self);
        }
        Message {
            primary: self.primary,
            fields: self.fields.clone(),
            body: copy_bytes(self.body.as_slice()),
            fds: copy_fds(self.fds.as_slice()),
        }
    }
}

impl Message {
    /// Whether the parts of the message fit together. Every message does.
    pub open spec fn wf(&self) -> bool {
        parts_fit(self@)
    }

    #[verifier::type_invariant]
    spec fn fits(self) -> bool {
        parts_fit(self@)
    }

    /// Every message is well formed.
    pub fn is_well_formed(&self)
        ensures
            self.wf(),
    {
        proof {
            use_type_invariant(self);
        }
    }

    /// Puts a message together from its parts, where they fit.
    pub fn from_parts(
        primary: PrimaryHeader,
        fields: MessageFields,
        body: Vec<u8>,
        fds: Vec<i32>,
    ) -> (r: Result<Message, Error>)
        ensures
            match checked_parts(
                MessageView { primary: primary, fields: fields@, body: body@, fds: fds@ },
            ) {
                Ok(m) => r matches Ok(msg) && msg@ == m,
                Err(e) => r matches Err(got) && got == Error::Variant(e),
            },
    {
        match &fields.signature {
            Some(s) => {
                if !validate(s.as_str().as_bytes()) {
                    return Err(Error::Variant(VariantError::InvalidSignature));
                }
            },
            None => {},
        }
        let required: bool = match primary.msg_type {
            MessageType::MethodCall => fields.path.is_some() && fields.member.is_some(),
            MessageType::MethodReturn => fields.reply_serial.is_some(),
            MessageType::Error => fields.reply_serial.is_some() && fields.error_name.is_some(),
            MessageType::Signal => fields.path.is_some() && fields.interface.is_some()
                && fields.member.is_some(),
        };
        let counted: bool = match fields.unix_fds {
            Some(n) => n as usize == fds.len(),
            None => fds.len() == 0,
        };
        if primary.protocol_version == PROTOCOL_VERSION && required && primary.body_len as usize
            == body.len() && (body.len() == 0 || fields.signature.is_some()) && counted {
            Ok(Message { primary, fields, body, fds })
        } else {
            Err(Error::Variant(VariantError::InvalidData))
        }
    }

    /// The fields that every new message starts from.
    fn new_fields(
        sender: Option<&str>,
        destination: Option<String>,
        signature: &str,
        body: &[u8],
        fds: &Vec<i32>,
    ) -> (f: MessageFields)
        requires
            fits_header(body@, fds@),
            is_signature(encode_utf8(signature@)),
        ensures
            f@ == base_fields(str_of(sender), text_of(destination), signature@, body@, fds@),
            signature_fits(f@),
    {
        MessageFields {
            path: None,
            interface: None,
            member: None,
            error_name: None,
            reply_serial: None,
            destination: destination,
            sender: owned(sender),
            signature: if body.len() > 0 {
                Some(String::from_str(signature))
            } else {
                None
            },
            unix_fds: if fds.len() > 0 {
                Some(fds.len() as u32)
            } else {
                None
            },
        }
    }

    /// The fixed header of a new message.
    fn new_header(t: MessageType, body: &[u8]) -> (p: PrimaryHeader)
        requires
            body@.len() <= u32::MAX,
        ensures
            p == new_primary(t, body@),
    {
        PrimaryHeader {
            endian: Endian::Little,
            msg_type: t,
            flags: 0,
            protocol_version: PROTOCOL_VERSION,
            body_len: body.len() as u32,
            serial_num: 0,
        }
    }

    /// A call of the method `method_name` on the object at `path`. `body`
    /// is the encoded body and `signature` its signature.
    pub fn method(
        sender: Option<&str>,
        destination: Option<&str>,
        path: &str,
        iface: Option<&str>,
        method_name: &str,
        signature: &str,
        body: &[u8],
        fds: Vec<i32>,
    ) -> (r: Result<Message, Error>)
        ensures
            match build_error(signature@, body@, fds@) {
                None => r matches Ok(m) && m.wf() && m@ == method_view(
                    str_of(sender),
                    str_of(destination),
                    path@,
                    str_of(iface),
                    method_name@,
                    signature@,
                    body@,
                    fds@,
                ),
                Some(err) => r matches Err(e) && e == Error::Variant(err),
            },
    {
        if !validate(signature.as_bytes()) {
            return Err(Error::Variant(VariantError::InvalidSignature));
        }
        if body.len() > u32::MAX as usize || fds.len() > u32::MAX as usize {
            return Err(Error::Variant(VariantError::InvalidData));
        }
        let mut fields = Self::new_fields(sender, owned(destination), signature, body, &fds);
        fields.path = Some(String::from_str(path));
        fields.interface = owned(iface);
        fields.member = Some(String::from_str(method_name));
        Ok(
            Message {
                primary: Self::new_header(MessageType::MethodCall, body),
                fields,
                body: copy_bytes(body),
                fds,
            },
        )
    }

    /// The signal `signal_name` of the object at `path`.
    pub fn signal(
        sender: Option<&str>,
        destination: Option<&str>,
        path: &str,
        iface: &str,
        signal_name: &str,
        signature: &str,
        body: &[u8],
        fds: Vec<i32>,
    ) -> (r: Result<Message, Error>)
        ensures
            match build_error(signature@, body@, fds@) {
                None => r matches Ok(m) && m.wf() && m@ == signal_view(
                    str_of(sender),
                    str_of(destination),
                    path@,
                    iface@,
                    signal_name@,
                    signature@,
                    body@,
                    fds@,
                ),
                Some(err) => r matches Err(e) && e == Error::Variant(err),
            },
    {
        if !validate(signature.as_bytes()) {
            return Err(Error::Variant(VariantError::InvalidSignature));
        }
        if body.len() > u32::MAX as usize || fds.len() > u32::MAX as usize {
            return Err(Error::Variant(VariantError::InvalidData));
        }
        let mut fields = Self::new_fields(sender, owned(destination), signature, body, &fds);
        fields.path = Some(String::from_str(path));
        fields.interface = Some(String::from_str(iface));
        fields.member = Some(String::from_str(signal_name));
        Ok(
            Message {
                primary: Self::new_header(MessageType::Signal, body),
                fields,
                body: copy_bytes(body),
                fds,
            },
        )
    }

    /// The reply to `call`.
    pub fn method_reply(
        sender: Option<&str>,
        call: &Message,
        signature: &str,
        body: &[u8],
        fds: Vec<i32>,
    ) -> (r: Result<Message, Error>)
        ensures
            match build_error(signature@, body@, fds@) {
                None => r matches Ok(m) && m.wf() && m@ == reply_view(
                    str_of(sender),
                    call@,
                    signature@,
                    body@,
                    fds@,
                ),
                Some(err) => r matches Err(e) && e == Error::Variant(err),
            },
    {
        if !validate(signature.as_bytes()) {
            return Err(Error::Variant(VariantError::InvalidSignature));
        }
        if body.len() > u32::MAX as usize || fds.len() > u32::MAX as usize {
            return Err(Error::Variant(VariantError::InvalidData));
        }
        let mut fields = Self::new_fields(
            sender,
            cloned(&call.fields.sender),
            signature,
            body,
            &fds,
        );
        fields.reply_serial = Some(call.primary.serial_num);
        Ok(
            Message {
                primary: Self::new_header(MessageType::MethodReturn, body),
                fields,
                body: copy_bytes(body),
                fds,
            },
        )
    }

    /// The error reply to `call`, with the error's name.
    pub fn method_error(
        sender: Option<&str>,
        call: &Message,
        error_name: &str,
        signature: &str,
        body: &[u8],
        fds: Vec<i32>,
    ) -> (r: Result<Message, Error>)
        ensures
            match build_error(signature@, body@, fds@) {
                None => r matches Ok(m) && m.wf() && m@ == error_view(
                    str_of(sender),
                    call@,
                    error_name@,
                    signature@,
                    body@,
                    fds@,
                ),
                Some(err) => r matches Err(e) && e == Error::Variant(err),
            },
    {
        if !validate(signature.as_bytes()) {
            return Err(Error::Variant(VariantError::InvalidSignature));
        }
        if body.len() > u32::MAX as usize || fds.len() > u32::MAX as usize {
            return Err(Error::Variant(VariantError::InvalidData));
        }
        let mut fields = Self::new_fields(
            sender,
            cloned(&call.fields.sender),
            signature,
            body,
            &fds,
        );
        fields.reply_serial = Some(call.primary.serial_num);
        fields.error_name = Some(String::from_str(error_name));
        Ok(
            Message {
                primary: Self::new_header(MessageType::Error, body),
                fields,
                body: copy_bytes(body),
                fds,
            },
        )
    }

    /// The parsed header.
    pub fn header(&self) -> (h: MessageHeader<'_>)
        ensures
            h.spec_primary() == self@.primary,
            h.spec_fields()@ == self@.fields,
    {
        MessageHeader { primary: &self.primary, fields: &self.fields }
    }

    /// The fixed part of the header.
    pub fn primary_header(&self) -> (p: PrimaryHeader)
        ensures
            p == self@.primary,
    {
        self.primary
    }

    /// The bytes of the body.
    pub fn body_bytes(&self) -> (b: &[u8])
        ensures
            b@ == self@.body,
    {
        self.body.as_slice()
    }

    /// The signature of the body, where the message has one.
    pub fn body_signature(&self) -> (s: Option<&str>)
        ensures
            str_of(s) == self@.fields.signature,
    {
        match &self.fields.signature {
            Some(sig) => Some(sig.as_str()),
            None => None,
        }
    }

    /// The file descriptors that travel with the message.
    pub fn fds(&self) -> (f: &[i32])
        ensures
            f@ == self@.fds,
    {
        self.fds.as_slice()
    }

    /// Sets the serial number of the message; nothing else changes.
    pub fn set_serial_num(&mut self, serial: u32)
        ensures
            final(self)@ == (MessageView {
                primary: PrimaryHeader { serial_num: serial, ..old(self)@.primary },
                ..old(self)@
            }),
    {
        proof {
            use_type_invariant(&*self);
        }
        self.primary.serial_num = serial;
    }

    /// The wire form of the message, or a refusal where it has none.
    pub fn to_bytes(&self) -> (r: Result<Vec<u8>, Error>)
        ensures
            if encodable(self@) {
                r matches Ok(bytes) && bytes@ == message_bytes(self@)
            } else {
                r matches Err(e) && e == Error::Variant(VariantError::InvalidData)
            },
    {
        match encode_message(&self.primary, &self.fields, self.body.as_slice()) {
            Ok(bytes) => Ok(bytes),
            Err(e) => Err(Error::Variant(e)),
        }
    }

    /// The message that `bytes` are, with the file descriptors that came
    /// with them.
    pub fn from_bytes(bytes: &[u8], fds: Vec<i32>) -> (r: Result<Message, Error>)
        ensures
            match parse_message(bytes@, fds@) {
                Ok(m) => r matches Ok(msg) && msg@ == m,
                Err(e) => r matches Err(got) && got == Error::Variant(e),
            },
    {
        match decode_message(bytes) {
            Ok((primary, fields, body)) => Message::from_parts(primary, fields, body, fds),
            Err(e) => Err(Error::Variant(e)),
        }
    }

    /// Reads the body as one string. A body with another signature, or
    /// none, is a mismatch.
    pub fn body_as_str(&self) -> (r: Result<&str, VariantError>)
        ensures
            match body_text(self@) {
                Ok(text) => r matches Ok(s) && s@ == text,
                Err(e) => r matches Err(got) && got == e,
            },
    {
        let signature: &str = match self.body_signature() {
            Some(s) => s,
            None => {
                return Err(VariantError::SignatureMismatch);
            },
        };
        let frame = match extract_slice(self.body.as_slice(), signature, self.primary.endian) {
            Ok(frame) => frame,
            Err(e) => {
                return Err(e);
            },
        };
        decode(frame, signature)
    }

    /// Reads the body as one value of the type of fixed size with the
    /// given code. A body with another signature, or none, is a mismatch.
    pub fn body_as_basic(&self, code: u8) -> (r: Result<Basic, VariantError>)
        requires
            code < 0x80,
        ensures
            r == body_basic(self@, code),
    {
        match self.body_signature() {
            Some(signature) => {
                if is_single_ascii(signature, code) {
                    Basic::decode(code, self.body.as_slice(), self.primary.endian)
                } else {
                    Err(VariantError::SignatureMismatch)
                }
            },
            None => Err(VariantError::SignatureMismatch),
        }
    }

    /// The failure that this error message reports to the caller of the
    /// method: it carries the error's name and the message itself.
    pub fn into_method_error(self) -> (e: Error)
        ensures
            e matches Error::MethodError { name, body } && body@ == self@ && name@
                == error_name_of(self@),
    {
        let name: String = match &self.fields.error_name {
            Some(n) => n.clone(),
            None => String::new(),
        };
        Error::MethodError { name: name, body: self }
    }
}

/// The text that the body of a message holds where the body is one
/// string.
pub open spec fn body_text(m: MessageView) -> Result<Seq<char>, VariantError> {
    match m.fields.signature {
        None => Err(VariantError::SignatureMismatch),
        Some(signature) => checked(
            signature,
            STRING,
            match str_extent(m.body, m.primary.endian) {
                Ok(n) => str_decoding(m.body.subrange(0, n)),
                Err(e) => Err(e),
            },
        ),
    }
}

/// The value that the body of a message holds where the body is one value
/// of the type of fixed size with the given code.
pub open spec fn body_basic(m: MessageView, code: u8) -> Result<Basic, VariantError> {
    if m.fields.signature == Some(seq![code as char]) {
        basic_decoding(code, m.body, m.primary.endian)
    } else {
        Err(VariantError::SignatureMismatch)
    }
}

/// The name of the error that a message reports; empty where it names
/// none.
pub open spec fn error_name_of(m: MessageView) -> Seq<char> {
    match m.fields.error_name {
        Some(n) => n,
        None => Seq::empty(),
    }
}

} // verus!
