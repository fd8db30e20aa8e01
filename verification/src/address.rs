//! Addresses of buses: where the socket of a bus is found.

use vstd::prelude::*;
use vstd::slice::slice_subrange;
use crate::text::{bytes_eq, has_prefix, push_bytes, starts_with, word};

verus! {

/// Where the socket of a bus is found.
#[derive(Debug, Clone, PartialEq, Eq)]
pub enum Address {
    /// A socket at a path in the file system.
    UnixPath(Vec<u8>),
    /// A socket with a name in the abstract namespace.
    UnixAbstract(Vec<u8>),
    /// The socket `bus` in the runtime directory of the user.
    UnixRuntime,
}

/// An address as plain values.
pub enum AddressView {
    /// A socket at a path in the file system.
    UnixPath(Seq<u8>),
    /// A socket with a name in the abstract namespace.
    UnixAbstract(Seq<u8>),
    /// The socket `bus` in the runtime directory of the user.
    UnixRuntime,
}

impl View for Address {
    type V = AddressView;

    open spec fn view(&self) -> AddressView {
        match self {
            Address::UnixPath(p) => AddressView::UnixPath(p@),
            Address::UnixAbstract(n) => AddressView::UnixAbstract(n@),
            Address::UnixRuntime => AddressView::UnixRuntime,
        }
    }
}

/// The address that `text` spells: `unix:path=` and a path,
/// `unix:abstract=` and a name, or `unix:runtime=yes`; nothing else is an
/// address.
pub open spec fn address_of(text: Seq<u8>) -> Option<AddressView> {
    if has_prefix(text, word("unix:path="@)) {
        Some(AddressView::UnixPath(text.skip(word("unix:path="@).len() as int)))
    } else if has_prefix(text, word("unix:abstract="@)) {
        Some(AddressView::UnixAbstract(text.skip(word("unix:abstract="@).len() as int)))
    } else if text == word("unix:runtime=yes"@) {
        Some(AddressView::UnixRuntime)
    } else {
        None
    }
}

/// The address of the system bus where the environment names none.
pub open spec fn default_system_address() -> AddressView {
    AddressView::UnixPath(word("/var/run/dbus/system_bus_socket"@))
}

/// A copy of the bytes of `text` from `from` on.
fn tail(text: &[u8], from: usize) -> (out: Vec<u8>)
    requires
        from <= text@.len(),
    ensures
        out@ == text@.skip(from as int),
{
    let mut out: Vec<u8> = Vec::new();
    push_bytes(&mut out, slice_subrange(text, from, text.len()));
    assert(out@ =~= text@.skip(from as int));
    out
}

impl Address {
    /// Reads an address.
    pub fn parse(address: &str) -> (r: Option<Address>)
        ensures
            match address_of(word(address@)) {
                Some(a) => r matches Some(got) && got@ == a,
                None => r is None,
            },
    {
        let text = address.as_bytes();
        let path = "unix:path=".as_bytes();
        let name = "unix:abstract=".as_bytes();
        if starts_with(text, path) {
            Some(Address::UnixPath(tail(text, path.len())))
        } else if starts_with(text, name) {
            Some(Address::UnixAbstract(tail(text, name.len())))
        } else if bytes_eq(text, "unix:runtime=yes".as_bytes()) {
            Some(Address::UnixRuntime)
        } else {
            None
        }
    }

    /// The address of the session bus: what the environment variable
    /// `DBUS_SESSION_BUS_ADDRESS` holds, given here as `env`.
    pub fn session(env: Option<&str>) -> (r: Option<Address>)
        ensures
            match env {
                Some(text) => match address_of(word(text@)) {
                    Some(a) => r matches Some(got) && got@ == a,
                    None => r is None,
                },
                None => r is None,
            },
    {
        match env {
            Some(text) => Address::parse(text),
            None => None,
        }
    }

    /// The address of the system bus: what the environment names, given
    /// here as `env`, and the customary path where it names none.
    pub fn system(env: Option<&str>) -> (r: Option<Address>)
        ensures
            match env {
                Some(text) => match address_of(word(text@)) {
                    Some(a) => r matches Some(got) && got@ == a,
                    None => r is None,
                },
                None => r matches Some(got) && got@ == default_system_address(),
            },
    {
        match env {
            Some(text) => Address::parse(text),
            None => {
                let path = tail("/var/run/dbus/system_bus_socket".as_bytes(), 0);
                assert(path@ =~= word("/var/run/dbus/system_bus_socket"@));
                Some(Address::UnixPath(path))
            },
        }
    }

    /// The path of the socket in the file system, where the address names
    /// one. `runtime_dir` is what the environment variable
    /// `XDG_RUNTIME_DIR` holds; the socket of the runtime directory is the
    /// file `bus` in it.
    pub fn socket_path(&self, runtime_dir: &[u8]) -> (r: Option<Vec<u8>>)
        ensures
            match self@ {
                AddressView::UnixPath(p) => r matches Some(got) && got@ == p,
                AddressView::UnixAbstract(_) => r is None,
                AddressView::UnixRuntime => r matches Some(got) && got@ == runtime_dir@ + word(
                    "/bus"@,
                ),
            },
    {
        match self {
            Address::UnixPath(p) => {
                let path = tail(p.as_slice(), 0);
                assert(path@ =~= p@);
                Some(path)
            },
            Address::UnixAbstract(_) => None,
            Address::UnixRuntime => {
                let mut path: Vec<u8> = Vec::new();
                push_bytes(&mut path, runtime_dir);
                push_bytes(&mut path, "/bus".as_bytes());
                assert(path@ =~= runtime_dir@ + word("/bus"@));
                Some(path)
            },
        }
    }
}

} // verus!
