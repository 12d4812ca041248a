//! Wyoming listen URIs.
//!
//! - `tcp://HOST:PORT` (e.g. `tcp://0.0.0.0:10400`, `tcp://[::]:10400`)
//! - `unix:///abs/path/to/socket` (absolute path required)
//! - `stdio://`: a single connection over stdin/stdout
//!
//! The scheme, the socket address of a TCP URI (as `SocketAddr` reads
//! it, see [`crate::sockaddr`]) and the unix path are checked here.

use vstd::prelude::*;

use crate::sockaddr::{socket_addr_ok, socket_addr_text};
use crate::text::{has_prefix, starts_with, str_eq};

verus! {

/// Where the Wyoming server listens.
#[derive(Debug, Clone, PartialEq, Eq)]
pub enum ListenAddr {
    /// The socket address text of a `tcp://` URI (`IPV4:PORT` or
    /// `[IPV6]:PORT`).
    Tcp(String),
    /// An absolute socket path.
    Unix(String),
    Stdio,
}

/// Why a listen URI was refused.
#[derive(Debug, Clone, PartialEq, Eq)]
pub enum UriError {
    /// A `tcp://` URI whose rest is no socket address (the rest is kept).
    InvalidTcpAddress(String),
    /// A `unix://` URI whose path is not absolute (the path is kept).
    RelativeUnixPath(String),
    /// None of the three schemes (the URI is kept).
    Unsupported(String),
}

pub ghost enum ListenView {
    Tcp(Seq<char>),
    Unix(Seq<char>),
    Stdio,
}

pub ghost enum UriFault {
    InvalidTcpAddress(Seq<char>),
    RelativeUnixPath(Seq<char>),
    Unsupported(Seq<char>),
}

impl View for ListenAddr {
    type V = ListenView;

    open spec fn view(&self) -> ListenView {
        match self {
            ListenAddr::Tcp(s) => ListenView::Tcp(s@),
            ListenAddr::Unix(s) => ListenView::Unix(s@),
            ListenAddr::Stdio => ListenView::Stdio,
        }
    }
}

impl View for UriError {
    type V = UriFault;

    open spec fn view(&self) -> UriFault {
        match self {
            UriError::InvalidTcpAddress(s) => UriFault::InvalidTcpAddress(s@),
            UriError::RelativeUnixPath(s) => UriFault::RelativeUnixPath(s@),
            UriError::Unsupported(s) => UriFault::Unsupported(s@),
        }
    }
}

/// What a listen URI means.
pub open spec fn uri_verdict(uri: Seq<char>) -> Result<ListenView, UriFault> {
    if has_prefix(uri, "tcp://"@) {
        let rest = uri.subrange(6, uri.len() as int);
        if socket_addr_text(rest) {
            Ok(ListenView::Tcp(rest))
        } else {
            Err(UriFault::InvalidTcpAddress(rest))
        }
    } else if has_prefix(uri, "unix://"@) {
        let rest = uri.subrange(7, uri.len() as int);
        if rest.len() > 0 && rest[0] == '/' {
            Ok(ListenView::Unix(rest))
        } else {
            Err(UriFault::RelativeUnixPath(rest))
        }
    } else if uri == "stdio://"@ {
        Ok(ListenView::Stdio)
    } else {
        Err(UriFault::Unsupported(uri))
    }
}

/// Parse a Wyoming listen URI.
pub fn parse(uri: &str) -> (r: Result<ListenAddr, UriError>)
    ensures
        match r {
            Ok(a) => uri_verdict(uri@) == Ok::<ListenView, UriFault>(a@),
            Err(e) => uri_verdict(uri@) == Err::<ListenView, UriFault>(e@),
        },
{
    proof {
        reveal_strlit("tcp://");
        reveal_strlit("unix://");
    }
    let n = uri.unicode_len();
    if starts_with(uri, "tcp://") {
        let rest = uri.substring_char(6, n);
        if socket_addr_ok(rest) {
            return Ok(ListenAddr::Tcp(rest.to_owned()));
        }
        return Err(UriError::InvalidTcpAddress(rest.to_owned()));
    }
    if starts_with(uri, "unix://") {
        let rest = uri.substring_char(7, n);
        if rest.unicode_len() > 0 && rest.get_char(0) == '/' {
            return Ok(ListenAddr::Unix(rest.to_owned()));
        }
        return Err(UriError::RelativeUnixPath(rest.to_owned()));
    }
    if str_eq(uri, "stdio://") {
        return Ok(ListenAddr::Stdio);
    }
    Err(UriError::Unsupported(uri.to_owned()))
}

/// The `HOST:PORT` texts of the TCP listeners among `a`, in order.
pub open spec fn tcp_texts(a: Seq<ListenAddr>) -> Seq<Seq<char>>
    decreases a.len(),
{
    if a.len() == 0 {
        Seq::empty()
    } else {
        let r = tcp_texts(a.drop_last());
        match a.last() {
            ListenAddr::Tcp(s) => r.push(s@),
            _ => r,
        }
    }
}

/// The `HOST:PORT` texts of the TCP listeners: what is announced over mDNS.
pub fn tcp_listeners(addrs: &Vec<ListenAddr>) -> (out: Vec<String>)
    ensures
        out@.map_values(|s: String| s@) == tcp_texts(addrs@),
{
    let mut out: Vec<String> = Vec::new();
    let mut i: usize = 0;
    while i < addrs.len()
        invariant
            i <= addrs@.len(),
            out@.map_values(|s: String| s@) == tcp_texts(addrs@.subrange(0, i as int)),
        decreases addrs@.len() - i,
    {
        assert(addrs@.subrange(0, i + 1).drop_last() =~= addrs@.subrange(0, i as int));
        match &addrs[i] {
            ListenAddr::Tcp(s) => {
                out.push(s.clone());
            },
            _ => {},
        }
        assert(out@.map_values(|s: String| s@) =~= tcp_texts(addrs@.subrange(0, i + 1)));
        i += 1;
    }
    assert(addrs@.subrange(0, addrs@.len() as int) =~= addrs@);
    out
}

} // verus!
