//! The names that both ends of the tunnel agree on when they set up TLS.

use rustls::pki_types::{InvalidDnsNameError, ServerName};
use vstd::prelude::*;
use vstd::string::*;
use vstd::utf8::*;

verus! {

/// The name of the protocol, and of the server.
pub const PROTOCOL: &'static str = "typroxy";

/// The name of a server, as TLS knows it.
#[verifier::external_type_specification]
#[verifier::external_body]
pub struct ExServerName<'a>(ServerName<'a>);

/// The answer to a text that names no server.
#[verifier::external_type_specification]
#[verifier::external_body]
pub struct ExInvalidDnsNameError(InvalidDnsNameError);

/// What `ServerName::try_from` makes of a text, in its owned form.
pub uninterp spec fn parsed_server_name(text: Seq<char>) -> Result<
    ServerName<'static>,
    InvalidDnsNameError,
>;

/// Whether `text` is a DNS name of one label, made of the letters `a` to `z`.
pub open spec fn is_plain_label(text: Seq<char>) -> bool {
    &&& 0 < text.len() <= 63
    &&& forall|i: int| 0 <= i < text.len() ==> 'a' <= #[trigger] text[i] <= 'z'
}

/// `ServerName::try_from` parses a text as a DNS name or an IP address, and `to_owned` copies
/// what it borrowed. The result depends on the text alone, and a plain label is a DNS name.
#[verifier::external_body]
fn parse_server_name(text: &str) -> (name: Result<ServerName<'static>, InvalidDnsNameError>)
    ensures
        name == parsed_server_name(text@),
        is_plain_label(text@) ==> name is Ok,
{
    ServerName::try_from(text).map(|name| name.to_owned())
}

/// Why the client cannot set up TLS.
#[derive(Clone, Copy, Debug, PartialEq, Eq, Structural)]
pub enum TlsError {
    /// The server has no valid name.
    InvalidServerName,
}

/// The server's name as the client expects it.
pub fn server_name() -> (name: Result<ServerName<'static>, TlsError>)
    ensures
        name is Ok,
        parsed_server_name(PROTOCOL@) is Ok,
        name->Ok_0 == parsed_server_name(PROTOCOL@)->Ok_0,
{
    proof {
        reveal_strlit("typroxy");
    }
    match parse_server_name(PROTOCOL) {
        Ok(name) => Ok(name),
        Err(_) => Err(TlsError::InvalidServerName),
    }
}

/// The application protocols that both ends offer, as TLS sends them.
pub fn alpn_protocols() -> (protocols: Vec<Vec<u8>>)
    ensures
        protocols@.len() == 1,
        protocols@[0]@ == encode_utf8(PROTOCOL@),
{
    let mut protocols: Vec<Vec<u8>> = Vec::new();
    protocols.push(PROTOCOL.as_bytes_vec());
    protocols
}

} // verus!
