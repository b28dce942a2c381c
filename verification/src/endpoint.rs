use vstd::prelude::*;

verus! {

/// The error that `hex::decode` reports.
#[verifier::external_type_specification]
#[verifier::external_body]
pub struct ExFromHexError(hex::FromHexError);

/// A parsed URI.
#[verifier::external_type_specification]
#[verifier::external_body]
pub struct ExUri(hyper::Uri);

/// The error that parsing a URI reports.
#[verifier::external_type_specification]
#[verifier::external_body]
pub struct ExInvalidUri(hyper::http::uri::InvalidUri);

/// An X.509 certificate held by OpenSSL.
#[verifier::external_type_specification]
#[verifier::external_body]
pub struct ExX509(openssl::x509::X509);

/// The errors that an OpenSSL call reports.
#[verifier::external_type_specification]
#[verifier::external_body]
pub struct ExErrorStack(openssl::error::ErrorStack);

/// `c` is a hexadecimal digit, in either case.
pub open spec fn is_hex_digit(c: char) -> bool {
    ||| '0' <= c <= '9'
    ||| 'a' <= c <= 'f'
    ||| 'A' <= c <= 'F'
}

/// The value of a hexadecimal digit.
pub open spec fn hex_digit_value(c: char) -> int {
    if '0' <= c <= '9' {
        c as int - '0' as int
    } else if 'a' <= c <= 'f' {
        c as int - 'a' as int + 10
    } else {
        c as int - 'A' as int + 10
    }
}

/// `text` is an even number of hexadecimal digits.
pub open spec fn is_hex_text(text: Seq<char>) -> bool {
    &&& text.len() % 2 == 0
    &&& forall|i: int| 0 <= i < text.len() ==> #[trigger] is_hex_digit(text[i])
}

/// The bytes that hexadecimal text spells, two digits per byte, the first
/// digit the high half.
pub open spec fn hex_decoded(text: Seq<char>) -> Seq<u8> {
    Seq::new(
        text.len() / 2,
        |i: int| (16 * hex_digit_value(text[2 * i]) + hex_digit_value(text[2 * i + 1])) as u8,
    )
}

/// Whether `http` accepts `text` as a URI.
pub uninterp spec fn parses_as_uri(text: Seq<char>) -> bool;

/// The URI that `http` parses from `text`, where it accepts it.
pub uninterp spec fn uri_of(text: Seq<char>) -> hyper::Uri;

/// Calls `hex::decode` on the UTF-8 bytes of `text`. It succeeds exactly when
/// the text is an even number of hexadecimal digits (of either case), and then
/// gives two digits per byte, high half first. Which error variant a failure
/// carries is not stated.
#[verifier::external_body]
fn decode_hex(text: &str) -> (res: Result<Vec<u8>, hex::FromHexError>)
    ensures
        res is Ok <==> is_hex_text(text@),
        res matches Ok(bytes) ==> bytes@ == hex_decoded(text@),
{
    hex::decode(text)
}

/// Calls `str::parse::<hyper::Uri>`. Parsing depends on the text alone:
/// whether it succeeds is the named predicate `parses_as_uri` of the text,
/// and the URI it gives is the named `uri_of` the text; nothing is stated of
/// that URI's parts.
#[verifier::external_body]
fn parse_uri(text: &str) -> (res: Result<hyper::Uri, hyper::http::uri::InvalidUri>)
    ensures
        res is Ok <==> parses_as_uri(text@),
        res matches Ok(uri) ==> uri == uri_of(text@),
{
    text.parse::<hyper::Uri>()
}

/// Where and how to open the channel to one node: the decoded certificate
/// (PEM bytes) and the node's URI.
pub struct ChannelEndpoint {
    pub pem: Vec<u8>,
    pub uri: hyper::Uri,
}

/// Why the endpoint of a node could not be worked out.
pub enum ChannelSetupError {
    /// The certificate is not hexadecimal text.
    InvalidCertificateHex(hex::FromHexError),
    /// `https://` followed by the socket is not a URI.
    InvalidUri(hyper::http::uri::InvalidUri),
}

/// The address of a node: `https://` followed by its socket.
pub fn lnd_address(socket: &str) -> (address: String)
    ensures
        address@ == "https://"@ + socket@,
{
    let mut address = String::from_str("https://");
    address.append(socket);
    address
}

/// Works out the endpoint of a node from its hexadecimal certificate and
/// its `host:port` socket: the certificate is decoded first, then the
/// address `https://<socket>` is parsed.
pub fn channel_endpoint(cert: &str, socket: &str) -> (res: Result<
    ChannelEndpoint,
    ChannelSetupError,
>)
    ensures
        match res {
            Ok(endpoint) => is_hex_text(cert@) && parses_as_uri("https://"@ + socket@)
                && endpoint.pem@ == hex_decoded(cert@) && endpoint.uri == uri_of(
                "https://"@ + socket@,
            ),
            Err(ChannelSetupError::InvalidCertificateHex(_)) => !is_hex_text(cert@),
            Err(ChannelSetupError::InvalidUri(_)) => is_hex_text(cert@) && !parses_as_uri(
                "https://"@ + socket@,
            ),
        },
{
    let address = lnd_address(socket);
    let pem = match decode_hex(cert) {
        Ok(pem) => pem,
        Err(err) => {
            return Err(ChannelSetupError::InvalidCertificateHex(err));
        },
    };
    match parse_uri(address.as_str()) {
        Ok(uri) => Ok(ChannelEndpoint { pem, uri }),
        Err(err) => Err(ChannelSetupError::InvalidUri(err)),
    }
}

/// Whether `bytes` hold a PEM-encoded X.509 certificate that OpenSSL reads.
pub uninterp spec fn is_pem_certificate(bytes: Seq<u8>) -> bool;

/// Calls `openssl::x509::X509::from_pem` on all of `pem`. It panics on more
/// than `i32::MAX` bytes, which `requires` leaves out. It reads the first PEM
/// certificate in the bytes, so it succeeds exactly when the bytes hold one
/// (`is_pem_certificate`), whatever their length. The one other way the
/// source can fail, OpenSSL running out of memory, is taken not to happen, as
/// vstd takes Rust's own allocations to succeed.
#[verifier::external_body]
fn x509_from_pem(pem: &[u8]) -> (res: Result<openssl::x509::X509, openssl::error::ErrorStack>)
    requires
        pem@.len() <= i32::MAX,
    ensures
        res is Ok <==> is_pem_certificate(pem@),
{
    openssl::x509::X509::from_pem(pem)
}

/// How the channel to a node is secured.
pub enum ChannelSecurity {
    /// Plain HTTP/2, without TLS.
    ClearText,
    /// TLS, trusting this certificate authority.
    Tls(openssl::x509::X509),
}

/// Turns the outcome of reading a certificate into the channel's security:
/// a certificate that was read is trusted over TLS; a failure to read it is
/// the error, unchanged.
pub fn security_from_certificate(
    parsed: Result<openssl::x509::X509, openssl::error::ErrorStack>,
) -> (res: Result<ChannelSecurity, openssl::error::ErrorStack>)
    ensures
        match parsed {
            Ok(ca) => res matches Ok(ChannelSecurity::Tls(trusted)) && trusted == ca,
            Err(err) => res matches Err(e) && e == err,
        },
{
    match parsed {
        Ok(ca) => Ok(ChannelSecurity::Tls(ca)),
        Err(err) => Err(err),
    }
}

/// What securing a channel with `certificate` gives: clear text without a
/// certificate; with one, TLS when OpenSSL reads a certificate from all of
/// its bytes, and an error exactly when it does not.
pub open spec fn channel_security_outcome(
    certificate: Option<Seq<u8>>,
    res: Result<ChannelSecurity, openssl::error::ErrorStack>,
) -> bool {
    match certificate {
        None => res matches Ok(ChannelSecurity::ClearText),
        Some(pem) => match res {
            Ok(ChannelSecurity::Tls(_)) => is_pem_certificate(pem),
            Ok(ChannelSecurity::ClearText) => false,
            Err(_) => !is_pem_certificate(pem),
        },
    }
}

/// Two channels secured with the same certificate bytes agree: both are TLS
/// or both fail; a certificate that OpenSSL reads from all of its bytes is
/// trusted over TLS and never turned into an error, whatever its length; and
/// no certificate means clear text.
pub proof fn lemma_channel_security(
    pem: Seq<u8>,
    first: Result<ChannelSecurity, openssl::error::ErrorStack>,
    second: Result<ChannelSecurity, openssl::error::ErrorStack>,
    plain: Result<ChannelSecurity, openssl::error::ErrorStack>,
)
    requires
        channel_security_outcome(Some(pem), first),
        channel_security_outcome(Some(pem), second),
        channel_security_outcome(None, plain),
    ensures
        first is Ok <==> second is Ok,
        is_pem_certificate(pem) ==> first matches Ok(ChannelSecurity::Tls(_)),
        first is Ok ==> first matches Ok(ChannelSecurity::Tls(_)),
        plain matches Ok(ChannelSecurity::ClearText),
{
}

/// Decides how to secure the channel to a node: without a certificate the
/// channel is clear text; with one, it is TLS that trusts the certificate
/// read from all of its PEM bytes. The only error is the failure to read
/// that certificate, as `security_from_certificate` states of the outcome
/// of that read.
pub fn channel_security(certificate: Option<Vec<u8>>) -> (res: Result<
    ChannelSecurity,
    openssl::error::ErrorStack,
>)
    requires
        certificate matches Some(pem) ==> pem@.len() <= i32::MAX,
    ensures
        certificate is None ==> res matches Ok(ChannelSecurity::ClearText),
        certificate matches Some(pem) ==> match res {
            Ok(ChannelSecurity::Tls(_)) => is_pem_certificate(pem@),
            Ok(ChannelSecurity::ClearText) => false,
            Err(_) => !is_pem_certificate(pem@),
        },
        channel_security_outcome(
            match certificate {
                Some(pem) => Some(pem@),
                None => None,
            },
            res,
        ),
{
    match certificate {
        None => Ok(ChannelSecurity::ClearText),
        Some(pem) => security_from_certificate(x509_from_pem(pem.as_slice())),
    }
}

} // verus!
