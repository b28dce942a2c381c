use lnd_client::{
    channel_endpoint, channel_security, lnd_address, security_from_certificate, ChannelSecurity,
    ChannelSetupError,
};

#[test]
fn test_connect_returns_err_with_invalid_cert_hex() {
    let result = channel_endpoint("not-hex", "localhost:10009");
    assert!(matches!(result, Err(ChannelSetupError::InvalidCertificateHex(_))));
}

#[test]
fn endpoint_decodes_certificate() {
    let endpoint = channel_endpoint("0a1BfF", "localhost:10009").ok().unwrap();
    assert_eq!(endpoint.pem, vec![0x0a, 0x1b, 0xff]);
    assert_eq!(endpoint.uri.to_string(), "https://localhost:10009/");
    assert_eq!(
        endpoint.uri,
        "https://localhost:10009".parse::<hyper::Uri>().unwrap()
    );
}

#[test]
fn endpoint_rejects_odd_hex() {
    assert!(matches!(
        channel_endpoint("abc", "localhost:10009"),
        Err(ChannelSetupError::InvalidCertificateHex(_))
    ));
}

#[test]
fn endpoint_rejects_bad_socket() {
    assert!(matches!(
        channel_endpoint("00", "local host:10009"),
        Err(ChannelSetupError::InvalidUri(_))
    ));
}

#[test]
fn address_prefixes_https() {
    assert_eq!(lnd_address("localhost:10009"), "https://localhost:10009");
    assert_eq!(lnd_address(""), "https://");
}

fn self_signed_pem() -> &'static str {
    CERT_PEM
}

const CERT_PEM: &str = "-----BEGIN CERTIFICATE-----\nMIIBfTCCASOgAwIBAgIUQXgmlmjnGQtAekAa8ljjE0Ect8gwCgYIKoZIzj0EAwIw\nFDESMBAGA1UEAwwJbG9jYWxob3N0MB4XDTI2MTExOTExNDAwM1oXDTM2MTExNjEx\nNDAwM1owFDESMBAGA1UEAwwJbG9jYWxob3N0MFkwEwYHKoZIzj0CAQYIKoZIzj0D\nAQcDQgAEngdBjvVXYOhSw9nl2TRagBA0dqfvn7u+MGVblEHq/vtSHLnkTPaH/uMj\nxhfZFmfl2OJbURj3HjX8KOUgRHietaNTMFEwHQYDVR0OBBYEFNr6mUN4LppflG6x\nldcZ//KxP5tWMB8GA1UdIwQYMBaAFNr6mUN4LppflG6xldcZ//KxP5tWMA8GA1Ud\nEwEB/wQFMAMBAf8wCgYIKoZIzj0EAwIDSAAwRQIhAO0NuCbbNxQyXY5VkngNJC9B\nR1lhKOT8JLeoAjutCj3JAiAPitd6E1Th697SH0fszgiLlaae7zjTtT4/C3rkSbeC\nWA==\n-----END CERTIFICATE-----\n";

fn to_hex(bytes: &[u8]) -> String {
    bytes.iter().map(|b| format!("{:02x}", b)).collect()
}

#[test]
fn test_my_channel_new_with_invalid_cert() {
    let invalid_cert = vec![0, 1, 2, 3];
    assert!(channel_security(Some(invalid_cert)).is_err());
}

#[test]
fn security_from_read_outcome() {
    let read = openssl::x509::X509::from_pem(self_signed_pem().as_bytes());
    assert!(matches!(
        security_from_certificate(read),
        Ok(ChannelSecurity::Tls(_))
    ));
    let failed = openssl::x509::X509::from_pem(&[0, 1, 2, 3]);
    assert!(security_from_certificate(failed).is_err());
}

#[test]
fn cleartext_without_certificate() {
    assert!(matches!(channel_security(None), Ok(ChannelSecurity::ClearText)));
}

#[test]
fn hex_certificate_gives_tls() {
    let pem = self_signed_pem();
    let endpoint = channel_endpoint(&to_hex(pem.as_bytes()), "localhost:10009")
        .ok()
        .unwrap();
    assert_eq!(endpoint.pem, pem.as_bytes().to_vec());
    assert!(matches!(
        channel_security(Some(endpoint.pem)),
        Ok(ChannelSecurity::Tls(_))
    ));
}
