use tetrino::network::{decode_room_code, encode_room_code, parse_ip_reply};

#[test]
fn encode_decode_roundtrip() {
    let test_cases = [
        ("0.0.0.0", "ABCD"),
        ("255.255.255.255", "ZZZZ"),
        ("192.168.1.1", "A3F7"),
        ("10.0.0.1", "XYZ9"),
        ("203.0.113.42", "K7M2"),
    ];

    for (ip, room_code) in test_cases {
        let encoded = encode_room_code(ip, room_code).unwrap();
        assert!(encoded.starts_with("TR-"), "missing prefix: {}", encoded);
        assert_eq!(encoded.len(), "TR-".len() + 13);

        let (decoded_ip, decoded_code) = decode_room_code(&encoded).unwrap();
        assert_eq!(decoded_ip, ip);
        assert_eq!(decoded_code, room_code);
    }
}

#[test]
fn decode_rejects_bad_prefix() {
    let result = decode_room_code("XX-A7K2M9Q1X3FB");
    assert!(result.is_err());
}

#[test]
fn decode_rejects_wrong_length() {
    let result = decode_room_code("TR-ABC");
    assert!(result.is_err());
}

#[test]
fn decode_rejects_invalid_chars() {
    let result = decode_room_code("TR-0O0O0O0O0O0O0");
    assert!(result.is_err());
}

#[test]
fn encode_known_code() {
    // 0.0.0.0 with "AAAA": the bytes 00 00 00 00 41 41 41 41, shifted one bit.
    let code = encode_room_code("0.0.0.0", "AAAA").unwrap();
    assert_eq!(code, "TR-AAAAAACBIFAUC");
    let (ip, room) = decode_room_code(&code).unwrap();
    assert_eq!(ip, "0.0.0.0");
    assert_eq!(room, "AAAA");
}

#[test]
fn encode_error_messages() {
    assert_eq!(
        encode_room_code("256.0.0.1", "ABCD"),
        Err("invalid IP octet '256': number too large to fit in target type".to_string())
    );
    assert_eq!(
        encode_room_code("1..2.3", "ABCD"),
        Err("invalid IP octet '': cannot parse integer from empty string".to_string())
    );
    assert_eq!(
        encode_room_code("1.x.2.3", "ABCD"),
        Err("invalid IP octet 'x': invalid digit found in string".to_string())
    );
    assert_eq!(
        encode_room_code("1.2.3", "ABCD"),
        Err("IP must have exactly 4 octets".to_string())
    );
    assert_eq!(
        encode_room_code("1.2.3.4.5", "ABCD"),
        Err("IP must have exactly 4 octets".to_string())
    );
    assert_eq!(
        encode_room_code("1.2.3.4", "ABC"),
        Err("room code must be exactly 4 characters".to_string())
    );
    // Two bytes for é: five bytes in all.
    assert_eq!(
        encode_room_code("1.2.3.4", "ABCé"),
        Err("room code must be exactly 4 characters".to_string())
    );
    // The first bad octet is reported, before the count is checked.
    assert_eq!(
        encode_room_code("1.2.-3.4.5", "ABCD"),
        Err("invalid IP octet '-3': invalid digit found in string".to_string())
    );
}

#[test]
fn encode_accepts_plus_and_leading_zeros() {
    let a = encode_room_code("+1.02.003.4", "ABCD").unwrap();
    let b = encode_room_code("1.2.3.4", "ABCD").unwrap();
    assert_eq!(a, b);
    assert!(encode_room_code("+.2.3.4", "ABCD").is_err());
}

#[test]
fn decode_error_messages() {
    assert_eq!(
        decode_room_code("XX-A7K2M9Q1X3FB"),
        Err("code must start with 'TR-'".to_string())
    );
    assert_eq!(
        decode_room_code("TR-ABC"),
        Err("code must be 13 characters after prefix, got 3".to_string())
    );
    assert_eq!(
        decode_room_code("TR-0O0O0O0O0O0O0"),
        Err("invalid character '0' in code".to_string())
    );
}

#[test]
fn decode_trims_white_space() {
    let code = encode_room_code("10.0.0.1", "XYZ9").unwrap();
    let padded = format!("  \t{}\n ", code);
    let (ip, room) = decode_room_code(&padded).unwrap();
    assert_eq!(ip, "10.0.0.1");
    assert_eq!(room, "XYZ9");
}

#[test]
fn public_ip_reply() {
    let reply = "HTTP/1.1 200 OK\r\nContent-Type: text/plain\r\n\r\n203.0.113.42\n";
    assert_eq!(parse_ip_reply(reply), Ok("203.0.113.42".to_string()));
    let page = "HTTP/1.1 502 Bad Gateway\r\n\r\n<html>error</html>\r\n";
    assert_eq!(parse_ip_reply(page), Err("Invalid IP response".to_string()));
    assert_eq!(parse_ip_reply("HTTP/1.1 200 OK\r\n"), Err("Invalid IP response".to_string()));
    assert_eq!(parse_ip_reply(""), Err("Invalid IP response".to_string()));
    // Everything after the first blank line is the body.
    assert_eq!(parse_ip_reply("\n  1.2.3.4 \n\n"), Ok("1.2.3.4".to_string()));
}
