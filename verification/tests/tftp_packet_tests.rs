use rack_director::tftp::packet::{read_string, read_u16, Error, Packet};

#[test]
fn test_read_u16() {
    let bytes = [0x00, 0xFF, 0x00];
    let result = read_u16(&bytes[0..3]);
    assert!(result.is_ok());
    assert_eq!(result.unwrap(), (255_u16, &bytes[2..3]));
}

#[test]
fn test_read_u16_empty() {
    let bytes: [u8; 0] = [];
    let result = read_u16(&bytes[0..0]);
    assert!(result.is_err());
}

#[test]
fn test_read_string_empty() {
    let bytes: [u8; 0] = [];
    let result = read_string(&bytes[0..0]);
    assert!(result.is_err());
}

#[test]
fn test_read_string_no_terminator() {
    let bytes = [b'A', b'B'];
    let result = read_string(&bytes[0..2]);
    assert!(result.is_err());
}

#[test]
fn test_read_string() {
    let bytes = [b'A', b'B', b'\0'];
    let result = read_string(&bytes[0..3]);
    assert!(result.is_ok());
    assert_eq!(result.unwrap(), ("AB".to_owned(), &bytes[3..3]));
}

#[test]
fn test_read_string_remainder() {
    let bytes = [b'A', b'B', b'\0', b'X'];
    let result = read_string(&bytes[0..4]);
    assert!(result.is_ok());
    assert_eq!(result.unwrap(), ("AB".to_owned(), &bytes[3..4]));
}

#[test]
fn test_parse_rrq() {
    let bytes = [0x00, 0x01, b'A', b'A', b'\0', b'B', b'B', b'\0'];
    let result = Packet::parse(&bytes[..]);
    assert!(result.is_ok());
    assert_eq!(
        result.unwrap(),
        Packet::Rrq {
            filename: "AA".to_owned(),
            mode: "BB".to_owned()
        }
    );
}

#[test]
fn test_parse_wrq() {
    let bytes = [0x00, 0x02, b'A', b'A', b'\0', b'B', b'B', b'\0'];
    let result = Packet::parse(&bytes[..]);
    assert!(result.is_ok());
    assert_eq!(
        result.unwrap(),
        Packet::Wrq {
            filename: "AA".to_owned(),
            mode: "BB".to_owned()
        }
    );
}

#[test]
fn test_parse_data() {
    let bytes = [0x00, 0x03, 0x00, 0x01, b'B', b'B'];
    let result = Packet::parse(&bytes[..]);
    assert!(result.is_ok());
    assert_eq!(
        result.unwrap(),
        Packet::Data {
            block: 1,
            data: b"BB".to_vec()
        }
    );
}

#[test]
fn test_parse_ack() {
    let bytes = [0x00, 0x04, 0x00, 0x01];
    let result = Packet::parse(&bytes[..]);
    assert!(result.is_ok());
    assert_eq!(result.unwrap(), Packet::Ack { block: 1 });
}

#[test]
fn test_parse_err() {
    let bytes = [0x00, 0x05, 0x00, 0x02, b'B', b'B', b'\0'];
    let result = Packet::parse(&bytes[..]);
    assert!(result.is_ok());
    assert_eq!(
        result.unwrap(),
        Packet::Error {
            code: Error::AccessViolation,
            message: "BB".to_owned()
        }
    );
}

#[test]
fn test_tftp_round_trip() {
    let packets = vec![
        Packet::Rrq {
            filename: "ipxe.efi".to_owned(),
            mode: "octet".to_owned(),
        },
        Packet::Wrq {
            filename: "undionly.kpxe".to_owned(),
            mode: "netascii".to_owned(),
        },
        Packet::Data {
            block: 7,
            data: vec![1, 2, 3, 4, 5],
        },
        Packet::Ack { block: 9 },
        Packet::Error {
            code: Error::FileNotFound,
            message: "missing".to_owned(),
        },
        Packet::Error {
            code: Error::Unknown { code: 42 },
            message: "odd".to_owned(),
        },
    ];
    for p in packets {
        let bytes = p.to_bytes();
        let q = Packet::parse(&bytes).unwrap();
        assert_eq!(q, p);
        let bytes2 = q.to_bytes();
        assert_eq!(bytes2, bytes);
    }
}

#[test]
fn test_tftp_ack_opcode_is_four() {
    let bytes = Packet::Ack { block: 3 }.to_bytes();
    assert_eq!(bytes, vec![0x00, 0x04, 0x00, 0x03]);
}

#[test]
fn test_tftp_strings_end_with_null_byte() {
    let bytes = Packet::Rrq {
        filename: "a".to_owned(),
        mode: "b".to_owned(),
    }
    .to_bytes();
    assert_eq!(bytes, vec![0x00, 0x01, b'a', 0x00, b'b', 0x00]);
}

#[test]
fn test_tftp_unknown_opcode_rejected() {
    let bytes = [0x00, 0x09, 0x00, 0x00];
    assert!(Packet::parse(&bytes[..]).is_err());
}

#[test]
fn test_can_initiate() {
    let rrq = Packet::Rrq {
        filename: "f".to_owned(),
        mode: "octet".to_owned(),
    };
    let wrq = Packet::Wrq {
        filename: "f".to_owned(),
        mode: "octet".to_owned(),
    };
    let ack = Packet::Ack { block: 0 };
    let data = Packet::Data {
        block: 1,
        data: vec![],
    };
    let err = Packet::Error {
        code: Error::Undefined,
        message: String::new(),
    };
    assert!(rrq.can_initiate());
    assert!(wrq.can_initiate());
    assert!(!ack.can_initiate());
    assert!(!data.can_initiate());
    assert!(!err.can_initiate());
}

#[test]
fn test_tftp_error_code_round_trip() {
    for code in 0u16..=7 {
        assert_eq!(Error::from_code(code).code(), code);
    }
    assert_eq!(Error::from_code(42), Error::Unknown { code: 42 });
    assert_eq!(Error::Unknown { code: 42 }.code(), 42);
}

#[test]
fn test_read_string_decodes_utf8() {
    // A two-byte UTF-8 sequence before the terminator.
    let bytes = [0xC3, 0xA9, 0x00];
    let (s, rest) = read_string(&bytes[..]).unwrap();
    assert_eq!(s, "\u{e9}");
    assert!(rest.is_empty());
}
