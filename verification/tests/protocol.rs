use exocore::transport::p2p::protocol::{decode_msg_len, encode_msg_len, parse_message_header, MessageHeaderError};

#[test]
fn test_encode_decode_msg_len() {
    let tv = vec![
        (7, true),
        (7, false),
        (2 << 9, true),
        (2 << 9, false),
        (2 << 18, true),
        (2 << 18, false),
        (2 << 26, true),
        (2 << 26, false),
    ];

    for (len, stream) in tv {
        let mut size_buf = vec![0; 4];
        encode_msg_len(len, stream, &mut size_buf);

        let (decoded_len, decoded_stream) = decode_msg_len(&size_buf);
        assert_eq!(decoded_len, len, "{} {}", len, stream);
        assert_eq!(stream, decoded_stream, "{} {}", len, stream);
    }
}

#[test]
fn msg_len_is_little_endian_with_stream_bit() {
    let mut buf = vec![0u8; 6];
    encode_msg_len(0x0102_0304, true, &mut buf);
    assert_eq!(buf, vec![0x04, 0x03, 0x02, 0x81, 0, 0]);

    let mut buf = vec![0u8; 4];
    encode_msg_len(1, false, &mut buf);
    assert_eq!(buf, vec![1, 0, 0, 0]);
    assert_eq!(decode_msg_len(&[0xff, 0xff, 0xff, 0xff]), (0x7fff_ffff, true));
}

#[test]
fn message_header_too_large() {
    let mut buf = vec![0u8; 4];
    encode_msg_len(20 * 1024 * 1024, false, &mut buf);
    assert_eq!(parse_message_header(&buf), Ok((20 * 1024 * 1024, false)));

    encode_msg_len(20 * 1024 * 1024 + 1, true, &mut buf);
    assert_eq!(parse_message_header(&buf), Err(MessageHeaderError::TooLarge));
}
