use easy_rpc::method::{parse_method, str_eq};
use easy_rpc::msgpack::Field;
use easy_rpc::packet::{
    decode_header, encode_error, encode_notify, encode_reply, encode_request, prepare_notify,
    prepare_request, prepare_response, Header, Kind,
};
use easy_rpc::{Method, ProtocolError, ToMethod};

fn header(frame: &[u8]) -> Header {
    decode_header(frame).unwrap()
}

fn refused(frame: &[u8]) -> ProtocolError {
    decode_header(frame).unwrap_err()
}

fn text(len: usize) -> String {
    "abcdefghij".chars().cycle().take(len).collect()
}

#[test]
fn request_header_bytes() {
    assert_eq!(prepare_request(1, Method::Int(7)), vec![0x94, 0x00, 0x01, 0x07]);
    assert_eq!(
        prepare_request(5, Method::Str("add")),
        vec![0x94, 0x00, 0x05, 0xa3, b'a', b'd', b'd']
    );
}

#[test]
fn notify_header_bytes() {
    assert_eq!(prepare_notify(Method::Int(7)), vec![0x93, 0x02, 0x07]);
    assert_eq!(
        prepare_notify(Method::Str("print")),
        vec![0x93, 0x02, 0xa5, b'p', b'r', b'i', b'n', b't']
    );
}

#[test]
fn response_header_bytes() {
    assert_eq!(prepare_response(1), vec![0x94, 0x01, 0x01]);
    assert_eq!(prepare_response(300), vec![0x94, 0x01, 0xcd, 0x01, 0x2c]);
}

#[test]
fn integers_take_the_shortest_form() {
    assert_eq!(prepare_response(0), vec![0x94, 0x01, 0x00]);
    assert_eq!(prepare_response(0x7f), vec![0x94, 0x01, 0x7f]);
    assert_eq!(prepare_response(0x80), vec![0x94, 0x01, 0xcc, 0x80]);
    assert_eq!(prepare_response(0xff), vec![0x94, 0x01, 0xcc, 0xff]);
    assert_eq!(prepare_response(0x100), vec![0x94, 0x01, 0xcd, 0x01, 0x00]);
    assert_eq!(prepare_response(0xffff), vec![0x94, 0x01, 0xcd, 0xff, 0xff]);
    assert_eq!(prepare_response(0x1_0000), vec![0x94, 0x01, 0xce, 0x00, 0x01, 0x00, 0x00]);
    assert_eq!(prepare_response(0x1234_5678), vec![0x94, 0x01, 0xce, 0x12, 0x34, 0x56, 0x78]);
    assert_eq!(prepare_response(u32::MAX), vec![0x94, 0x01, 0xce, 0xff, 0xff, 0xff, 0xff]);
}

#[test]
fn strings_take_the_shortest_header() {
    let cases: [(usize, Vec<u8>); 7] = [
        (0, vec![0xa0]),
        (31, vec![0xbf]),
        (32, vec![0xd9, 32]),
        (255, vec![0xd9, 255]),
        (256, vec![0xda, 0x01, 0x00]),
        (65535, vec![0xda, 0xff, 0xff]),
        (65536, vec![0xdb, 0x00, 0x01, 0x00, 0x00]),
    ];
    for (len, head) in cases {
        let name = text(len);
        let mut want = vec![0x93, 0x02];
        want.extend_from_slice(&head);
        want.extend_from_slice(name.as_bytes());
        assert_eq!(prepare_notify(Method::Str(&name)), want, "length {}", len);
    }
}

#[test]
fn string_length_counts_bytes_not_chars() {
    let name = "añ€😀";
    assert_eq!(name.chars().count(), 4);
    assert_eq!(name.len(), 10);
    let mut want = vec![0x93, 0x02, 0xaa];
    want.extend_from_slice(name.as_bytes());
    assert_eq!(prepare_notify(Method::Str(name)), want);
    let h = header(&prepare_notify(Method::Str(name)));
    assert!(matches!(h.field, Field::Str(ref s) if s == name));
}

#[test]
fn method_serialize_appends() {
    let mut buf = vec![0xaa, 0xbb];
    Method::Int(0x1_0000).serialize(&mut buf);
    assert_eq!(buf, vec![0xaa, 0xbb, 0xce, 0x00, 0x01, 0x00, 0x00]);
    Method::Str("hi").serialize(&mut buf);
    assert_eq!(buf, vec![0xaa, 0xbb, 0xce, 0x00, 0x01, 0x00, 0x00, 0xa2, b'h', b'i']);
}

#[test]
fn headers_match_what_the_codec_writes() {
    for id in [0u32, 1, 127, 128, 255, 256, 65535, 65536, 0xdead_beef, u32::MAX] {
        for name in ["", "add", &text(40), &text(300)] {
            let mut want = Vec::new();
            rmp::encode::write_array_len(&mut want, 4).unwrap();
            rmp::encode::write_uint(&mut want, 0).unwrap();
            rmp::encode::write_uint(&mut want, id as u64).unwrap();
            rmp::encode::write_str(&mut want, name).unwrap();
            assert_eq!(prepare_request(id, Method::Str(name)), want);

            let mut want = Vec::new();
            rmp::encode::write_array_len(&mut want, 4).unwrap();
            rmp::encode::write_uint(&mut want, 1).unwrap();
            rmp::encode::write_uint(&mut want, id as u64).unwrap();
            rmp::encode::write_str(&mut want, name).unwrap();
            rmp::encode::write_nil(&mut want).unwrap();
            assert_eq!(encode_error(id, name), want);
        }
    }
}

#[test]
fn whole_frames() {
    assert_eq!(
        encode_request(2, Method::Str("add"), &[0x92, 0x01, 0x02]),
        vec![0x94, 0x00, 0x02, 0xa3, b'a', b'd', b'd', 0x92, 0x01, 0x02]
    );
    assert_eq!(
        encode_notify(Method::Int(300), &[0xc3]),
        vec![0x93, 0x02, 0xcd, 0x01, 0x2c, 0xc3]
    );
    assert_eq!(encode_reply(2, &[0x03]), vec![0x94, 0x01, 0x02, 0xc0, 0x03]);
    assert_eq!(
        encode_error(2, "no"),
        vec![0x94, 0x01, 0x02, 0xa2, b'n', b'o', 0xc0]
    );
}

#[test]
fn transfer_frame_is_header_then_payload() {
    let payload = rmp_serde::to_vec(&(1u32, "two", vec![3u8, 4])).unwrap();
    let mut want = prepare_request(9, Method::Str("m"));
    want.extend_from_slice(&payload);
    assert_eq!(encode_request(9, Method::Str("m"), &payload), want);
    let mut want = prepare_notify(Method::Int(4));
    want.extend_from_slice(&payload);
    assert_eq!(encode_notify(Method::Int(4), &payload), want);
}

#[test]
fn request_is_read_back() {
    for id in [1u32, 127, 128, 70_000, u32::MAX] {
        for name in ["add", &text(31), &text(32), &text(70_000)] {
            let head = prepare_request(id, Method::Str(name));
            let frame = encode_request(id, Method::Str(name), &[0x92, 0x01, 0x02]);
            let h = header(&frame);
            assert_eq!(h.kind, Kind::Request);
            assert_eq!(h.id, id);
            assert_eq!(h.body_at, head.len());
            assert_eq!(&frame[h.body_at..], &[0x92, 0x01, 0x02]);
            assert!(parse_method(&h.field).unwrap() == *name);
        }
        for number in [0u32, 7, 128, 65536, u32::MAX] {
            let frame = encode_request(id, Method::Int(number), &[]);
            let h = header(&frame);
            assert_eq!(h.kind, Kind::Request);
            assert_eq!(h.id, id);
            assert_eq!(h.body_at, frame.len());
            assert!(parse_method(&h.field).unwrap() == number);
        }
    }
}

#[test]
fn notify_is_read_back() {
    let frame = encode_notify(Method::Str("print"), &[0xa2, b'h', b'i']);
    let h = header(&frame);
    assert_eq!(h.kind, Kind::Notify);
    assert_eq!(h.id, 0);
    assert_eq!(&frame[h.body_at..], &[0xa2, b'h', b'i']);
    assert!(parse_method(&h.field).unwrap() == *"print");
}

#[test]
fn reply_is_read_back() {
    let frame = encode_reply(77, &[0x2a]);
    let h = header(&frame);
    assert_eq!(h.kind, Kind::Response);
    assert_eq!(h.id, 77);
    assert!(matches!(h.field, Field::Nil));
    assert_eq!(&frame[h.body_at..], &[0x2a]);
}

#[test]
fn error_is_read_back() {
    let frame = encode_error(77, "No this method");
    let h = header(&frame);
    assert_eq!(h.kind, Kind::Response);
    assert_eq!(h.id, 77);
    assert!(matches!(h.field, Field::Str(ref s) if s == "No this method"));
    assert_eq!(&frame[h.body_at..], &[0xc0]);
}

#[test]
fn integers_of_any_width_are_read() {
    let mut frame = Vec::new();
    rmp::encode::write_array_len(&mut frame, 4).unwrap();
    rmp::encode::write_u32(&mut frame, 0).unwrap();
    rmp::encode::write_u32(&mut frame, 5).unwrap();
    rmp::encode::write_u32(&mut frame, 9).unwrap();
    assert_eq!(frame.len(), 16);
    let h = header(&frame);
    assert_eq!((h.kind, h.id, h.body_at), (Kind::Request, 5, 16));
    assert!(parse_method(&h.field).unwrap() == 9u32);

    let wide = [0x94, 0xcf, 0, 0, 0, 0, 0, 0, 0, 1, 0xcd, 0x00, 0x07, 0xc0];
    let h = header(&wide);
    assert_eq!((h.kind, h.id, h.body_at), (Kind::Response, 7, 14));

    let signed = [0x94, 0xd0, 0x01, 0xd3, 0, 0, 0, 0, 0xff, 0xff, 0xff, 0xff, 0xc0, 0x01];
    let h = header(&signed);
    assert_eq!((h.kind, h.id, h.body_at), (Kind::Response, u32::MAX, 13));

    let signed = [0x93, 0xd1, 0x00, 0x02, 0xd2, 0x00, 0x00, 0x01, 0x00];
    let h = header(&signed);
    assert_eq!((h.kind, h.id, h.body_at), (Kind::Notify, 0, 9));
    assert!(parse_method(&h.field).unwrap() == 256u32);
}

#[test]
fn long_array_headers_are_read() {
    let h = header(&[0xdc, 0x00, 0x04, 0x01, 0x09, 0xc0]);
    assert_eq!((h.kind, h.id, h.body_at), (Kind::Response, 9, 6));
    let h = header(&[0xdd, 0x00, 0x00, 0x00, 0x03, 0x02, 0x05]);
    assert_eq!((h.kind, h.id, h.body_at), (Kind::Notify, 0, 7));
}

#[test]
fn reserved_byte_reads_as_nil() {
    let h = header(&[0x94, 0x01, 0x03, 0xc1, 0x2a]);
    assert_eq!((h.kind, h.id, h.body_at), (Kind::Response, 3, 4));
    assert!(matches!(h.field, Field::Nil));
}

#[test]
fn malformed_frames() {
    assert_eq!(refused(&[]), ProtocolError::Malformed);
    assert_eq!(refused(&[0x01, 0x02]), ProtocolError::Malformed);
    assert_eq!(refused(&[0x84, 0x00]), ProtocolError::Malformed);
    assert_eq!(refused(&[0xdc, 0x00]), ProtocolError::Malformed);
    assert_eq!(refused(&[0xdd, 0x00, 0x00, 0x00]), ProtocolError::Malformed);
    assert_eq!(refused(&[0x94]), ProtocolError::Malformed);
    assert_eq!(refused(&[0x94, 0xa1, b'x']), ProtocolError::Malformed);
    assert_eq!(refused(&[0x94, 0xc0]), ProtocolError::Malformed);
    assert_eq!(refused(&[0x94, 0xff]), ProtocolError::Malformed);
    assert_eq!(refused(&[0x94, 0xcd, 0x00]), ProtocolError::Malformed);
    assert_eq!(
        refused(&[0x94, 0xcf, 0, 0, 0, 1, 0, 0, 0, 0, 0x01, 0xc0]),
        ProtocolError::Malformed
    );
}

#[test]
fn unknown_type() {
    assert_eq!(refused(&[0x94, 0x03, 0x01, 0x07]), ProtocolError::UnknownType);
    assert_eq!(refused(&[0x93, 0x7f, 0x07]), ProtocolError::UnknownType);
    assert_eq!(refused(&[0x90, 0xce, 0xff, 0xff, 0xff, 0xff]), ProtocolError::UnknownType);
}

#[test]
fn bad_length() {
    assert_eq!(refused(&[0x93, 0x00, 0x01, 0x07]), ProtocolError::BadLength);
    assert_eq!(refused(&[0x95, 0x00, 0x01, 0x07, 0xc0, 0xc0]), ProtocolError::BadLength);
    assert_eq!(refused(&[0x93, 0x01, 0x01, 0xc0]), ProtocolError::BadLength);
    assert_eq!(refused(&[0x94, 0x02, 0x07, 0xc0, 0xc0]), ProtocolError::BadLength);
    assert_eq!(refused(&[0x92, 0x02, 0x07]), ProtocolError::BadLength);
}

#[test]
fn bad_id() {
    assert_eq!(refused(&[0x94, 0x00]), ProtocolError::BadId);
    assert_eq!(refused(&[0x94, 0x00, 0xa1, b'x', 0x07]), ProtocolError::BadId);
    assert_eq!(refused(&[0x94, 0x00, 0xff, 0x07]), ProtocolError::BadId);
    assert_eq!(refused(&[0x94, 0x01, 0xd0, 0x80, 0xc0]), ProtocolError::BadId);
    assert_eq!(
        refused(&[0x94, 0x01, 0xcf, 0, 0, 0, 1, 0, 0, 0, 0, 0xc0]),
        ProtocolError::BadId
    );
    assert_eq!(refused(&[0x94, 0x01, 0xce, 0x00, 0x00]), ProtocolError::BadId);
}

#[test]
fn bad_method() {
    assert_eq!(refused(&[0x94, 0x00, 0x01]), ProtocolError::BadMethod);
    assert_eq!(refused(&[0x94, 0x00, 0x01, 0xc3]), ProtocolError::BadMethod);
    assert_eq!(refused(&[0x94, 0x00, 0x01, 0x91, 0x07]), ProtocolError::BadMethod);
    assert_eq!(refused(&[0x94, 0x00, 0x01, 0xff]), ProtocolError::BadMethod);
    assert_eq!(refused(&[0x94, 0x00, 0x01, 0xd0, 0xff]), ProtocolError::BadMethod);
    assert_eq!(refused(&[0x94, 0x00, 0x01, 0xa2, 0xc3, 0x28]), ProtocolError::BadMethod);
    assert_eq!(refused(&[0x94, 0x00, 0x01, 0xa3, b'a', b'b']), ProtocolError::BadMethod);
    assert_eq!(refused(&[0x94, 0x00, 0x01, 0xc4, 0x01, 0x00]), ProtocolError::BadMethod);
    assert_eq!(refused(&[0x93, 0x02]), ProtocolError::BadMethod);
    assert_eq!(refused(&[0x93, 0x02, 0xca, 0, 0, 0, 0]), ProtocolError::BadMethod);
}

#[test]
fn nil_method_is_refused_later() {
    let h = header(&[0x93, 0x02, 0xc0, 0x01]);
    assert_eq!(h.kind, Kind::Notify);
    assert!(parse_method(&h.field).is_none());
}

#[test]
fn bad_error() {
    assert_eq!(refused(&[0x94, 0x01, 0x01]), ProtocolError::BadError);
    assert_eq!(refused(&[0x94, 0x01, 0x01, 0xc2]), ProtocolError::BadError);
    assert_eq!(refused(&[0x94, 0x01, 0x01, 0x80]), ProtocolError::BadError);
    assert_eq!(refused(&[0x94, 0x01, 0x01, 0xd9, 0x02, b'a']), ProtocolError::BadError);
    assert_eq!(refused(&[0x94, 0x01, 0x01, 0xa1, 0xff]), ProtocolError::BadError);
}

#[test]
fn method_numbers_above_32_bits_name_no_method() {
    assert!(parse_method(&Field::Uint(u32::MAX as u64)).unwrap() == u32::MAX);
    assert!(parse_method(&Field::Uint(0x1_0000_0000)).is_none());
    assert!(parse_method(&Field::Uint(0x1_0000_0005)).is_none());
    assert!(parse_method(&Field::Uint(u64::MAX)).is_none());
    let frame = [0x93, 0x02, 0xcf, 0, 0, 0, 1, 0, 0, 0, 5];
    let h = header(&frame);
    assert_eq!(h.kind, Kind::Notify);
    assert!(parse_method(&h.field).is_none());
    let frame = [0x93, 0x02, 0xcf, 0, 0, 0, 0, 0xff, 0xff, 0xff, 0xff];
    assert!(parse_method(&header(&frame).field).unwrap() == u32::MAX);
}

#[test]
fn parse_method_by_kind() {
    assert!(parse_method(&Field::Nil).is_none());
    assert!(matches!(parse_method(&Field::Uint(3)), Some(Method::Int(3))));
    let name = Field::Str("add".to_string());
    assert!(matches!(parse_method(&name), Some(Method::Str("add"))));
}

#[test]
fn method_equality() {
    assert!(Method::Int(7) == 7u32);
    assert!(Method::Int(7) != 8u32);
    assert!(Method::Str("7") != 7u32);
    assert!(Method::Str("add") == *"add");
    assert!(Method::Str("add") != *"adds");
    assert!(Method::Str("add") != *"sub");
    assert!(Method::Int(7) != *"7");
    assert!(Method::Int(7) == Method::Int(7));
    assert!(Method::Int(7) != Method::Int(9));
    assert!(Method::Str("a") == Method::Str("a"));
    assert!(Method::Str("a") != Method::Str("b"));
    assert!(Method::Str("a") != Method::Int(0));
}

#[test]
fn strings_compare_by_content() {
    assert!(str_eq("", ""));
    assert!(str_eq("héllo", "héllo"));
    assert!(!str_eq("héllo", "hello"));
    assert!(!str_eq("abc", "abd"));
    assert!(!str_eq("abc", "ab"));
    assert!(!str_eq("", "a"));
}

#[test]
fn to_method_of_each_kind() {
    assert!(matches!(7u32.to_method(), Method::Int(7)));
    assert!(matches!("add".to_method(), Method::Str("add")));
    assert!(matches!(Method::Int(3).to_method(), Method::Int(3)));
    assert!(matches!(Method::Str("x").to_method(), Method::Str("x")));
}
