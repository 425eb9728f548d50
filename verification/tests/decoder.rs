use propdump::propdump::{decode, restore_newlines, DecodeError, Object, Propdump};

fn v3(records: &[u8]) -> Vec<u8> {
    let mut data = b"propdump version 3\r\n".to_vec();
    data.extend_from_slice(records);
    data
}

fn v4(records: &[u8]) -> Vec<u8> {
    let mut data = b"propdump version 4\r\n".to_vec();
    data.extend_from_slice(records);
    data
}

/// Replaces the line terminators of a text field by their marks.
fn mark(text: &[u8]) -> Vec<u8> {
    let mut out = text.to_vec();
    for i in 0..out.len() {
        if text[i] == b'\n' {
            out[i] = 0x7F;
            if i > 0 && text[i - 1] == b'\r' {
                out[i - 1] = 0x80;
            }
        }
    }
    out
}

#[test]
fn version3_record_with_name_only() {
    let data = v3(b"7 1000 1.5 -2 3e1 0 90.5 180 3 0 0 abc\r\n");
    let objects = decode(data).unwrap();
    assert_eq!(objects.len(), 1);
    let o = &objects[0];
    assert_eq!(o.id, 7);
    assert_eq!(o.timestamp, 1000);
    assert_eq!(o.x, b"1.5".to_vec());
    assert_eq!(o.y, b"-2".to_vec());
    assert_eq!(o.z, b"3e1".to_vec());
    assert_eq!(o.yaw, b"0".to_vec());
    assert_eq!(o.tilt, b"90.5".to_vec());
    assert_eq!(o.roll, b"180".to_vec());
    assert_eq!(o.kind, 0);
    assert_eq!(o.name, b"abc".to_vec());
    assert_eq!(o.name.len(), 3);
    assert!(o.description.is_empty());
    assert!(o.action.is_empty());
    assert!(o.payload.is_empty());
}

#[test]
fn header_alone_yields_no_records() {
    assert_eq!(decode(v3(b"")), Ok(Vec::<Object>::new()));
    assert_eq!(decode(v4(b"")), Ok(Vec::<Object>::new()));
}

#[test]
fn unknown_banner_is_a_format_error() {
    assert_eq!(decode(b"propdump version 5\r\n".to_vec()), Err(DecodeError::Format));
    assert_eq!(decode(b"propdump version 3\n".to_vec()), Err(DecodeError::Format));
    assert_eq!(decode(b"Propdump version 3\r\n".to_vec()), Err(DecodeError::Format));
    assert_eq!(decode(Vec::new()), Err(DecodeError::Format));
    assert!(Propdump::new(b"propdump version 4\r\n".to_vec()).unwrap().is_v4());
    assert!(!Propdump::new(b"propdump version 3\r\n".to_vec()).unwrap().is_v4());
    assert_eq!(Propdump::new(b"propdump version 4\r\n".to_vec()).unwrap().position(), 20);
}

#[test]
fn version4_record_with_kind_and_payload() {
    let data = v4(b"12 34 0 0 0 0 0 0 5 2 3 4 3 hidescact00aBFf\r\n");
    let objects = decode(data).unwrap();
    assert_eq!(objects.len(), 1);
    let o = &objects[0];
    assert_eq!(o.id, 12);
    assert_eq!(o.timestamp, 34);
    assert_eq!(o.kind, 5);
    assert_eq!(o.name, b"hi".to_vec());
    assert_eq!(o.description, b"des".to_vec());
    assert_eq!(o.action, b"cact".to_vec());
    assert_eq!(o.payload, vec![0x00, 0xAB, 0xFF]);
}

#[test]
fn version3_record_ignores_what_looks_like_a_payload() {
    // In version 3 the ninth token is the length of the name, and nothing is
    // read as a payload.
    let data = v3(b"1 2 0 0 0 0 0 0 2 0 1 abZ\r\n5 6 0 0 0 0 0 0 0 0 0 \r\n");
    let objects = decode(data).unwrap();
    assert_eq!(objects.len(), 2);
    assert_eq!(objects[0].kind, 0);
    assert_eq!(objects[0].name, b"ab".to_vec());
    assert_eq!(objects[0].action, b"Z".to_vec());
    assert!(objects[0].payload.is_empty());
    assert_eq!(objects[1].id, 5);
    assert!(objects[1].payload.is_empty());
}

#[test]
fn line_terminators_are_restored_in_description_and_action() {
    let mut record = b"1 2 0 0 0 0 0 0 2 4 3 na".to_vec();
    record.extend_from_slice(&[b'a', 0x80, 0x7F, b'b']);
    record.extend_from_slice(&[0x7F, b'x', 0x7F]);
    record.extend_from_slice(b"\r\n");
    let objects = decode(v3(&record)).unwrap();
    assert_eq!(objects[0].name, b"na".to_vec());
    assert_eq!(objects[0].description, b"a\r\nb".to_vec());
    assert_eq!(objects[0].action, b"\nx\n".to_vec());
}

#[test]
fn the_name_is_not_restored() {
    let mut record = b"1 2 0 0 0 0 0 0 2 0 0 ".to_vec();
    record.extend_from_slice(&[0x80, 0x7F]);
    record.extend_from_slice(b"\r\n");
    let objects = decode(v3(&record)).unwrap();
    assert_eq!(objects[0].name, vec![0x80, 0x7F]);
}

#[test]
fn restore_newlines_on_given_buffers() {
    let mut buffer = vec![0x7F];
    restore_newlines(&mut buffer);
    assert_eq!(buffer, b"\n".to_vec());

    let mut buffer = vec![0x80, 0x7F];
    restore_newlines(&mut buffer);
    assert_eq!(buffer, b"\r\n".to_vec());

    let mut buffer = vec![b'a', 0x80, 0x7F, 0x80, b'b', 0x7F, 0x7F, 0x80];
    restore_newlines(&mut buffer);
    assert_eq!(buffer, vec![b'a', b'\r', b'\n', 0x80, b'b', b'\n', b'\n', 0x80]);

    let mut buffer: Vec<u8> = Vec::new();
    restore_newlines(&mut buffer);
    assert!(buffer.is_empty());
}

#[test]
fn marking_and_restoring_gives_the_text_back() {
    let texts: [&[u8]; 6] = [
        b"",
        b"one line",
        b"first\r\nsecond\r\n",
        b"\nleading and lone\rreturn\n",
        b"\r\n\r\n",
        b"ends with return\r",
    ];
    for text in texts.iter() {
        let mut buffer = mark(text);
        restore_newlines(&mut buffer);
        assert_eq!(&buffer[..], *text);
    }
}

#[test]
fn first_token_that_cannot_be_read_ends_the_records() {
    let good = b"1 2 0 0 0 0 0 0 1 0 0 a\r\n";
    let mut data = good.to_vec();
    data.extend_from_slice(b"garbage here");
    let objects = decode(v3(&data)).unwrap();
    assert_eq!(objects.len(), 1);

    let mut data = good.to_vec();
    data.extend_from_slice(b"12");
    assert_eq!(decode(v3(&data)).unwrap().len(), 1);
}

#[test]
fn malformed_later_token_is_a_frame_error_at_its_offset() {
    // The third token begins at offset 20 + 4.
    assert_eq!(decode(v3(b"1 2 x 0 0 0 0 0 1 0 0 a\r\n")), Err(DecodeError::Frame(24)));
    // The record ends after its second token.
    assert_eq!(decode(v3(b"1 2 ")), Err(DecodeError::Frame(24)));
    // A token without the space that closes it.
    assert_eq!(decode(v3(b"1 2")), Err(DecodeError::Frame(22)));
    // A length that is no number.
    assert_eq!(decode(v3(b"1 2 0 0 0 0 0 0 -1 0 0 a\r\n")), Err(DecodeError::Frame(36)));
    // An identifier too large for 32 bits ends the records, being the first token.
    assert_eq!(decode(v3(b"99999999999 2 0 0 0 0 0 0 1 0 0 a\r\n")), Ok(Vec::new()));
    // A timestamp too large for 32 bits is a frame error.
    assert_eq!(
        decode(v3(b"1 2147483648 0 0 0 0 0 0 1 0 0 a\r\n")),
        Err(DecodeError::Frame(22))
    );
}

#[test]
fn a_broken_record_hides_the_records_before_it() {
    let data = v3(b"1 2 0 0 0 0 0 0 1 0 0 a\r\n3 4 bad 0 0 0 0 0 1 0 0 a\r\n");
    assert_eq!(decode(data), Err(DecodeError::Frame(20 + 25 + 4)));
}

#[test]
fn short_field_is_a_frame_error_at_the_start_of_the_field() {
    // The name begins at offset 20 + 22 and wants five bytes; three are left.
    assert_eq!(decode(v3(b"1 2 0 0 0 0 0 0 5 0 0 abc")), Err(DecodeError::Frame(42)));
    // The description begins after the name.
    assert_eq!(decode(v3(b"1 2 0 0 0 0 0 0 1 9 0 abc")), Err(DecodeError::Frame(43)));
    // The action begins after the description.
    assert_eq!(decode(v3(b"1 2 0 0 0 0 0 0 1 1 9 abc")), Err(DecodeError::Frame(44)));
    // The payload wants two bytes for each of its own.
    assert_eq!(decode(v4(b"1 2 0 0 0 0 0 0 0 1 0 0 2 aABC")), Err(DecodeError::Frame(47)));
    // A length as large as the machine can hold.
    assert_eq!(
        decode(v3(b"1 2 0 0 0 0 0 0 18446744073709551615 0 0 abc")),
        Err(DecodeError::Frame(61))
    );
}

#[test]
fn stray_payload_byte_is_a_payload_error_at_its_offset() {
    assert_eq!(
        decode(v4(b"1 2 0 0 0 0 0 0 0 1 0 0 2 aABxD\r\n")),
        Err(DecodeError::Payload(49))
    );
    assert_eq!(
        decode(v4(b"1 2 0 0 0 0 0 0 0 0 0 0 1 +f\r\n")),
        Err(DecodeError::Payload(46))
    );
    assert_eq!(
        decode(v4(b"1 2 0 0 0 0 0 0 0 0 0 0 1 fg\r\n")),
        Err(DecodeError::Payload(47))
    );
}

#[test]
fn missing_terminator_at_the_end_is_no_error() {
    assert_eq!(decode(v3(b"1 2 0 0 0 0 0 0 1 0 0 a")).unwrap().len(), 1);
    assert_eq!(decode(v3(b"1 2 0 0 0 0 0 0 1 0 0 a\r")).unwrap().len(), 1);
}

#[test]
fn the_terminator_is_passed_over_whatever_it_holds() {
    let objects = decode(v3(b"1 2 0 0 0 0 0 0 1 0 0 aXY3 4 0 0 0 0 0 0 1 0 0 b\r\n")).unwrap();
    assert_eq!(objects.len(), 2);
    assert_eq!(objects[1].id, 3);
    assert_eq!(objects[1].name, b"b".to_vec());
}

#[test]
fn next_walks_the_records_and_then_stays_at_the_end() {
    let mut dump =
        Propdump::new(v4(b"1 2 0 0 0 0 0 0 9 1 0 0 0 a\r\n3 4 0 0 0 0 0 0 8 1 0 0 1 b0a\r\n"))
            .unwrap();
    assert_eq!(dump.position(), 20);
    let first = dump.next().unwrap().unwrap();
    assert_eq!(first.id, 1);
    assert_eq!(first.kind, 9);
    assert_eq!(dump.position(), 20 + 29);
    let second = dump.next().unwrap().unwrap();
    assert_eq!(second.id, 3);
    assert_eq!(second.payload, vec![0x0a]);
    assert_eq!(dump.position(), 20 + 29 + 31);
    assert_eq!(dump.next(), Ok(None));
    assert_eq!(dump.next(), Ok(None));
    assert_eq!(dump.position(), 20 + 29 + 31);
}

#[test]
fn next_repeats_an_error_and_stays_in_place() {
    let mut dump = Propdump::new(v3(b"1 2 0 0 0 0 0 0 1 0 0 a\r\n3 zz ")).unwrap();
    assert!(dump.next().unwrap().is_some());
    let at = dump.position();
    assert_eq!(dump.next(), Err(DecodeError::Frame(at + 2)));
    assert_eq!(dump.next(), Err(DecodeError::Frame(at + 2)));
    assert_eq!(dump.position(), at);
}

#[test]
fn declared_lengths_are_the_lengths_of_the_fields() {
    let data = v4(b"1 2 0 0 0 0 0 0 0 3 2 1 4 abcdex01020304\r\n");
    let objects = decode(data).unwrap();
    assert_eq!(objects[0].name.len(), 3);
    assert_eq!(objects[0].description.len(), 2);
    assert_eq!(objects[0].action.len(), 1);
    assert_eq!(objects[0].payload.len(), 4);
    assert_eq!(objects[0].payload, vec![1, 2, 3, 4]);
}

#[test]
fn signs_and_special_numbers_are_accepted_in_tokens() {
    let data = v3(b"-5 +6 inf -Infinity NaN 1.e5 .5 +3.25E-2 +1 0 0 a\r\n");
    let objects = decode(data).unwrap();
    assert_eq!(objects[0].id, -5);
    assert_eq!(objects[0].timestamp, 6);
    assert_eq!(objects[0].x, b"inf".to_vec());
    assert_eq!(objects[0].y, b"-Infinity".to_vec());
    assert_eq!(objects[0].z, b"NaN".to_vec());
    assert_eq!(objects[0].yaw, b"1.e5".to_vec());
    assert_eq!(objects[0].tilt, b".5".to_vec());
    assert_eq!(objects[0].roll, b"+3.25E-2".to_vec());
    assert_eq!(objects[0].name, b"a".to_vec());
}
