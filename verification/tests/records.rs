use resolver::answer::Answer;
use resolver::error::DnsError;
use resolver::name::{label_to_bytes, pointer_to};
use resolver::rdata::encode_record_data;
use resolver::text::{parse_decimal, parse_hexadecimal, split_bytes, text_of};
use resolver::zone::{RCode, Record, RecordClass, RecordSet, RecordType};

fn set_of(record_type: RecordType, contents: &[&str]) -> RecordSet {
    RecordSet {
        name: "example.com.".to_string(),
        record_type,
        record_class: RecordClass::IN,
        ttl: 3600,
        records: contents
            .iter()
            .map(|content| Record { content: content.to_string(), is_disabled: false })
            .collect(),
    }
}

fn data(record_type: RecordType, content: &str) -> Option<Vec<u8>> {
    encode_record_data(record_type, content.as_bytes())
}

#[test]
fn split_keeps_empty_pieces() {
    assert_eq!(split_bytes(b"a.bc..d", b'.'), vec![b"a".to_vec(), b"bc".to_vec(), vec![], b"d".to_vec()]);
    assert_eq!(split_bytes(b"", b'.'), vec![Vec::<u8>::new()]);
    assert_eq!(split_bytes(b".", b'.'), vec![Vec::<u8>::new(), Vec::<u8>::new()]);
    assert_eq!(split_bytes(b"abc", b':'), vec![b"abc".to_vec()]);
}

#[test]
fn numbers_are_read_in_decimal() {
    assert_eq!(parse_decimal(b"0", 255), Some(0));
    assert_eq!(parse_decimal(b"255", 255), Some(255));
    assert_eq!(parse_decimal(b"007", 255), Some(7));
    assert_eq!(parse_decimal(b"+12", 255), Some(12));
    assert_eq!(parse_decimal(b"65535", 0xffff), Some(65535));
    assert_eq!(parse_decimal(b"4294967295", u32::MAX), Some(u32::MAX));
    assert_eq!(parse_decimal(b"4294967296", u32::MAX), None);
}

#[test]
fn numbers_that_are_none_are_refused() {
    assert_eq!(parse_decimal(b"", 255), None);
    assert_eq!(parse_decimal(b"+", 255), None);
    assert_eq!(parse_decimal(b"-1", 255), None);
    assert_eq!(parse_decimal(b"256", 255), None);
    assert_eq!(parse_decimal(b"65536", 0xffff), None);
    assert_eq!(parse_decimal(b"99999999999999999999", 0xffff), None);
    assert_eq!(parse_decimal(b"1a", 255), None);
    assert_eq!(parse_decimal(b" 1", 255), None);
    assert_eq!(parse_decimal(b"++1", 255), None);
}

#[test]
fn numbers_are_read_in_hexadecimal() {
    assert_eq!(parse_hexadecimal(b"ff", 0xffff), Some(0xff));
    assert_eq!(parse_hexadecimal(b"FfFf", 0xffff), Some(0xffff));
    assert_eq!(parse_hexadecimal(b"0db8", 0xffff), Some(0x0db8));
    assert_eq!(parse_hexadecimal(b"10000", 0xffff), None);
    assert_eq!(parse_hexadecimal(b"g", 0xffff), None);
    assert_eq!(parse_hexadecimal(b"", 0xffff), None);
}

#[test]
fn text_is_made_of_valid_utf8_only() {
    assert_eq!(text_of(b"example"), Some("example".to_string()));
    assert_eq!(text_of(&[0xc3, 0xa9]), Some("\u{e9}".to_string()));
    assert_eq!(text_of(&[0xc3]), None);
    assert_eq!(text_of(&[0xff]), None);
    assert_eq!(text_of(&[]), Some(String::new()));
}

#[test]
fn labels_are_written_without_a_terminator() {
    assert_eq!(
        label_to_bytes(b"www.example.com"),
        Some(vec![3, b'w', b'w', b'w', 7, b'e', b'x', b'a', b'm', b'p', b'l', b'e', 3, b'c', b'o', b'm'])
    );
}

#[test]
fn labels_of_a_name_that_ends_in_a_dot_end_in_zero() {
    assert_eq!(label_to_bytes(b"a.bc."), Some(vec![1, b'a', 2, b'b', b'c', 0]));
    assert_eq!(label_to_bytes(b""), Some(vec![0]));
}

#[test]
fn label_longer_than_its_length_byte_is_refused() {
    let long = vec![b'x'; 256];
    assert_eq!(label_to_bytes(&long), None);
    let fits = vec![b'x'; 255];
    assert_eq!(label_to_bytes(&fits).map(|wire| wire.len()), Some(256));
}

#[test]
fn pointers_hold_fourteen_bits() {
    assert_eq!(pointer_to(0), Some(0xc000));
    assert_eq!(pointer_to(12), Some(0xc00c));
    assert_eq!(pointer_to(0x3fff), Some(0xffff));
    assert_eq!(pointer_to(0x4000), None);
    assert_eq!(pointer_to(usize::MAX), None);
}

#[test]
fn a_record_is_four_octets() {
    assert_eq!(data(RecordType::A, "192.168.1.1"), Some(vec![192, 168, 1, 1]));
    assert_eq!(data(RecordType::A, "0.0.0.0"), Some(vec![0, 0, 0, 0]));
    assert_eq!(data(RecordType::A, "255.255.255.255"), Some(vec![255, 255, 255, 255]));
}

#[test]
fn a_record_with_bad_content_is_refused() {
    assert_eq!(data(RecordType::A, "1.2.3"), None);
    assert_eq!(data(RecordType::A, "1.2.3.4.5"), None);
    assert_eq!(data(RecordType::A, "256.1.1.1"), None);
    assert_eq!(data(RecordType::A, "a.b.c.d"), None);
    assert_eq!(data(RecordType::A, "1.2.3."), None);
    assert_eq!(data(RecordType::A, ""), None);
    assert_eq!(data(RecordType::A, "1.2.3.4 "), None);
}

#[test]
fn aaaa_record_is_sixteen_bytes() {
    assert_eq!(
        data(RecordType::AAAA, "2001:0db8:0000:0000:0000:0000:0000:0001"),
        Some(vec![0x20, 0x01, 0x0d, 0xb8, 0, 0, 0, 0, 0, 0, 0, 0, 0, 0, 0, 1])
    );
    assert_eq!(
        data(RecordType::AAAA, "2001:db8:0:0:0:0:0:1"),
        Some(vec![0x20, 0x01, 0x0d, 0xb8, 0, 0, 0, 0, 0, 0, 0, 0, 0, 0, 0, 1])
    );
    assert_eq!(
        data(RecordType::AAAA, "FFFF:ffff:1:2:3:4:5:abcd"),
        Some(vec![0xff, 0xff, 0xff, 0xff, 0, 1, 0, 2, 0, 3, 0, 4, 0, 5, 0xab, 0xcd])
    );
}

#[test]
fn aaaa_record_with_groups_left_out_is_refused() {
    assert_eq!(data(RecordType::AAAA, "2001:db8::1"), None);
    assert_eq!(data(RecordType::AAAA, "::1"), None);
    assert_eq!(data(RecordType::AAAA, "1:2:3:4:5:6:7"), None);
    assert_eq!(data(RecordType::AAAA, "1:2:3:4:5:6:7:8:9"), None);
    assert_eq!(data(RecordType::AAAA, "1:2:3:4:5:6:7:10000"), None);
    assert_eq!(data(RecordType::AAAA, "1:2:3:4:5:6:7:g"), None);
}

#[test]
fn cname_record_is_a_row_of_labels() {
    assert_eq!(
        data(RecordType::CNAME, "www.example.com"),
        Some(vec![3, b'w', b'w', b'w', 7, b'e', b'x', b'a', b'm', b'p', b'l', b'e', 3, b'c', b'o', b'm'])
    );
    assert_eq!(data(RecordType::CNAME, "a.b."), Some(vec![1, b'a', 1, b'b', 0]));
}

#[test]
fn cname_record_with_a_label_too_long_is_refused() {
    let long = "x".repeat(256);
    assert_eq!(data(RecordType::CNAME, &long), None);
    assert_eq!(data(RecordType::CNAME, &format!("www.{}.com", long)), None);
}

#[test]
fn cname_record_with_data_too_long_is_refused() {
    let label = "x".repeat(255);
    let mut name = String::new();
    for _ in 0..256 {
        name.push_str(&label);
        name.push('.');
    }
    assert!(name.len() + 1 > 0xffff);
    assert_eq!(data(RecordType::CNAME, &name), None);
}

#[test]
fn mx_record_is_preference_and_exchange() {
    assert_eq!(
        data(RecordType::MX, "10 mail.example.com"),
        Some(vec![0, 10, 4, b'm', b'a', b'i', b'l', 7, b'e', b'x', b'a', b'm', b'p', b'l', b'e', 3, b'c', b'o', b'm'])
    );
    assert_eq!(data(RecordType::MX, "258 a"), Some(vec![1, 2, 1, b'a']));
    assert_eq!(data(RecordType::MX, "65535 a"), Some(vec![0xff, 0xff, 1, b'a']));
}

#[test]
fn mx_record_reads_nothing_behind_a_second_space() {
    assert_eq!(data(RecordType::MX, "5 a.b more"), Some(vec![0, 5, 1, b'a', 1, b'b']));
}

#[test]
fn mx_record_with_fields_missing_is_refused() {
    assert_eq!(data(RecordType::MX, "10"), None);
    assert_eq!(data(RecordType::MX, ""), None);
    assert_eq!(data(RecordType::MX, "mail.example.com"), None);
    assert_eq!(data(RecordType::MX, "ten mail.example.com"), None);
    assert_eq!(data(RecordType::MX, "65536 mail.example.com"), None);
    assert_eq!(data(RecordType::MX, " 10 mail"), None);
}

#[test]
fn other_types_have_empty_data() {
    for record_type in [RecordType::NS, RecordType::PTR, RecordType::SOA, RecordType::SRV, RecordType::TXT] {
        assert_eq!(data(record_type, "whatever it says"), Some(vec![]));
        assert_eq!(data(record_type, ""), Some(vec![]));
    }
}

#[test]
fn record_set_becomes_one_answer_for_each_record() {
    let set = set_of(RecordType::A, &["10.0.0.1", "10.0.0.2", "10.0.0.3"]);
    let answers = Answer::from_record_set(0xc00c, set).unwrap();
    assert_eq!(answers.len(), 3);
    for (i, answer) in answers.iter().enumerate() {
        assert_eq!(answer.name_ptr, 0xc00c);
        assert_eq!(answer.atype, 1);
        assert_eq!(answer.aclass, 1);
        assert_eq!(answer.ttl, 3600);
        assert_eq!(answer.rdlength, 4);
        assert_eq!(answer.rdata, vec![10, 0, 0, i as u8 + 1]);
    }
}

#[test]
fn record_set_keeps_disabled_records() {
    let mut set = set_of(RecordType::A, &["10.0.0.1", "10.0.0.2"]);
    set.records[0].is_disabled = true;
    let answers = Answer::from_record_set(0xc00c, set).unwrap();
    assert_eq!(answers.len(), 2);
    assert_eq!(answers[0].rdata, vec![10, 0, 0, 1]);
}

#[test]
fn record_set_without_records_has_no_answers() {
    let answers = Answer::from_record_set(0xc00c, set_of(RecordType::MX, &[])).unwrap();
    assert!(answers.is_empty());
}

#[test]
fn record_set_with_one_bad_record_is_refused() {
    let set = set_of(RecordType::A, &["10.0.0.1", "10.0.0", "10.0.0.3"]);
    assert_eq!(Answer::from_record_set(0xc00c, set).err(), Some(DnsError::InvalidRecordContent));
    let set = set_of(RecordType::AAAA, &["2001:db8::1"]);
    assert_eq!(Answer::from_record_set(0xc00c, set).err(), Some(DnsError::InvalidRecordContent));
    let set = set_of(RecordType::MX, &["10"]);
    assert_eq!(Answer::from_record_set(0xc00c, set).err(), Some(DnsError::InvalidRecordContent));
}

#[test]
fn record_set_of_aaaa_has_sixteen_bytes_of_data() {
    let set = set_of(RecordType::AAAA, &["2001:0db8:0000:0000:0000:0000:0000:0001"]);
    let answers = Answer::from_record_set(0xc00c, set).unwrap();
    assert_eq!(answers.len(), 1);
    assert_eq!(answers[0].atype, 28);
    assert_eq!(answers[0].rdlength, 16);
    assert_eq!(answers[0].rdata.len(), 16);
    assert_eq!(answers[0].rdata[0..4], [0x20, 0x01, 0x0d, 0xb8]);
    assert_eq!(answers[0].rdata[15], 1);
}

#[test]
fn record_set_of_an_unsupported_type_has_empty_answers() {
    let mut set = set_of(RecordType::TXT, &["hello"]);
    set.record_class = RecordClass::CH;
    set.ttl = 7;
    let answers = Answer::from_record_set(0xc123, set).unwrap();
    assert_eq!(answers.len(), 1);
    assert_eq!(answers[0].name_ptr, 0xc123);
    assert_eq!(answers[0].atype, 16);
    assert_eq!(answers[0].aclass, 3);
    assert_eq!(answers[0].ttl, 7);
    assert_eq!(answers[0].rdlength, 0);
    assert!(answers[0].rdata.is_empty());
}

#[test]
fn record_types_have_their_codes() {
    let all = [
        (RecordType::A, 1),
        (RecordType::AAAA, 28),
        (RecordType::CNAME, 5),
        (RecordType::MX, 15),
        (RecordType::NS, 2),
        (RecordType::PTR, 12),
        (RecordType::SOA, 6),
        (RecordType::SRV, 33),
        (RecordType::TXT, 16),
    ];
    for (record_type, code) in all {
        assert_eq!(record_type.code(), code);
        assert_eq!(u16::from(record_type), code);
        assert_eq!(RecordType::try_from(code), Ok(record_type));
        assert_eq!(RecordType::try_from(code as i32), Ok(record_type));
    }
}

#[test]
fn record_type_of_an_unknown_code_is_refused() {
    for code in [0u16, 3, 4, 7, 17, 29, 255, 65535] {
        assert_eq!(RecordType::try_from(code), Err(DnsError::UnknownRecordType));
    }
    assert_eq!(RecordType::try_from(-1i32), Err(DnsError::UnknownRecordType));
    assert_eq!(RecordType::try_from(65537i32), Err(DnsError::UnknownRecordType));
}

#[test]
fn record_classes_have_their_codes() {
    for (class, code) in [(RecordClass::IN, 1u16), (RecordClass::CH, 3), (RecordClass::HS, 4)] {
        assert_eq!(class.code(), code);
        assert_eq!(u16::from(class), code);
        assert_eq!(RecordClass::from_i32(code as i32), Some(class));
    }
    assert_eq!(RecordClass::from_i32(2), None);
    assert_eq!(RecordClass::from_i32(0), None);
    assert_eq!(RecordClass::from_i32(-3), None);
}

#[test]
fn response_codes_have_their_values() {
    assert_eq!(RCode::NoError.code(), 0);
    assert_eq!(RCode::FormErr.code(), 1);
    assert_eq!(RCode::ServFail.code(), 2);
    assert_eq!(RCode::NXDomain.code(), 3);
    assert_eq!(RCode::NotImp.code(), 4);
    assert_eq!(RCode::Refused.code(), 5);
    assert_eq!(u8::from(RCode::NXDomain), 3);
    let code: u8 = RCode::ServFail.into();
    assert_eq!(code, 2);
}
