use resolver::answer::Answer;
use resolver::error::DnsError;
use resolver::header::Header;
use resolver::packet::DnsPacket;
use resolver::question::Question;

fn sample_header() -> Header {
    Header {
        id: 0xbeef,
        qr: true,
        opcode: 10,
        aa: true,
        tc: false,
        rd: true,
        ra: true,
        z: 5,
        rcode: 3,
        qdcount: 1,
        ancount: 0x0203,
        nscount: 4,
        arcount: 0xffff,
    }
}

fn question(name: &str, qtype: u16, qclass: u16) -> Question {
    Question { qname: name.to_string(), qtype, qclass }
}

fn query_bytes(id: u16, names: &[(&str, u16)]) -> Vec<u8> {
    let mut bytes = vec![(id >> 8) as u8, id as u8, 0x01, 0x00, 0, names.len() as u8, 0, 0, 0, 0, 0, 0];
    for (name, qtype) in names {
        if !name.is_empty() {
            for label in name.split('.') {
                bytes.push(label.len() as u8);
                bytes.extend_from_slice(label.as_bytes());
            }
        }
        bytes.push(0);
        bytes.extend_from_slice(&[(qtype >> 8) as u8, *qtype as u8, 0, 1]);
    }
    bytes
}

#[test]
fn header_is_written_bit_by_bit() {
    let bytes = sample_header().to_bytes();
    assert_eq!(
        bytes,
        vec![0xbe, 0xef, 0xd5, 0xd3, 0x00, 0x01, 0x02, 0x03, 0x00, 0x04, 0xff, 0xff]
    );
}

#[test]
fn header_round_trip_keeps_every_field() {
    let header = sample_header();
    let back = Header::from_bytes(&header.to_bytes());
    assert_eq!(back, Ok(header));
}

#[test]
fn header_round_trip_keeps_reserved_bits_alone() {
    let mut header = sample_header();
    header.qr = false;
    header.opcode = 0;
    header.aa = false;
    header.rd = false;
    header.ra = false;
    header.rcode = 0;
    header.z = 7;
    let bytes = header.to_bytes();
    assert_eq!(bytes[2], 0x00);
    assert_eq!(bytes[3], 0x70);
    assert_eq!(Header::from_bytes(&bytes), Ok(header));
}

#[test]
fn header_opcode_is_read_from_its_four_bits() {
    let bytes = [0u8, 1, 0b0111_1000, 0, 0, 0, 0, 0, 0, 0, 0, 0];
    let header = Header::from_bytes(&bytes).unwrap();
    assert_eq!(header.opcode, 15);
    assert!(!header.qr);
    assert!(!header.aa);
    assert!(!header.tc);
    assert!(!header.rd);
}

#[test]
fn header_of_a_standard_query() {
    let bytes = [0x12u8, 0x34, 0x01, 0x00, 0, 1, 0, 0, 0, 0, 0, 0];
    let header = Header::from_bytes(&bytes).unwrap();
    assert_eq!(header.id, 0x1234);
    assert!(!header.qr);
    assert_eq!(header.opcode, 0);
    assert!(header.rd);
    assert!(!header.ra);
    assert_eq!(header.z, 0);
    assert_eq!(header.rcode, 0);
    assert_eq!(header.qdcount, 1);
    assert_eq!(header.ancount, 0);
}

#[test]
fn header_reads_only_its_twelve_bytes() {
    let mut bytes = sample_header().to_bytes();
    bytes.extend_from_slice(&[9, 9, 9]);
    assert_eq!(Header::from_bytes(&bytes), Ok(sample_header()));
}

#[test]
fn header_of_eleven_bytes_is_malformed() {
    assert_eq!(Header::from_bytes(&[0u8; 11]), Err(DnsError::MalformedPacket));
    assert_eq!(Header::from_bytes(&[]), Err(DnsError::MalformedPacket));
}

#[test]
fn question_is_written_label_by_label() {
    let bytes = question("example.com", 1, 1).to_bytes();
    assert_eq!(
        bytes,
        vec![7, b'e', b'x', b'a', b'm', b'p', b'l', b'e', 3, b'c', b'o', b'm', 0, 0, 1, 0, 1]
    );
}

#[test]
fn question_type_and_class_are_big_endian() {
    let bytes = question("a", 0x1c, 0x0304).to_bytes();
    assert_eq!(bytes, vec![1, b'a', 0, 0x00, 0x1c, 0x03, 0x04]);
}

#[test]
fn question_length_is_name_length_plus_six() {
    let name = "www.example.org";
    assert_eq!(question(name, 1, 1).to_bytes().len(), name.len() + 6);
    assert_eq!(question("", 1, 1).to_bytes().len(), 6);
}

#[test]
fn question_is_read_back() {
    let bytes = question("www.example.org", 28, 1).to_bytes();
    let back = Question::from_bytes(&bytes).unwrap();
    assert_eq!(back.qname, "www.example.org");
    assert_eq!(back.qtype, 28);
    assert_eq!(back.qclass, 1);
}

#[test]
fn question_read_says_where_it_ends() {
    let mut bytes = vec![0xaa, 0xbb];
    bytes.extend_from_slice(&question("ab.c", 15, 1).to_bytes());
    bytes.push(0x77);
    let (found, next) = Question::read(&bytes, 2).unwrap();
    assert_eq!(found.qname, "ab.c");
    assert_eq!(found.qtype, 15);
    assert_eq!(next, 2 + 4 + 6);
}

#[test]
fn question_of_the_root_has_an_empty_name() {
    let found = Question::from_bytes(&[0, 0, 2, 0, 1]).unwrap();
    assert_eq!(found.qname, "");
    assert_eq!(found.qtype, 2);
}

#[test]
fn question_with_label_past_the_end_is_malformed() {
    let bytes = [5u8, b'a', b'b', 0, 0, 1, 0, 1];
    assert_eq!(Question::from_bytes(&bytes).err(), Some(DnsError::MalformedPacket));
}

#[test]
fn question_without_terminator_is_malformed() {
    let bytes = [2u8, b'a', b'b'];
    assert_eq!(Question::from_bytes(&bytes).err(), Some(DnsError::MalformedPacket));
    assert_eq!(Question::from_bytes(&[]).err(), Some(DnsError::MalformedPacket));
}

#[test]
fn question_cut_in_its_type_or_class_is_malformed() {
    let bytes = [1u8, b'a', 0, 0, 1, 0];
    assert_eq!(Question::from_bytes(&bytes).err(), Some(DnsError::MalformedPacket));
}

#[test]
fn question_with_label_that_is_no_text_is_malformed() {
    let bytes = [2u8, 0xff, 0xfe, 0, 0, 1, 0, 1];
    assert_eq!(Question::from_bytes(&bytes).err(), Some(DnsError::MalformedPacket));
    let cut = [1u8, 0xc3, 1, 0xa9, 0, 0, 1, 0, 1];
    assert_eq!(Question::from_bytes(&cut).err(), Some(DnsError::MalformedPacket));
}

#[test]
fn question_with_text_beyond_ascii_is_read() {
    let bytes = [2u8, 0xc3, 0xa9, 1, b'x', 0, 0, 1, 0, 1];
    let found = Question::from_bytes(&bytes).unwrap();
    assert_eq!(found.qname, "\u{e9}.x");
    assert_eq!(found.to_bytes(), bytes.to_vec());
}

#[test]
fn question_with_a_label_of_255_bytes_is_read_and_written() {
    let mut bytes = vec![255u8];
    bytes.extend_from_slice(&[b'x'; 255]);
    bytes.extend_from_slice(&[0, 0, 1, 0, 1]);
    let found = Question::from_bytes(&bytes).unwrap();
    assert_eq!(found.qname.len(), 255);
    assert_eq!(found.to_bytes(), bytes);
}

#[test]
fn pointer_to_the_first_question() {
    assert_eq!(question("example.com", 1, 1).get_name_offset(), 0xc00c);
    assert_eq!(question("a", 28, 1).get_name_offset(), 0xc000 | 12);
}

#[test]
fn answer_is_written_field_by_field() {
    let answer = Answer {
        name_ptr: 0xc00c,
        atype: 1,
        aclass: 1,
        ttl: 0x01020304,
        rdlength: 4,
        rdata: vec![10, 0, 0, 1],
    };
    assert_eq!(
        answer.to_bytes(),
        vec![0xc0, 0x0c, 0, 1, 0, 1, 1, 2, 3, 4, 0, 4, 10, 0, 0, 1]
    );
}

#[test]
fn answer_without_data_is_twelve_bytes() {
    let answer = Answer { name_ptr: 0xc00c, atype: 16, aclass: 1, ttl: 60, rdlength: 0, rdata: vec![] };
    assert_eq!(answer.to_bytes(), vec![0xc0, 0x0c, 0, 16, 0, 1, 0, 0, 0, 60, 0, 0]);
}

#[test]
fn packet_shorter_than_a_header_is_malformed() {
    for len in 0..12 {
        let bytes = vec![0u8; len];
        assert_eq!(DnsPacket::from_bytes(&bytes).err(), Some(DnsError::MalformedPacket));
    }
}

#[test]
fn packet_with_one_question_is_read() {
    let bytes = query_bytes(0x0102, &[("example.com", 1)]);
    let packet = DnsPacket::from_bytes(&bytes).unwrap();
    assert_eq!(packet.header.id, 0x0102);
    assert_eq!(packet.header.qdcount, 1);
    assert_eq!(packet.questions.len(), 1);
    assert_eq!(packet.questions[0].qname, "example.com");
    assert_eq!(packet.questions[0].qtype, 1);
    assert_eq!(packet.questions[0].qclass, 1);
    assert!(packet.answers.is_empty());
    assert!(packet.authorities.is_empty());
    assert!(packet.additionals.is_empty());
}

#[test]
fn packet_questions_of_different_lengths_are_read_in_sequence() {
    let bytes = query_bytes(7, &[("a.bc", 1), ("www.example.org", 28), ("x", 15)]);
    let packet = DnsPacket::from_bytes(&bytes).unwrap();
    assert_eq!(packet.questions.len(), 3);
    assert_eq!(packet.questions[0].qname, "a.bc");
    assert_eq!(packet.questions[1].qname, "www.example.org");
    assert_eq!(packet.questions[1].qtype, 28);
    assert_eq!(packet.questions[2].qname, "x");
    assert_eq!(packet.questions[2].qtype, 15);
}

#[test]
fn packet_without_questions_is_read() {
    let bytes = query_bytes(9, &[]);
    let packet = DnsPacket::from_bytes(&bytes).unwrap();
    assert_eq!(packet.header.qdcount, 0);
    assert!(packet.questions.is_empty());
}

#[test]
fn packet_with_fewer_questions_than_counted_is_malformed() {
    let mut bytes = query_bytes(9, &[("example.com", 1)]);
    bytes[5] = 2;
    assert_eq!(DnsPacket::from_bytes(&bytes).err(), Some(DnsError::MalformedPacket));
}

#[test]
fn packet_records_behind_the_questions_are_not_read() {
    let mut bytes = query_bytes(9, &[("example.com", 1)]);
    bytes[7] = 1;
    bytes[9] = 2;
    bytes[11] = 3;
    bytes.extend_from_slice(&[0xc0, 0x0c, 0, 1, 0, 1, 0, 0, 0, 1, 0, 4, 1, 2, 3, 4]);
    let packet = DnsPacket::from_bytes(&bytes).unwrap();
    assert_eq!(packet.header.ancount, 1);
    assert_eq!(packet.header.nscount, 2);
    assert_eq!(packet.header.arcount, 3);
    assert_eq!(packet.questions.len(), 1);
    assert!(packet.answers.is_empty());
    assert!(packet.authorities.is_empty());
    assert!(packet.additionals.is_empty());
}

#[test]
fn packet_is_written_section_by_section() {
    let record = |ptr: u16, data: Vec<u8>| Answer {
        name_ptr: ptr,
        atype: 1,
        aclass: 1,
        ttl: 5,
        rdlength: data.len() as u16,
        rdata: data,
    };
    let packet = DnsPacket {
        header: Header {
            id: 1,
            qr: true,
            opcode: 0,
            aa: false,
            tc: false,
            rd: false,
            ra: false,
            z: 0,
            rcode: 0,
            qdcount: 1,
            ancount: 1,
            nscount: 1,
            arcount: 1,
        },
        questions: vec![question("a.b", 1, 1)],
        answers: vec![record(0xc00c, vec![1, 1, 1, 1])],
        authorities: vec![record(0xc00c, vec![2, 2])],
        additionals: vec![record(0xc00c, vec![])],
    };
    let mut expected = vec![0, 1, 0x80, 0, 0, 1, 0, 1, 0, 1, 0, 1];
    expected.extend_from_slice(&[1, b'a', 1, b'b', 0, 0, 1, 0, 1]);
    expected.extend_from_slice(&[0xc0, 0x0c, 0, 1, 0, 1, 0, 0, 0, 5, 0, 4, 1, 1, 1, 1]);
    expected.extend_from_slice(&[0xc0, 0x0c, 0, 1, 0, 1, 0, 0, 0, 5, 0, 2, 2, 2]);
    expected.extend_from_slice(&[0xc0, 0x0c, 0, 1, 0, 1, 0, 0, 0, 5, 0, 0]);
    assert_eq!(packet.to_bytes(), expected);
}

#[test]
fn packet_query_is_written_as_it_was_read() {
    let bytes = query_bytes(0x4242, &[("example.com", 1), ("mail.example.com", 15)]);
    let packet = DnsPacket::from_bytes(&bytes).unwrap();
    assert_eq!(packet.to_bytes(), bytes);
}

#[test]
fn header_with_a_field_too_wide_is_not_well_formed() {
    assert!(sample_header().is_well_formed());
    let mut header = sample_header();
    header.opcode = 16;
    assert!(!header.is_well_formed());
    let mut header = sample_header();
    header.z = 8;
    assert!(!header.is_well_formed());
    let mut header = sample_header();
    header.rcode = 16;
    assert!(!header.is_well_formed());
}

#[test]
fn question_with_a_label_too_long_is_not_well_formed() {
    assert!(question("example.com", 1, 1).is_well_formed());
    assert!(question("", 1, 1).is_well_formed());
    assert!(question(&"x".repeat(255), 1, 1).is_well_formed());
    assert!(!question(&"x".repeat(256), 1, 1).is_well_formed());
    assert!(!question(&format!("www.{}.com", "x".repeat(300)), 1, 1).is_well_formed());
}

#[test]
fn answer_that_announces_another_length_is_not_well_formed() {
    let mut answer =
        Answer { name_ptr: 0xc00c, atype: 1, aclass: 1, ttl: 1, rdlength: 4, rdata: vec![1, 2, 3, 4] };
    assert!(answer.is_well_formed());
    answer.rdlength = 3;
    assert!(!answer.is_well_formed());
}

#[test]
fn packet_with_a_wrong_count_is_not_well_formed() {
    let bytes = query_bytes(3, &[("example.com", 1)]);
    let mut packet = DnsPacket::from_bytes(&bytes).unwrap();
    assert!(packet.is_well_formed());
    packet.header.ancount = 1;
    assert!(!packet.is_well_formed());
    packet.answers.push(Answer {
        name_ptr: 0xc00c,
        atype: 1,
        aclass: 1,
        ttl: 1,
        rdlength: 0,
        rdata: vec![],
    });
    assert!(packet.is_well_formed());
    packet.answers[0].rdlength = 9;
    assert!(!packet.is_well_formed());
    packet.answers[0].rdlength = 0;
    packet.header.qdcount = 2;
    assert!(!packet.is_well_formed());
    packet.questions.push(question(&"y".repeat(256), 1, 1));
    assert!(!packet.is_well_formed());
}
