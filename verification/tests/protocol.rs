use udpcp::bytes::{get_u16, get_u32, get_u64, put_bytes, put_u16, put_u32, put_u64};
use udpcp::digest::{same_digest, FileDigest, SHA256_DIGEST_SIZE};
use udpcp::path::{file_name, tmp_path};
use udpcp::protocol::{
    count_chunks, decode_header, decode_nack_payload, encode_control, encode_header, encode_nack_payload, encode_packet,
    is_timeout, parse_packet, PacketHeader, PacketType, HEADER_SIZE, MAX_CHUNK_SIZE, MAX_NACKS_PER_PACKET, MAX_NANOS,
};
use udpcp::text::{chars_of, has_control, put_decimal};
use udpcp::{validate_chunk_size, ErrorKind, ProtocolVersion, RecvLimits, SendLimits};

#[test]
fn short_buffer_decodes_to_no_header() {
    assert!(decode_header(&[]).is_none());
    assert!(decode_header(&[PacketType::Init.to_byte(); HEADER_SIZE - 1]).is_none());
}

#[test]
fn chunk_size_zero_rejected() {
    assert!(validate_chunk_size(0, ProtocolVersion::V1).is_err());
}

#[test]
fn chunk_size_one_accepted() {
    assert!(validate_chunk_size(1, ProtocolVersion::V1).is_ok());
}

#[test]
fn chunk_size_max_accepted() {
    assert!(validate_chunk_size(MAX_CHUNK_SIZE, ProtocolVersion::V1).is_ok());
}

#[test]
fn chunk_size_above_max_rejected() {
    assert!(validate_chunk_size(MAX_CHUNK_SIZE + 1, ProtocolVersion::V1).is_err());
}

#[test]
fn chunk_size_v2_reserves_hash_room() {
    let max_v2 = MAX_CHUNK_SIZE - SHA256_DIGEST_SIZE as u32;
    assert!(validate_chunk_size(max_v2, ProtocolVersion::V2).is_ok());
    assert!(validate_chunk_size(max_v2 + 1, ProtocolVersion::V2).is_err());
}

#[test]
fn chunk_size_refusal_names_the_limit() {
    assert_eq!(
        validate_chunk_size(0, ProtocolVersion::V1),
        Err("chunk size must be in [1, 65500]".to_string())
    );
    assert_eq!(
        validate_chunk_size(65500, ProtocolVersion::V2),
        Err("chunk size must be in [1, 65468]".to_string())
    );
}

#[test]
fn type_and_version_bytes() {
    let types = [
        PacketType::Init,
        PacketType::Ack,
        PacketType::Data,
        PacketType::Done,
        PacketType::Nack,
        PacketType::Fin,
        PacketType::FinAck,
    ];
    for (i, packet_type) in types.into_iter().enumerate() {
        assert_eq!(packet_type.to_byte(), i as u8 + 1);
        assert_eq!(PacketType::try_from(i as u8 + 1), Ok(packet_type));
    }
    assert_eq!(PacketType::try_from(0), Err(()));
    assert_eq!(PacketType::try_from(8), Err(()));
    assert_eq!(ProtocolVersion::V1.to_byte(), 1);
    assert_eq!(ProtocolVersion::V2.to_byte(), 2);
    assert_eq!(ProtocolVersion::try_from(2), Ok(ProtocolVersion::V2));
    assert_eq!(ProtocolVersion::try_from(3), Err(()));
    assert!(ProtocolVersion::for_verify(true).verifies());
    assert!(!ProtocolVersion::for_verify(false).verifies());
}

#[test]
fn header_is_laid_out_big_endian() {
    let header = PacketHeader { packet_type: PacketType::Data, seq: 0x0102_0304, payload_len: 0x0506 };
    let mut buf = [9u8; 9];
    encode_header(&header, &mut buf);
    assert_eq!(buf, [3, 1, 2, 3, 4, 5, 6, 9, 9]);
    assert_eq!(decode_header(&buf), Some(header));
}

#[test]
fn packet_round_trip_and_overrun() {
    let header = PacketHeader { packet_type: PacketType::Nack, seq: 7, payload_len: 3 };
    let packet = encode_packet(&header, b"abc");
    assert_eq!(packet, vec![5, 0, 0, 0, 7, 0, 3, b'a', b'b', b'c']);
    assert_eq!(parse_packet(&packet, 10), Some((header, 10)));
    // One byte short of the payload that the header announces.
    assert_eq!(parse_packet(&packet, 9), None);
    // Whatever lies behind the payload is not part of it.
    let mut longer = packet.clone();
    longer.push(1);
    assert_eq!(parse_packet(&longer, 11), Some((header, 10)));
    let mut unknown = packet;
    unknown[0] = 99;
    assert_eq!(parse_packet(&unknown, 10), None);
}

#[test]
fn control_packet_is_a_header_alone() {
    assert_eq!(encode_control(PacketType::Done, 258), vec![4, 0, 0, 1, 2, 0, 0]);
}

#[test]
fn nack_payload_round_trip_and_truncation() {
    let payload = encode_nack_payload(&[1, 0x0100_0000, 65535]);
    assert_eq!(payload, vec![0, 0, 0, 1, 1, 0, 0, 0, 0, 0, 255, 255]);
    let mut out = vec![42];
    decode_nack_payload(3, &payload, &mut out);
    assert_eq!(out, vec![42, 1, 0x0100_0000, 65535]);

    out.clear();
    decode_nack_payload(2, &payload, &mut out);
    assert_eq!(out, vec![1, 0x0100_0000]);

    out.clear();
    decode_nack_payload(5, &payload[..7], &mut out);
    assert_eq!(out, vec![1]);
    assert_eq!(MAX_NACKS_PER_PACKET, 16375);
}

#[test]
fn timeouts_are_told_apart() {
    assert!(is_timeout(ErrorKind::TimedOut));
    assert!(is_timeout(ErrorKind::WouldBlock));
    assert!(!is_timeout(ErrorKind::Interrupted));
    assert!(!is_timeout(ErrorKind::Other));
}

#[test]
fn chunks_are_counted_rounding_up() {
    assert_eq!(count_chunks(0, 1400), 0);
    assert_eq!(count_chunks(1, 1400), 1);
    assert_eq!(count_chunks(1400, 1400), 1);
    assert_eq!(count_chunks(1401, 1400), 2);
    assert_eq!(count_chunks(u64::MAX, 1), u64::MAX);
}

#[test]
fn limits_default_to_the_constants() {
    let send = SendLimits::default();
    assert_eq!(send.handshake_attempts, 60);
    assert_eq!(send.retransmit_passes, 60);
    assert_eq!(send.retransmit_timeout, 3_000_000_000);
    assert_eq!(send.nack_collection_timeout, 500_000_000);
    let recv = RecvLimits::default();
    assert_eq!(recv.idle_timeout, 30_000_000_000);
    assert_eq!(recv.nack_holdoff, 20_000_000);
    assert_eq!(udpcp::DEFAULT_LINGER_SECONDS, 15);
    assert_eq!(udpcp::DEFAULT_CHUNK_SIZE, 1400);
    assert_eq!(std::time::Duration::MAX.as_nanos(), MAX_NANOS);
}

#[test]
fn integers_round_trip() {
    let mut out = Vec::new();
    put_u16(&mut out, 0x0102);
    put_u32(&mut out, 0xfffe_0304);
    put_u64(&mut out, 0x8000_0000_0000_0007);
    put_bytes(&mut out, &[1, 2]);
    assert_eq!(out[0..2], 0x0102u16.to_be_bytes());
    assert_eq!(out[2..6], 0xfffe_0304u32.to_be_bytes());
    assert_eq!(out[6..14], 0x8000_0000_0000_0007u64.to_be_bytes());
    assert_eq!(out[14..], [1, 2]);
    assert_eq!(get_u16(&out, 0), 0x0102);
    assert_eq!(get_u32(&out, 2), 0xfffe_0304);
    assert_eq!(get_u64(&out, 6), 0x8000_0000_0000_0007);
}

fn hex(digest: &[u8; 32]) -> String {
    digest.iter().map(|b| format!("{:02x}", b)).collect()
}

#[test]
fn digest_of_pieces_is_that_of_the_whole() {
    let mut digest = FileDigest::new();
    digest.update(b"a");
    digest.update(b"");
    digest.update(b"bc");
    assert_eq!(digest.taken(), 3);
    let abc = digest.finish();
    assert_eq!(hex(&abc), "ba7816bf8f01cfea414140de5dae2223b00361a396177a9cb410ff61f20015ad");

    let empty = FileDigest::new().finish();
    assert_eq!(hex(&empty), "e3b0c44298fc1c149afbf4c8996fb92427ae41e4649b934ca495991b7852b855");
    assert!(!same_digest(&abc, &empty));
    assert!(same_digest(&abc, &abc.clone()));
}

#[test]
fn last_component_of_a_path() {
    assert_eq!(file_name("f.bin"), Some("f.bin"));
    assert_eq!(file_name("/usr/bin/"), Some("bin"));
    assert_eq!(file_name("tmp/foo.txt"), Some("foo.txt"));
    assert_eq!(file_name("foo.txt/."), Some("foo.txt"));
    assert_eq!(file_name("foo.txt/.//"), Some("foo.txt"));
    assert_eq!(file_name("a/..b"), Some("..b"));
    assert_eq!(file_name("../ž✓"), Some("ž✓"));
    assert_eq!(file_name("foo.txt/.."), None);
    assert_eq!(file_name("/"), None);
    assert_eq!(file_name(""), None);
    assert_eq!(file_name("."), None);
    assert_eq!(file_name(".."), None);
    for path in ["a", "a/b", "/a/b/", "./a", "a/.", "a/..", "", ".", "//", "/.", "a//b", "a/./b/.", "..", "a/b./."] {
        assert_eq!(file_name(path), std::path::Path::new(path).file_name().map(|n| n.to_str().unwrap()), "{}", path);
    }
}

#[test]
fn temporary_file_is_a_sibling() {
    assert_eq!(tmp_path("out.bin"), "out.bin.tmp");
    assert_eq!(tmp_path("dir/out.bin"), "dir/out.bin.tmp");
    assert_eq!(tmp_path("/out.bin"), "/out.bin.tmp");
    assert_eq!(tmp_path("./out.bin"), "./out.bin.tmp");
    assert_eq!(tmp_path("dir//out.bin/"), "dir/out.bin.tmp");
    assert_eq!(tmp_path(".."), "../.tmp");
    for path in ["out", "a/out", "/out", "./out", "a//out/", "..", "a/..", "/", "", "a/./out", "../out/."] {
        let full = std::path::Path::new(path);
        let mut name = full.file_name().map(|n| n.to_os_string()).unwrap_or_default();
        name.push(".tmp");
        let expected = full.with_file_name(name);
        assert_eq!(std::path::Path::new(&tmp_path(path)), expected, "{}", path);
    }
}

#[test]
fn numbers_in_decimal() {
    let mut out = String::from("n=");
    put_decimal(&mut out, 0);
    out.push(' ');
    put_decimal(&mut out, 9_876_543_210);
    out.push(' ');
    put_decimal(&mut out, u64::MAX);
    assert_eq!(out, "n=0 9876543210 18446744073709551615");
}

#[test]
fn control_characters_are_found() {
    for c in (0u32..0x300).filter_map(char::from_u32) {
        let text = format!("a{}b", c);
        let chars = chars_of(&text);
        assert_eq!(has_control(&chars, 0, 3), c.is_control(), "{:?}", c);
    }
    assert!(!has_control(&chars_of("\n"), 0, 0));
}
