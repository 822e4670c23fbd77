use replay_parser::parser::Parser;
use replay_parser::reader::Reader;
use replay_parser::err::ParseError;
use replay_parser::version::parse_branch;
use replay_parser::version::elimination_layout;

use aes_soft::Aes256;
use block_modes::{BlockMode, Ecb};
use block_modes::block_padding::ZeroPadding;

fn push_u16(v: &mut Vec<u8>, x: u16) {
    v.extend_from_slice(&x.to_le_bytes());
}

fn push_u32(v: &mut Vec<u8>, x: u32) {
    v.extend_from_slice(&x.to_le_bytes());
}

fn push_i32(v: &mut Vec<u8>, x: i32) {
    v.extend_from_slice(&x.to_le_bytes());
}

fn push_utf8_string(v: &mut Vec<u8>, s: &str) {
    if s.is_empty() {
        push_i32(v, 0);
    } else {
        push_i32(v, s.len() as i32 + 1);
        v.extend_from_slice(s.as_bytes());
        v.push(0);
    }
}

#[test]
fn read_bool_exact_one_semantics() {
    let mut bytes: Vec<u8> = Vec::new();
    push_i32(&mut bytes, 1);
    push_i32(&mut bytes, 0);
    push_i32(&mut bytes, 2);
    push_i32(&mut bytes, -1);
    let mut r = Reader::new(bytes);
    assert_eq!(r.read_bool().unwrap(), true);
    assert_eq!(r.read_bool().unwrap(), false);
    assert_eq!(r.read_bool().unwrap(), false);
    assert_eq!(r.read_bool().unwrap(), false);
    assert!(matches!(r.read_bool(), Err(ParseError::Bounds { .. })));
}

#[test]
fn read_string_utf8_round_trip() {
    let mut bytes: Vec<u8> = Vec::new();
    push_utf8_string(&mut bytes, "Hello replay");
    let mut r = Reader::new(bytes);
    assert_eq!(r.read_string().unwrap(), "Hello replay");
    assert_eq!(r.offset, 4 + 12 + 1);
}

#[test]
fn read_string_empty_and_invalid_utf8() {
    let mut bytes: Vec<u8> = Vec::new();
    push_i32(&mut bytes, 0);
    push_i32(&mut bytes, 3);
    bytes.extend_from_slice(&[0xFF, 0xFE, 0x00]);
    let mut r = Reader::new(bytes);
    assert_eq!(r.read_string().unwrap(), "");
    assert!(matches!(r.read_string(), Err(ParseError::Format { .. })));
}

#[test]
fn read_string_negative_length_utf16() {
    let mut bytes: Vec<u8> = Vec::new();
    push_i32(&mut bytes, -2);
    push_u16(&mut bytes, 'A' as u16);
    push_u16(&mut bytes, 0);
    let mut r = Reader::new(bytes);
    assert_eq!(r.read_string().unwrap(), "A");
    assert_eq!(r.offset, 8);
}

#[test]
fn read_id_zero_bytes_is_32_hex_zeros() {
    let bytes = vec![0u8; 16];
    let mut r = Reader::new(bytes);
    assert_eq!(r.read_id().unwrap(), "00000000000000000000000000000000");
}

#[test]
fn read_id_is_lowercase_hex() {
    let mut bytes = vec![0xABu8, 0xCD, 0xEF, 0x01];
    bytes.extend_from_slice(&[0u8; 12]);
    let mut r = Reader::new(bytes);
    assert_eq!(r.read_id().unwrap(), "abcdef01000000000000000000000000");
}

#[test]
fn read_primitives_little_endian() {
    let mut bytes: Vec<u8> = Vec::new();
    push_u32(&mut bytes, 0xDEADBEEF);
    push_u16(&mut bytes, 0x1234);
    bytes.extend_from_slice(&0x0102030405060708u64.to_le_bytes());
    push_i32(&mut bytes, -7);
    let mut r = Reader::new(bytes);
    assert_eq!(r.read_u32().unwrap(), 0xDEADBEEF);
    assert_eq!(r.read_u16().unwrap(), 0x1234);
    assert_eq!(r.read_u64().unwrap(), 0x0102030405060708);
    assert_eq!(r.read_i32().unwrap(), -7);
}

#[test]
fn read_string_vec_in_order() {
    let mut bytes: Vec<u8> = Vec::new();
    push_u32(&mut bytes, 2);
    push_utf8_string(&mut bytes, "one");
    push_utf8_string(&mut bytes, "two");
    let mut r = Reader::new(bytes);
    let v = r.read_string_vec().unwrap();
    assert_eq!(v, vec!["one".to_string(), "two".to_string()]);
}

#[test]
fn read_string_u32_tuple_vec_in_order() {
    let mut bytes: Vec<u8> = Vec::new();
    push_u32(&mut bytes, 2);
    push_utf8_string(&mut bytes, "lvl");
    push_u32(&mut bytes, 41);
    push_utf8_string(&mut bytes, "map");
    push_u32(&mut bytes, 42);
    let mut r = Reader::new(bytes);
    let v = r.read_string_u32_tuple_vec().unwrap();
    assert_eq!(v, vec![("lvl".to_string(), 41), ("map".to_string(), 42)]);
}

#[test]
fn skip_and_goto_move_the_cursor() {
    let mut r = Reader::new(vec![1, 2, 3, 4, 5, 6, 7, 8]);
    r.skip(&3);
    assert_eq!(r.offset, 3);
    assert_eq!(r.read_byte().unwrap(), 4);
    r.goto(&0);
    assert_eq!(r.read_byte().unwrap(), 1);
    let tail = r.read_bytes(&3).unwrap();
    assert_eq!(tail, vec![2, 3, 4]);
}

#[test]
fn signed_reads_little_endian() {
    let mut bytes: Vec<u8> = Vec::new();
    bytes.extend_from_slice(&(-2i16).to_le_bytes());
    bytes.extend_from_slice(&(-3i64).to_le_bytes());
    let mut r = Reader::new(bytes);
    assert_eq!(r.read_i16().unwrap(), -2);
    assert_eq!(r.read_i64().unwrap(), -3);
}

#[test]
fn branch_parsing_major_minor() {
    assert_eq!(parse_branch("++Fortnite+Release-12.30").unwrap(), (12, 30));
    assert_eq!(parse_branch("++Fortnite+Release-9.40").unwrap(), (9, 40));
    assert!(matches!(
        parse_branch("++Fortnite+Main"),
        Err(ParseError::Format { .. })
    ));
    assert!(matches!(
        parse_branch("++Fortnite+Release-12."),
        Err(ParseError::Format { .. })
    ));
    assert!(matches!(parse_branch(""), Err(ParseError::Format { .. })));
}

#[test]
fn elimination_layout_selection_matrix() {
    assert_eq!(elimination_layout(11, 9, 0).0, true);
    assert_eq!(elimination_layout(10, 9, 0), (false, 45));
    assert_eq!(elimination_layout(10, 4, 1), (false, 12));
    assert_eq!(elimination_layout(10, 4, 2), (false, 40));
    assert_eq!(elimination_layout(10, 3, 5), (false, 45));
}

fn header_chunk_payload(engine_network_version: u32, branch: &str) -> Vec<u8> {
    let mut h: Vec<u8> = Vec::new();
    push_u32(&mut h, 0x2A2A_2A2A); // magic
    push_u32(&mut h, 2); // network version (<= 12: no id field)
    push_u32(&mut h, 0); // network checksum
    push_u32(&mut h, engine_network_version);
    push_u32(&mut h, 0); // game network protocol
    push_u32(&mut h, 0); // 4 reserved bytes
    push_u16(&mut h, 1); // patch
    push_u32(&mut h, 100); // changelist
    push_utf8_string(&mut h, branch);
    push_u32(&mut h, 0); // empty level list
    push_u32(&mut h, 0); // flags
    push_u32(&mut h, 0); // empty game-specific strings
    h
}

fn meta_v1(name: &str) -> Vec<u8> {
    let mut m: Vec<u8> = Vec::new();
    push_u32(&mut m, 0x1CA2_E27F); // magic
    push_u32(&mut m, 1); // file version: no optional fields
    push_u32(&mut m, 60000); // length in ms
    push_u32(&mut m, 3); // network version
    push_u32(&mut m, 1000); // changelist
    push_utf8_string(&mut m, name);
    push_i32(&mut m, 0); // live flag: false
    m
}

fn push_chunk(buf: &mut Vec<u8>, chunk_type: u32, payload: &[u8], declared: i32) {
    push_u32(buf, chunk_type);
    push_i32(buf, declared);
    buf.extend_from_slice(payload);
}

#[test]
fn chunk_skip_repositions_to_declared_end() {
    // The header chunk declares three bytes more than its payload holds,
    // and an unknown chunk type follows: the scan must step to each
    // declared end, so the unknown chunk is found and ignored and the
    // decode still succeeds.
    let mut buf = meta_v1("test");
    let mut header = header_chunk_payload(11, "++Fortnite+Release-9.40");
    let hlen = header.len() as i32;
    header.extend_from_slice(&[9, 9, 9]); // padding the handler never reads
    push_chunk(&mut buf, 0, &header, hlen + 3);
    push_chunk(&mut buf, 77, &[1, 2, 3, 4], 4); // unknown type: ignored
    push_chunk(&mut buf, 1, &[], 0); // replay data: ignored
    let mut p = Parser::new(buf);
    p.parse().unwrap();
    let h = p.header.as_ref().unwrap();
    assert_eq!(h.engine_network_version, 11);
    assert_eq!(h.version.major, 9);
    assert_eq!(h.version.minor, 40);
    assert_eq!(h.version.branch, "++Fortnite+Release-9.40");
    assert!(p.eliminations.is_empty());
}

#[test]
fn bad_branch_label_is_fatal() {
    let mut buf = meta_v1("test");
    let header = header_chunk_payload(11, "FortniteRelease 9.40");
    let hlen = header.len() as i32;
    push_chunk(&mut buf, 0, &header, hlen);
    let mut p = Parser::new(buf);
    assert!(matches!(p.parse(), Err(ParseError::Format { .. })));
}

#[test]
fn missing_header_is_fatal() {
    let buf = meta_v1("test");
    let mut p = Parser::new(buf);
    assert!(matches!(p.parse(), Err(ParseError::Format { .. })));
}

#[test]
fn meta_name_trailing_whitespace_trimmed() {
    let buf = meta_v1("session name   ");
    let mut p = Parser::new(buf);
    p.parse_meta().unwrap();
    let m = p.meta.as_ref().unwrap();
    assert_eq!(m.name, "session name");
    assert_eq!(m.file_version, 1);
    assert_eq!(m.length_in_ms, 60000);
    assert_eq!(m.is_live, false);
    assert_eq!(m.timestamp, None);
    assert_eq!(m.is_compressed, false);
    assert_eq!(m.is_encrypted, false);
}

#[test]
fn meta_v6_captures_encryption_key() {
    let mut m: Vec<u8> = Vec::new();
    push_u32(&mut m, 0);
    push_u32(&mut m, 6); // file version: all optional fields
    push_u32(&mut m, 1);
    push_u32(&mut m, 2);
    push_u32(&mut m, 3);
    push_utf8_string(&mut m, "x");
    push_i32(&mut m, 1); // live: true
    // timestamp ticks: epoch + 200000 -> 2
    m.extend_from_slice(&(621355968000000000u64 + 200000).to_le_bytes());
    push_i32(&mut m, 0); // compressed: false
    push_i32(&mut m, 1); // encrypted: true
    push_u32(&mut m, 4); // key length
    m.extend_from_slice(&[9, 8, 7, 6]);
    let mut p = Parser::new(m);
    p.parse_meta().unwrap();
    let meta = p.meta.as_ref().unwrap();
    assert_eq!(meta.is_live, true);
    assert_eq!(meta.timestamp, Some(2));
    assert_eq!(meta.is_encrypted, true);
    assert_eq!(p.reader.encryption_key, Some(vec![9, 8, 7, 6]));
}

#[test]
fn event_without_key_is_encryption_error() {
    let mut buf = meta_v1("test");
    let header = header_chunk_payload(11, "++Fortnite+Release-9.40");
    let hlen = header.len() as i32;
    push_chunk(&mut buf, 0, &header, hlen);
    let mut event: Vec<u8> = Vec::new();
    push_utf8_string(&mut event, ""); // unused id
    push_utf8_string(&mut event, "playerElim");
    push_utf8_string(&mut event, ""); // metadata tag
    push_u32(&mut event, 1000); // start time
    push_u32(&mut event, 0); // reserved
    push_u32(&mut event, 16); // payload length
    event.extend_from_slice(&[1u8; 16]);
    let elen = event.len() as i32;
    push_chunk(&mut buf, 3, &event, elen);
    let mut p = Parser::new(buf);
    assert_eq!(p.parse(), Err(ParseError::Encryption));
}

#[test]
fn end_to_end_one_encrypted_elimination() {
    let key = vec![7u8; 32];

    // Plaintext of the elimination payload, rich layout: 85 reserved
    // bytes, two tagged players, gun type, knocked flag.
    let mut plain: Vec<u8> = Vec::new();
    plain.extend_from_slice(&[0u8; 85]);
    plain.push(0); // eliminated: tag 0 -> human
    plain.push(0); // reserved
    let eliminated_id = [0x11u8; 16];
    plain.extend_from_slice(&eliminated_id);
    plain.push(0); // eliminator: tag 0 -> human
    plain.push(0); // reserved
    let eliminator_id = [0xA2u8; 16];
    plain.extend_from_slice(&eliminator_id);
    plain.push(0xC1); // gun type
    push_i32(&mut plain, 1); // knocked: true
    // Pad to a whole number of cipher blocks with a non-zero final byte,
    // so that zero-unpadding leaves every payload byte in place.
    while plain.len() % 16 != 15 {
        plain.push(0);
    }
    plain.push(0xFF);

    let cipher = Ecb::<Aes256, ZeroPadding>::new_var(&key, &[]).unwrap();
    let encrypted = cipher.encrypt_vec(&plain);
    assert_eq!(encrypted.len(), plain.len());

    let mut buf = meta_v1("match");
    let header = header_chunk_payload(11, "++Fortnite+Release-9.40");
    let hlen = header.len() as i32;
    push_chunk(&mut buf, 0, &header, hlen);

    let mut event: Vec<u8> = Vec::new();
    push_utf8_string(&mut event, ""); // unused id
    push_utf8_string(&mut event, "playerElim");
    push_utf8_string(&mut event, ""); // metadata tag
    push_u32(&mut event, 8250); // start time
    push_u32(&mut event, 0); // reserved
    push_u32(&mut event, encrypted.len() as u32);
    event.extend_from_slice(&encrypted);
    let elen = event.len() as i32;
    push_chunk(&mut buf, 3, &event, elen);

    let mut p = Parser::new(buf);
    p.reader.encryption_key = Some(key);
    p.parse().unwrap();

    assert_eq!(p.eliminations.len(), 1);
    let e = &p.eliminations[0];
    assert_eq!(e.eliminated.id, "11".repeat(16));
    assert_eq!(e.eliminator.id, "a2".repeat(16));
    assert_eq!(e.eliminated.is_bot, false);
    assert_eq!(e.gun_type, "C1");
    assert_eq!(e.is_knocked, true);
    assert_eq!(e.timestamp, 8250);
}

#[test]
fn rich_layout_bot_players() {
    let key = vec![2u8; 32];
    // Eliminated: tag 3, a bot with the fixed name. Eliminator: tag 16,
    // a bot with an explicit name string.
    let mut plain: Vec<u8> = Vec::new();
    plain.extend_from_slice(&[0u8; 85]);
    plain.push(3);
    plain.push(16);
    push_utf8_string(&mut plain, "NamedBot");
    plain.push(0x01); // gun type
    push_i32(&mut plain, 1); // knocked
    while plain.len() % 16 != 15 {
        plain.push(0);
    }
    plain.push(0xFF);
    let cipher = Ecb::<Aes256, ZeroPadding>::new_var(&key, &[]).unwrap();
    let encrypted = cipher.encrypt_vec(&plain);

    let mut buf = meta_v1("bots");
    let header = header_chunk_payload(11, "++Fortnite+Release-9.40");
    let hlen = header.len() as i32;
    push_chunk(&mut buf, 0, &header, hlen);
    let mut event: Vec<u8> = Vec::new();
    push_utf8_string(&mut event, "");
    push_utf8_string(&mut event, "playerElim");
    push_utf8_string(&mut event, "");
    push_u32(&mut event, 5);
    push_u32(&mut event, 0);
    push_u32(&mut event, encrypted.len() as u32);
    event.extend_from_slice(&encrypted);
    let elen = event.len() as i32;
    push_chunk(&mut buf, 3, &event, elen);

    let mut p = Parser::new(buf);
    p.reader.encryption_key = Some(key);
    p.parse().unwrap();
    assert_eq!(p.eliminations.len(), 1);
    let e = &p.eliminations[0];
    assert_eq!(e.eliminated.name, "Bot");
    assert_eq!(e.eliminated.id, "");
    assert_eq!(e.eliminated.is_bot, true);
    assert_eq!(e.eliminator.name, "NamedBot");
    assert_eq!(e.eliminator.id, "");
    assert_eq!(e.eliminator.is_bot, true);
    assert_eq!(e.gun_type, "01");
}

#[test]
fn header_id_present_above_network_version_12() {
    let mut h: Vec<u8> = Vec::new();
    push_u32(&mut h, 0);
    push_u32(&mut h, 13); // network version > 12: id field present
    push_u32(&mut h, 0);
    push_u32(&mut h, 11);
    push_u32(&mut h, 0);
    h.extend_from_slice(&[0xAAu8; 16]); // the 16-byte identifier
    push_u32(&mut h, 0); // reserved
    push_u16(&mut h, 1);
    push_u32(&mut h, 100);
    push_utf8_string(&mut h, "++Fortnite+Release-9.40");
    push_u32(&mut h, 0);
    push_u32(&mut h, 0);
    push_u32(&mut h, 0);
    let mut buf = meta_v1("id");
    let hlen = h.len() as i32;
    push_chunk(&mut buf, 0, &h, hlen);
    let mut p = Parser::new(buf);
    p.parse().unwrap();
    let header = p.header.as_ref().unwrap();
    assert_eq!(header.network_version, 13);
    assert_eq!(header.id.as_deref(), Some("aa".repeat(16).as_str()));
}

#[test]
fn match_stats_last_write_wins() {
    let key = vec![5u8; 32];

    // A match statistics payload: 4 reserved bytes, accuracy bits, ten
    // counters; padded to whole blocks with a non-zero final byte.
    fn stats_plain(first_counter: u32) -> Vec<u8> {
        let mut s: Vec<u8> = Vec::new();
        push_u32(&mut s, 0); // reserved
        push_u32(&mut s, 0x3F000000); // accuracy bits (0.5)
        push_u32(&mut s, first_counter); // assists
        for i in 0..9u32 {
            push_u32(&mut s, i + 1);
        }
        while s.len() % 16 != 15 {
            s.push(0);
        }
        s.push(0xFF);
        s
    }

    let mut buf = meta_v1("stats");
    let header = header_chunk_payload(11, "++Fortnite+Release-9.40");
    let hlen = header.len() as i32;
    push_chunk(&mut buf, 0, &header, hlen);

    for counter in [10u32, 20u32] {
        let cipher = Ecb::<Aes256, ZeroPadding>::new_var(&key, &[]).unwrap();
        let encrypted = cipher.encrypt_vec(&stats_plain(counter));
        let mut event: Vec<u8> = Vec::new();
        push_utf8_string(&mut event, "");
        push_utf8_string(&mut event, "stats group");
        push_utf8_string(&mut event, "AthenaMatchStats");
        push_u32(&mut event, 100);
        push_u32(&mut event, 0);
        push_u32(&mut event, encrypted.len() as u32);
        event.extend_from_slice(&encrypted);
        let elen = event.len() as i32;
        push_chunk(&mut buf, 3, &event, elen);
    }

    let mut p = Parser::new(buf);
    p.reader.encryption_key = Some(key);
    p.parse().unwrap();
    let ms = p.match_stats.as_ref().unwrap();
    assert_eq!(ms.assists, 20); // the later event replaced the earlier
    assert_eq!(ms.accuracy_bits, 0x3F000000);
    assert_eq!(ms.eliminations, 1);
    assert_eq!(ms.total_traveled, 9);
    assert!(p.eliminations.is_empty());
}

#[test]
fn team_stats_decoded() {
    let key = vec![3u8; 32];
    let mut s: Vec<u8> = Vec::new();
    push_u32(&mut s, 0); // reserved
    push_u32(&mut s, 2); // placement
    push_u32(&mut s, 95); // total players
    while s.len() % 16 != 15 {
        s.push(0);
    }
    s.push(0xFF);
    let cipher = Ecb::<Aes256, ZeroPadding>::new_var(&key, &[]).unwrap();
    let encrypted = cipher.encrypt_vec(&s);

    let mut buf = meta_v1("team");
    let header = header_chunk_payload(11, "++Fortnite+Release-9.40");
    let hlen = header.len() as i32;
    push_chunk(&mut buf, 0, &header, hlen);
    let mut event: Vec<u8> = Vec::new();
    push_utf8_string(&mut event, "");
    push_utf8_string(&mut event, "team group");
    push_utf8_string(&mut event, "AthenaMatchTeamStats");
    push_u32(&mut event, 100);
    push_u32(&mut event, 0);
    push_u32(&mut event, encrypted.len() as u32);
    event.extend_from_slice(&encrypted);
    let elen = event.len() as i32;
    push_chunk(&mut buf, 3, &event, elen);

    let mut p = Parser::new(buf);
    p.reader.encryption_key = Some(key);
    p.parse().unwrap();
    let ts = p.team_match_stats.as_ref().unwrap();
    assert_eq!(ts.placement, 2);
    assert_eq!(ts.total_players, 95);
}

#[test]
fn legacy_elimination_layout_plain_string_ids() {
    let key = vec![1u8; 32];
    // Engine network version 10 with release 3.5: legacy layout, skip 45
    // reserved bytes, then two plain string identifiers.
    let mut plain: Vec<u8> = Vec::new();
    plain.extend_from_slice(&[0u8; 45]);
    push_utf8_string(&mut plain, "LoserPlayer");
    push_utf8_string(&mut plain, "WinnerPlayer");
    plain.push(0x0A); // gun type
    push_i32(&mut plain, 0); // knocked: false
    while plain.len() % 16 != 15 {
        plain.push(0);
    }
    plain.push(0xFF);
    let cipher = Ecb::<Aes256, ZeroPadding>::new_var(&key, &[]).unwrap();
    let encrypted = cipher.encrypt_vec(&plain);

    let mut buf = meta_v1("legacy");
    let header = header_chunk_payload(10, "++Fortnite+Release-3.5");
    let hlen = header.len() as i32;
    push_chunk(&mut buf, 0, &header, hlen);
    let mut event: Vec<u8> = Vec::new();
    push_utf8_string(&mut event, "");
    push_utf8_string(&mut event, "playerElim");
    push_utf8_string(&mut event, "");
    push_u32(&mut event, 777);
    push_u32(&mut event, 0);
    push_u32(&mut event, encrypted.len() as u32);
    event.extend_from_slice(&encrypted);
    let elen = event.len() as i32;
    push_chunk(&mut buf, 3, &event, elen);

    let mut p = Parser::new(buf);
    p.reader.encryption_key = Some(key);
    p.parse().unwrap();
    assert_eq!(p.eliminations.len(), 1);
    let e = &p.eliminations[0];
    assert_eq!(e.eliminated.id, "LoserPlayer");
    assert_eq!(e.eliminator.id, "WinnerPlayer");
    assert_eq!(e.gun_type, "0A");
    assert_eq!(e.is_knocked, false);
    assert_eq!(e.timestamp, 777);
}
