use corona::addr::Address;
use corona::bundle::Bundle;
use corona::dt::DateTime;
use corona::msg::{messages_from, parse_tokens, tokenize_msg_body, Area, ControlLines, Message,
    Token, User};
use corona::pkt::{Package, PackageError};
use corona::tosser::{classify_inbound, file_name_ext, InboundType};
use std::io::Write;

const ORIG_ZONE: u16 = 1;
const ORIG_NET: u16 = 5020;
const ORIG_NODE: u16 = 100;
const ORIG_POINT: u16 = 300;

const DEST_ZONE: u16 = 2;
const DEST_NET: u16 = 5030;
const DEST_NODE: u16 = 200;
const DEST_POINT: u16 = 400;

const DT_YEAR: u16 = 1999;
const DT_MONTH: u16 = 1;
const DT_DAY: u16 = 2;
const DT_HOUR: u16 = 23;
const DT_MINUTE: u16 = 31;
const DT_SECOND: u16 = 40;

const RATE: u16 = 0;
const VER: u16 = 2;

const PROD_CODE: u8 = 255;
const SERIAL_NO: u8 = 1;

const PASSWORD: &str = "pwdpwd\0\0";

const AUX_NET: u16 = 0;
const CAP_WORD_X: u16 = 256;

const HIGH_PROD_CODE: u8 = 16;
const MINOR_PROD_REV: u8 = 9;

const CAP_WORD: u16 = 1;

const ORIG_ZONE_INFO: u16 = 1;
const DEST_ZONE_INFO: u16 = 2;

const PROD_DATA: u32 = 0;

fn add_header(data: &mut Vec<u8>) {
    data.extend_from_slice(&ORIG_NODE.to_le_bytes());
    data.extend_from_slice(&DEST_NODE.to_le_bytes());

    data.extend_from_slice(&DT_YEAR.to_le_bytes());
    data.extend_from_slice(&DT_MONTH.to_le_bytes());
    data.extend_from_slice(&DT_DAY.to_le_bytes());
    data.extend_from_slice(&DT_HOUR.to_le_bytes());
    data.extend_from_slice(&DT_MINUTE.to_le_bytes());
    data.extend_from_slice(&DT_SECOND.to_le_bytes());

    data.extend_from_slice(&RATE.to_le_bytes());
    data.extend_from_slice(&VER.to_le_bytes());

    data.extend_from_slice(&ORIG_NET.to_le_bytes());
    data.extend_from_slice(&DEST_NET.to_le_bytes());

    data.push(PROD_CODE);
    data.push(SERIAL_NO);

    data.extend_from_slice(PASSWORD.as_bytes());

    data.extend_from_slice(&ORIG_ZONE.to_le_bytes());
    data.extend_from_slice(&DEST_ZONE.to_le_bytes());

    data.extend_from_slice(&AUX_NET.to_le_bytes());

    data.extend_from_slice(&CAP_WORD_X.to_le_bytes());

    data.push(HIGH_PROD_CODE);
    data.push(MINOR_PROD_REV);

    data.extend_from_slice(&CAP_WORD.to_le_bytes());

    data.extend_from_slice(&ORIG_ZONE_INFO.to_le_bytes());
    data.extend_from_slice(&DEST_ZONE_INFO.to_le_bytes());

    data.extend_from_slice(&ORIG_POINT.to_le_bytes());
    data.extend_from_slice(&DEST_POINT.to_le_bytes());

    data.extend_from_slice(&PROD_DATA.to_le_bytes());
}

fn add_message(data: &mut Vec<u8>) {
    data.extend_from_slice(&2u16.to_le_bytes());

    data.extend_from_slice(&40u16.to_le_bytes()); // from_node
    data.extend_from_slice(&40u16.to_le_bytes()); // to_node

    data.extend_from_slice(&40u16.to_le_bytes()); // from_net
    data.extend_from_slice(&40u16.to_le_bytes()); // to_net

    data.extend_from_slice(&40u16.to_le_bytes()); // flags

    data.extend_from_slice(&0u16.to_le_bytes()); // unused

    data.extend_from_slice("28 Feb 20  14:00:18\0".as_bytes()); // posted
    data.extend_from_slice("All\0".as_bytes()); // to_name
    data.extend_from_slice("John Doe\0".as_bytes()); // from_name
    data.extend_from_slice("Ping\0".as_bytes()); // subj
    data.extend_from_slice("Pong\0".as_bytes()); // text
}

fn end_message(data: &mut Vec<u8>) {
    data.extend_from_slice(&0u16.to_le_bytes());
}

fn create_pkt() -> Vec<u8> {
    let mut data = Vec::new();

    add_header(&mut data);
    add_message(&mut data);
    end_message(&mut data);

    data
}

#[test]
fn pkg_has_orig_addr() {
    let pkg = Package::read(&create_pkt()).unwrap();

    assert_eq!(pkg.orig.zone, ORIG_ZONE);
    assert_eq!(pkg.orig.net, ORIG_NET);
    assert_eq!(pkg.orig.node, ORIG_NODE);
    assert_eq!(pkg.orig.point, ORIG_POINT);
}

#[test]
fn pkg_fields_and_messages() {
    let pkg = Package::read(&create_pkt()).unwrap();

    // the stored month is zero-based
    assert_eq!(
        pkg.created,
        DateTime { year: 1999, month: 2, day: 2, hour: 23, minute: 31, second: 40 }
    );
    // the password is cut at the first NUL
    assert_eq!(pkg.password, "pwdpwd");
    assert_eq!(pkg.cap_word, CAP_WORD);
    assert_eq!(pkg.messages.len(), 1);
    assert_eq!(pkg.messages[0].posted, b"28 Feb 20  14:00:18".to_vec());
    assert_eq!(pkg.messages[0].to.name, b"All".to_vec());
    assert_eq!(pkg.messages[0].from.name, b"John Doe".to_vec());
    assert_eq!(pkg.messages[0].from.address.zone, ORIG_ZONE);
    assert_eq!(pkg.messages[0].from.address.net, 40);
    assert_eq!(pkg.messages[0].from.address.node, 40);
}

#[test]
fn pkg_posted_length_recovery() {
    // a posted field of the wrong length is discarded; the scan consumes
    // the padding NULs and restores the first real byte to the next field
    let mut data = Vec::new();
    add_header(&mut data);
    data.extend_from_slice(&2u16.to_le_bytes());
    for _ in 0..6 {
        data.extend_from_slice(&7u16.to_le_bytes());
    }
    data.extend_from_slice(b"short\0"); // posted, 5 bytes instead of 19
    data.extend_from_slice(b"\0\0Bob\0"); // two stray NULs, then to_name
    data.extend_from_slice(b"Alice\0");
    data.extend_from_slice(b"Hi\0");
    data.extend_from_slice(b"Body\0");
    end_message(&mut data);

    let pkg = Package::read(&data).unwrap();
    assert_eq!(pkg.messages.len(), 1);
    assert_eq!(pkg.messages[0].posted, Vec::<u8>::new());
    assert_eq!(pkg.messages[0].to.name, b"Bob".to_vec());
    assert_eq!(pkg.messages[0].from.name, b"Alice".to_vec());
}

fn empty_message() -> Message {
    Message {
        area: Area::Netmail,
        posted: DateTime { year: 2020, month: 1, day: 1, hour: 0, minute: 0, second: 0 },
        from: User {
            addr: Address::new_4d(2, 5020, 400, 0),
            name: "Sender".to_string(),
            ext_addr: None,
        },
        to: User {
            addr: Address::new_4d(2, 5030, 500, 0),
            name: "Receiver".to_string(),
            ext_addr: None,
        },
        flags: 0,
        msgid_serial: 0,
        reply_serial: None,
        msgid_addr: None,
        reply_addr: None,
        subj: "Subj".to_string(),
        body: String::new(),
        tear_line: String::new(),
        origin: String::new(),
        kludges: ControlLines::empty(),
    }
}

#[test]
fn tokenizer_keeps_one_origin_and_tear() {
    // earlier origins and tear lines are demoted to body text, with their
    // text intact; seen-bys above the surviving origin are body text too
    let text = "--- Old\n * Origin: first (2:1/1)\nSEEN-BY: 1/2\n--- New\n * Origin: second (2:1/2)\n";
    let toks = tokenize_msg_body(text);
    let origins: Vec<&(Token, String)> =
        toks.iter().filter(|t| matches!(t.0, Token::Origin(_))).collect();
    let tears: Vec<&(Token, String)> =
        toks.iter().filter(|t| matches!(t.0, Token::TearLine(_))).collect();
    assert_eq!(origins.len(), 1);
    assert_eq!(origins[0].1, " * Origin: second (2:1/2)");
    assert_eq!(tears.len(), 1);
    assert_eq!(tears[0].1, "--- New");
    // the demoted pieces are ordinary paragraphs with their text intact
    assert!(toks.iter().any(|t| matches!(t.0, Token::Paragraph) && t.1 == " * Origin: first (2:1/1)"));
    assert!(toks.iter().any(|t| matches!(t.0, Token::Paragraph) && t.1 == "--- Old"));
    assert!(toks.iter().any(|t| matches!(t.0, Token::Paragraph) && t.1 == "SEEN-BY: 1/2"));
}

#[test]
fn tokenizer_area_and_kludges() {
    let text = "AREA:TEST.AREA\n\u{1}MSGID: 2:5020/400.7 12345678\nHello\n\u{1}PATH: 5020/400\n";
    let toks = tokenize_msg_body(text);
    assert!(matches!(toks[0].0, Token::Area));
    assert_eq!(toks[0].1, "TEST.AREA");
    assert!(toks.iter().any(|t| matches!(t.0, Token::MsgId) && t.1 == "2:5020/400.7 12345678"));
    assert!(toks.iter().any(|t| matches!(t.0, Token::Path) && t.1 == "5020/400"));
    assert!(toks.iter().any(|t| matches!(t.0, Token::Paragraph) && t.1 == "Hello"));
}

#[test]
fn reconcile_from_msgid() {
    // the MSGID address overrides the header address
    let text = "\u{1}MSGID: 2:5020/400.7 12345678\nHello\n * Origin: xyz (2:5020/400.7)\n";
    let toks = tokenize_msg_body(text);
    let mut msg = empty_message();
    parse_tokens(&toks, &mut msg);
    assert_eq!(msg.from.addr, Address::new_4d(2, 5020, 400, 7));
    assert_eq!(msg.msgid_serial, 0x12345678);
    assert_eq!(msg.body, "Hello");
    assert_eq!(msg.origin, "xyz (2:5020/400.7)");
}

#[test]
fn reconcile_from_origin() {
    // without a MSGID the parenthesized origin address is the last resort
    let text = "Hello\n * Origin: xyz (2:5020/400.7)\n";
    let toks = tokenize_msg_body(text);
    let mut msg = empty_message();
    parse_tokens(&toks, &mut msg);
    assert_eq!(msg.from.addr, Address::new_4d(2, 5020, 400, 7));
    assert_eq!(msg.msgid_serial, 0);
}

#[test]
fn broadcast_clears_to_address() {
    // a message to All without a reply reference is a broadcast
    let text = "Hello\n";
    let toks = tokenize_msg_body(text);
    let mut msg = empty_message();
    msg.to.name = "All".to_string();
    msg.to.ext_addr = Some("x@y".to_string());
    parse_tokens(&toks, &mut msg);
    assert_eq!(msg.to.addr, Address::empty());
    assert_eq!(msg.to.ext_addr, None);
}

#[test]
fn reply_keeps_to_address() {
    let text = "\u{1}REPLY: 2:46/128 4a34c4dd\nHello\n";
    let toks = tokenize_msg_body(text);
    let mut msg = empty_message();
    msg.to.name = "All".to_string();
    parse_tokens(&toks, &mut msg);
    assert_eq!(msg.reply_serial, Some(0x4a34c4dd));
    assert_eq!(msg.to.addr, Address::new_4d(2, 46, 128, 0));
}

#[test]
fn netmail_intl_fmpt_topt() {
    let text = "\u{1}INTL 2:5030/500 2:5020/400\n\u{1}FMPT 7\n\u{1}TOPT 9\nHi\n";
    let toks = tokenize_msg_body(text);
    let mut msg = empty_message();
    parse_tokens(&toks, &mut msg);
    assert_eq!(msg.from.addr.zone, 2);
    assert_eq!(msg.from.addr.net, 5020);
    assert_eq!(msg.from.addr.node, 400);
    assert_eq!(msg.from.addr.point, 7);
    // the addressee was reset (no REPLY), then INTL and TOPT rewrote it
    assert_eq!(msg.to.addr.zone, 2);
    assert_eq!(msg.to.addr.net, 5030);
    assert_eq!(msg.to.addr.node, 500);
    assert_eq!(msg.to.addr.point, 9);
    // the three kludges stay on the message, verbatim
    assert_eq!(msg.kludges.custom.as_ref().unwrap().len(), 3);
}

#[test]
fn msgid_outranks_replyto() {
    // a native MSGID address is the higher-priority sender source; a
    // REPLYTO kludge is only a fallback, wherever it stands in the body
    let text = "\u{1}MSGID: 2:5020/400.7 12345678\n\u{1}REPLYTO 2:46/128 UUCP\nHi\n";
    let toks = tokenize_msg_body(text);
    let mut msg = empty_message();
    msg.area = Area::Echomail("TEST".to_string());
    parse_tokens(&toks, &mut msg);
    assert_eq!(msg.from.addr, Address::new_4d(2, 5020, 400, 7));

    let text2 = "\u{1}REPLYTO 2:46/128 UUCP\n\u{1}MSGID: 2:5020/400.7 12345678\nHi\n";
    let toks2 = tokenize_msg_body(text2);
    let mut msg2 = empty_message();
    msg2.area = Area::Echomail("TEST".to_string());
    parse_tokens(&toks2, &mut msg2);
    assert_eq!(msg2.from.addr, Address::new_4d(2, 5020, 400, 7));
}

#[test]
fn replyaddr_and_replyto() {
    let text = "\u{1}REPLYADDR user@example.org\n\u{1}REPLYTO 2:5020/400 UUCP\nHi\n";
    let toks = tokenize_msg_body(text);
    let mut msg = empty_message();
    msg.area = Area::Echomail("TEST".to_string());
    parse_tokens(&toks, &mut msg);
    assert_eq!(msg.from.ext_addr, Some("user@example.org".to_string()));
    assert_eq!(msg.from.addr, Address::new_4d(2, 5020, 400, 0));
    // REPLYADDR is consumed; REPLYTO stays a custom kludge
    assert_eq!(msg.kludges.custom.as_ref().unwrap().len(), 1);
}

#[test]
fn messages_from_decodes_ibm866() {
    // byte 0x80 is CYRILLIC CAPITAL LETTER A on code page 866
    let mut data = Vec::new();
    add_header(&mut data);
    data.extend_from_slice(&2u16.to_le_bytes());
    for _ in 0..6 {
        data.extend_from_slice(&7u16.to_le_bytes());
    }
    data.extend_from_slice(b"28 Feb 20  14:00:18\0");
    data.extend_from_slice(b"Bob\0");
    data.extend_from_slice(&[0x80, 0x00]); // from_name, one high byte
    data.extend_from_slice(&[0x80, 0x81, 0x00]); // subj
    data.extend_from_slice(b"Pong\0");
    end_message(&mut data);

    let pkg = Package::read(&data).unwrap();
    let msgs = messages_from(&pkg).unwrap();
    assert_eq!(msgs.len(), 1);
    assert_eq!(msgs[0].from.name, "\u{410}");
    assert_eq!(msgs[0].subj, "\u{410}\u{411}");
    assert_eq!(
        msgs[0].posted,
        DateTime { year: 2020, month: 2, day: 28, hour: 14, minute: 0, second: 18 }
    );
    assert_eq!(msgs[0].body, "Pong");
}

#[test]
fn messages_from_falls_back_to_created() {
    // a malformed posted field falls back to the packet creation stamp
    let mut data = Vec::new();
    add_header(&mut data);
    data.extend_from_slice(&2u16.to_le_bytes());
    for _ in 0..6 {
        data.extend_from_slice(&7u16.to_le_bytes());
    }
    data.extend_from_slice(b"yesterday, morning\0\0"); // 19 bytes, no grammar
    data.extend_from_slice(b"Bob\0");
    data.extend_from_slice(b"Alice\0");
    data.extend_from_slice(b"Hi\0");
    data.extend_from_slice(b"Body\0");
    end_message(&mut data);

    let pkg = Package::read(&data).unwrap();
    let msgs = messages_from(&pkg).unwrap();
    assert_eq!(msgs[0].posted, pkg.created);
}

#[test]
fn bundle_reads_pkt_entries() {
    // the packet entry is deflated, so reading it exercises decompression
    let mut cur = std::io::Cursor::new(Vec::new());
    {
        let mut zw = zip::ZipWriter::new(&mut cur);
        let deflated = zip::write::SimpleFileOptions::default()
            .compression_method(zip::CompressionMethod::Deflated);
        let stored = zip::write::SimpleFileOptions::default()
            .compression_method(zip::CompressionMethod::Stored);
        zw.start_file("5b1e8f04.pkt", deflated).unwrap();
        zw.write_all(&create_pkt()).unwrap();
        zw.start_file("readme.txt", stored).unwrap();
        zw.write_all(b"not a packet").unwrap();
        zw.finish().unwrap();
    }
    let data = cur.into_inner();
    let bundle = Bundle::read(&data).unwrap();
    assert_eq!(bundle.packages.len(), 1);
    assert_eq!(bundle.packages[0].orig.net, ORIG_NET);
    assert_eq!(bundle.packages[0].messages.len(), 1);
}

#[test]
fn bundle_rejects_garbage() {
    assert!(Bundle::read(b"this is no archive").is_err());
}

#[test]
fn pkg_rejects_bad_input() {
    // fewer bytes than the header needs
    assert_eq!(Package::read(&[0u8; 10]).unwrap_err(), PackageError::Truncated);

    // an impossible creation date: raw month 12 is stored one-based as 13
    let mut data = create_pkt();
    data[6] = 12;
    data[7] = 0;
    assert_eq!(
        Package::read(&data).unwrap_err(),
        PackageError::InvalidDate { year: 1999, month: 13, day: 2 }
    );

    // a password that is no UTF-8
    let mut data = create_pkt();
    data[26] = 0xFF;
    data[27] = 0xFE;
    assert_eq!(Package::read(&data).unwrap_err(), PackageError::Password);

    // a message record cut short after its magic word
    let mut data = Vec::new();
    add_header(&mut data);
    data.extend_from_slice(&2u16.to_le_bytes());
    data.extend_from_slice(&7u16.to_le_bytes());
    assert_eq!(Package::read(&data).unwrap_err(), PackageError::Truncated);
}

#[test]
fn classify_inbound_files() {
    assert_eq!(classify_inbound("/in/mail.pkt", 100), Some(InboundType::Package));
    assert_eq!(classify_inbound("/in/mail.su0", 100), Some(InboundType::Bundle));
    assert_eq!(classify_inbound("/in/mail.mo9", 100), Some(InboundType::Bundle));
    assert_eq!(classify_inbound("/in/mail.pkt", 64), None); // too small
    assert_eq!(classify_inbound("/in/mail.zip", 100), None);
    assert_eq!(classify_inbound("/in/mail.pkts", 100), None);

    assert_eq!(file_name_ext("/in/mail.pkt"), ("mail.pkt", "pkt"));
    assert_eq!(file_name_ext("mail"), ("mail", ""));
    assert_eq!(file_name_ext("/in/.hidden"), (".hidden", ""));
}
