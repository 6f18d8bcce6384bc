use corona::addr::{parse_net_node_pairs, parse_replyto, Address, MessageId, NetNodePairError,
    ParseMessageIdError};
use corona::addr::ParseAddressError::{InvalidFormat, Overflow};
use corona::dt::{parse_ftn_datetime, DateTime, DateTimeError};
use corona::dt::DateTimeError::Format;

fn dt(year: u16, month: u8, day: u8, hour: u8, minute: u8, second: u8) -> DateTime {
    DateTime { year, month, day, hour, minute, second }
}

#[test]
fn parse_valid_address() {
    assert_eq!(Address::from_str("2:50/0"), Ok(Address::new_4d(2, 50, 0, 0)));

    assert_eq!(Address::from_str("2:1024/255"), Ok(Address::new_4d(2, 1024, 255, 0)));
    assert_eq!(Address::from_str("2:1024/255.0"), Ok(Address::new_4d(2, 1024, 255, 0)));
    assert_eq!(
        Address::from_str("2:1024/255.768"),
        Ok(Address::new_4d(2, 1024, 255, 768))
    );

    assert_eq!(
        Address::from_str("1:1024/255@Fidonet"),
        Ok(Address::full(1, 1024, 255, 0, Some("Fidonet".to_string())))
    );
    assert_eq!(
        Address::from_str("1:1024/255.768@Fidonet"),
        Ok(Address::full(1, 1024, 255, 768, Some("Fidonet".to_string())))
    );
    assert_eq!(
        Address::from_str("1:1024/255.768@Fid@net"),
        Ok(Address::full(1, 1024, 255, 768, Some("Fid@net".to_string())))
    );

    assert_eq!(
        Address::from_str("1:1024/255@"),
        Ok(Address::full(1, 1024, 255, 0, Some("".to_string())))
    );
    assert_eq!(
        Address::from_str("1:1024/255.768@"),
        Ok(Address::full(1, 1024, 255, 768, Some("".to_string())))
    );

    assert_eq!(
        Address::from_str("2:5020/400.100@Fidonet"),
        Ok(Address::full(2, 5020, 400, 100, Some("Fidonet".to_string())))
    );
}

#[test]
fn fail_on_invalid_address() {
    assert_eq!(Address::from_str(":").unwrap_err(), InvalidFormat);
    assert_eq!(Address::from_str("2").unwrap_err(), InvalidFormat);
    assert_eq!(Address::from_str("2:").unwrap_err(), InvalidFormat);
    assert_eq!(Address::from_str("123456:").unwrap_err(), Overflow);

    assert_eq!(Address::from_str("2:aaaa").unwrap_err(), InvalidFormat);
    assert_eq!(Address::from_str("2:1024").unwrap_err(), InvalidFormat);
    assert_eq!(Address::from_str("2:1024/").unwrap_err(), InvalidFormat);

    assert_eq!(Address::from_str("2:1024/123456").unwrap_err(), Overflow);
    assert_eq!(Address::from_str("2:1024/-100").unwrap_err(), InvalidFormat);
    assert_eq!(Address::from_str("2:1024//100").unwrap_err(), InvalidFormat);
    assert_eq!(Address::from_str("2:1024/100.200.300").unwrap_err(), InvalidFormat);

    assert_eq!(Address::from_str("2:1024/c.d").unwrap_err(), InvalidFormat);
    assert_eq!(Address::from_str("a:b/c.d").unwrap_err(), InvalidFormat);
}

#[test]
fn parse_valid_msgid() {
    assert_eq!(
        MessageId::from_str("2:1024/255 4a34c4dd"),
        Ok(MessageId::native(Address::new_4d(2, 1024, 255, 0), 0x4a34c4dd))
    );
    assert_eq!(
        MessageId::from_str("2:1024/255.100@Fidonet 4a34c4dd"),
        Ok(MessageId::native(
            Address::full(2, 1024, 255, 100, Some("Fidonet".to_string())),
            0x4a34c4dd
        ))
    );

    assert_eq!(
        MessageId::from_str("<1234567890@www.fido-online.com> 4A34C4DD"),
        Ok(MessageId::ext(
            "<1234567890@www.fido-online.com>".to_string(),
            0x4a34c4dd
        ))
    );
}

#[test]
fn fail_on_invalid_msgid() {
    assert_eq!(
        MessageId::from_str("2:1024/255 12345678 ").unwrap_err(),
        ParseMessageIdError::InvalidFormat
    );
    assert_eq!(
        MessageId::from_str("2:1024/255 123456789").unwrap_err(),
        ParseMessageIdError::InvalidFormat
    );

    // serials in some messages can be less than 8 characters
    assert_eq!(
        MessageId::from_str("2:1024/255 0x123456").unwrap_err(),
        ParseMessageIdError::InvalidFormat
    );
}

#[test]
fn msgid_serial_lengths() {
    // one to eight hexadecimal digits are a serial; more are not
    assert_eq!(
        MessageId::from_str("2:1024/255 12345678"),
        Ok(MessageId::native(Address::new_4d(2, 1024, 255, 0), 0x12345678))
    );
    assert_eq!(
        MessageId::from_str("2:1024/255 f"),
        Ok(MessageId::native(Address::new_4d(2, 1024, 255, 0), 0xf))
    );
    assert!(MessageId::from_str("2:1024/255 123456789").is_err());
}

#[test]
fn parse_valid_pairs() {
    assert_eq!(
        parse_net_node_pairs("1024/100 200 300"),
        Ok(vec![(1024, 100), (1024, 200), (1024, 300)])
    );
    assert_eq!(
        parse_net_node_pairs("1024/100 4096/200 300"),
        Ok(vec![(1024, 100), (4096, 200), (4096, 300)])
    );

    // consider zero is valid
    assert_eq!(parse_net_node_pairs("0/100 200"), Ok(vec![(0, 100), (0, 200)]));
    assert_eq!(
        parse_net_node_pairs("1024/0 0 0"),
        Ok(vec![(1024, 0), (1024, 0), (1024, 0)])
    );
}

#[test]
fn fail_on_invalid_pairs() {
    assert_eq!(parse_net_node_pairs("1024").unwrap_err(), NetNodePairError::InvalidFormat);
    assert_eq!(parse_net_node_pairs("1024/").unwrap_err(), NetNodePairError::InvalidFormat);
    assert_eq!(parse_net_node_pairs("/1024").unwrap_err(), NetNodePairError::InvalidFormat);
    assert_eq!(
        parse_net_node_pairs("1024/100  200").unwrap_err(),
        NetNodePairError::InvalidFormat
    );
    assert_eq!(
        parse_net_node_pairs("1024/100 200 ").unwrap_err(),
        NetNodePairError::InvalidFormat
    );
    assert_eq!(
        parse_net_node_pairs("100 4096/200 300").unwrap_err(),
        NetNodePairError::InvalidFormat
    );
}

#[test]
fn pairs_overflow_is_reported() {
    assert_eq!(parse_net_node_pairs("99999/1").unwrap_err(), NetNodePairError::Overflow);
    assert_eq!(parse_net_node_pairs("1/99999").unwrap_err(), NetNodePairError::Overflow);
}

#[test]
fn parse_valid_replyto() {
    assert_eq!(parse_replyto("2:46/128"), Ok((Address::new_4d(2, 46, 128, 0), "")));
    assert_eq!(
        parse_replyto("2:5020/400 UUCP"),
        Ok((Address::new_4d(2, 5020, 400, 0), "UUCP"))
    );
    assert_eq!(
        parse_replyto("2:5020/400.100 UUCP"),
        Ok((Address::new_4d(2, 5020, 400, 100), "UUCP"))
    );
}

#[test]
fn fail_on_invalid_replyto() {
    assert_eq!(parse_replyto("2:46 UUCP").unwrap_err(), InvalidFormat);
}

#[test]
fn parse_valid_ftn_datetime() {
    assert_eq!(
        parse_ftn_datetime("12 Dec 93  14:42:12"),
        Ok(dt(1993, 12, 12, 14, 42, 12))
    );
    assert_eq!(
        parse_ftn_datetime(" 3 Oct 07  23:00:29"),
        Ok(dt(2007, 10, 3, 23, 0, 29))
    );
    assert_eq!(
        parse_ftn_datetime("31 Oct 09  23:01:04"),
        Ok(dt(2009, 10, 31, 23, 1, 4))
    );
    assert_eq!(
        parse_ftn_datetime("01 Mar 20  01:43:10"),
        Ok(dt(2020, 3, 1, 1, 43, 10))
    );
}

#[test]
fn fail_on_invalid_ftn_datetime() {
    assert_eq!(parse_ftn_datetime("12 Dec 93 14:42:12").unwrap_err(), Format);
    assert_eq!(parse_ftn_datetime("12 Dec 93  14;42;12").unwrap_err(), Format);
}

#[test]
fn ftn_datetime_year_window_and_field_errors() {
    // the year pivot is 90
    assert_eq!(
        parse_ftn_datetime("01 Jan 90  00:00:00"),
        Ok(dt(1990, 1, 1, 0, 0, 0))
    );
    assert_eq!(
        parse_ftn_datetime("01 Jan 89  00:00:00"),
        Ok(dt(2089, 1, 1, 0, 0, 0))
    );
    // an impossible date or time is reported with its fields
    assert_eq!(
        parse_ftn_datetime("31 Feb 20  01:00:00").unwrap_err(),
        DateTimeError::Date { year: 2020, month: 2, day: 31 }
    );
    assert_eq!(
        parse_ftn_datetime("01 Feb 20  24:00:00").unwrap_err(),
        DateTimeError::Time { hour: 24, minute: 0, second: 0 }
    );
    // leap years follow the Gregorian rule
    assert_eq!(
        parse_ftn_datetime("29 Feb 00  12:00:00"),
        Ok(dt(2000, 2, 29, 12, 0, 0))
    );
    assert!(parse_ftn_datetime("29 Feb 01  12:00:00").is_err());
}
