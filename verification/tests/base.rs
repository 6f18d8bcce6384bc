use corona::addr::Address;
use corona::dt::DateTime;
use corona::msg::{Area, ControlLines, Message, User};
use corona::store::MessageBase;

fn posted() -> DateTime {
    DateTime { year: 2020, month: 3, day: 1, hour: 1, minute: 43, second: 10 }
}

fn sample_message() -> Message {
    Message {
        area: Area::Echomail("TEST".to_string()),
        posted: posted(),
        from: User {
            addr: Address::new_4d(2, 5020, 400, 0),
            name: "John Doe".to_string(),
            ext_addr: None,
        },
        to: User {
            addr: Address::empty(),
            name: "All".to_string(),
            ext_addr: None,
        },
        flags: 0,
        msgid_serial: 0x4a34c4dd,
        reply_serial: None,
        msgid_addr: None,
        reply_addr: None,
        subj: "Ping".to_string(),
        body: "Pong".to_string(),
        tear_line: "GoldED+".to_string(),
        origin: "xyz (2:5020/400)".to_string(),
        kludges: ControlLines {
            pid: Some("GED+LNX".to_string()),
            tid: None,
            tzutc: Some("0300".to_string()),
            seen_by: Some(vec![(5020, 400), (5020, 100)]),
            path: Some(vec![(5020, 400)]),
            custom: Some(vec!["CHRS: CP866 2".to_string()]),
        },
    }
}

#[test]
fn toss_then_duplicate_returns_sentinel() {
    // a second toss with the same (serial, posted) key is a no-op
    let mut base = MessageBase::open();
    let m1 = sample_message();
    let m2 = sample_message();

    let id1 = base.toss(&m1);
    assert_eq!(id1, 1);
    assert_eq!(base.messages.len(), 1);
    assert_eq!(base.users.len(), 2);
    assert_eq!(base.kludges.len(), 1);

    let id2 = base.toss(&m2);
    assert_eq!(id2, -1);
    assert_eq!(base.messages.len(), 1);
    assert_eq!(base.users.len(), 2);
    assert_eq!(base.subjects.len(), 1);
    assert_eq!(base.kludges.len(), 1);
}

#[test]
fn users_are_deduplicated() {
    // two different messages from one sender share one user row
    let mut base = MessageBase::open();
    let m1 = sample_message();
    let mut m2 = sample_message();
    m2.msgid_serial = 0x11111111;

    assert_eq!(base.toss(&m1), 1);
    assert_eq!(base.toss(&m2), 2);
    // the sender row is shared; the broadcast addressee row too
    assert_eq!(base.users.len(), 2);
    assert_eq!(base.subjects.len(), 1);
    assert_eq!(base.tear_lines.len(), 1);
    assert_eq!(base.origins.len(), 1);
}

#[test]
fn blank_user_name_becomes_empty_marker() {
    let mut base = MessageBase::open();
    let mut m = sample_message();
    m.from.name = "   ".to_string();
    base.toss(&m);
    assert_eq!(base.users[0].name, "<empty>");
}

#[test]
fn seen_by_permutations_share_one_id() {
    // seen-by lists are sets: permutations dedup to one group
    let mut base = MessageBase::open();
    let a = Some(vec![(1u16, 1u16), (1u16, 2u16)]);
    let b = Some(vec![(1u16, 2u16), (1u16, 1u16)]);
    let id1 = base.get_seenby_id(&a);
    let id2 = base.get_seenby_id(&b);
    assert_eq!(id1, 1);
    assert_eq!(id2, 1);
    assert_eq!(base.seen_bys.len(), 1);
    // the group is stored sorted by (net, node)
    assert_eq!(base.seen_bys[0], vec![(1, 1), (1, 2)]);
}

#[test]
fn paths_in_different_orders_get_distinct_ids() {
    // path lists are sequences: a different order is a different group
    let mut base = MessageBase::open();
    let a = Some(vec![(1u16, 1u16), (1u16, 2u16)]);
    let b = Some(vec![(1u16, 2u16), (1u16, 1u16)]);
    let id1 = base.get_path_id(&a);
    let id2 = base.get_path_id(&b);
    assert_eq!(id1, 1);
    assert_eq!(id2, 2);
    let id3 = base.get_path_id(&a);
    assert_eq!(id3, 1);
}

#[test]
fn empty_related_rows_mean_null() {
    // blank texts and absent lists get the sentinel id 0
    let mut base = MessageBase::open();
    assert_eq!(base.get_subj_id("   "), 0);
    assert_eq!(base.get_subj_id("\t"), 0);
    assert_eq!(base.get_software_id(""), 0);
    assert_eq!(base.get_seenby_id(&None), 0);
    assert_eq!(base.get_path_id(&Some(vec![])), 0);
    let mut m = sample_message();
    m.subj = " ".to_string();
    m.tear_line = String::new();
    m.kludges.seen_by = None;
    m.kludges.path = None;
    m.kludges.pid = None;
    m.kludges.custom = None;
    base.toss(&m);
    let row = &base.messages[0];
    assert_eq!(row.subject_id, 0);
    assert_eq!(row.tear_line_id, 0);
    assert_eq!(row.seen_by_id, 0);
    assert_eq!(row.path_id, 0);
    assert_eq!(row.pid_id, 0);
    assert_eq!(row.reply_serial, 0);
}

#[test]
fn reply_resolves_to_original_poster() {
    // the addressee of a reply reuses the original poster's user row, found
    // by the reply serial and the trimmed display name
    let mut base = MessageBase::open();
    let m1 = sample_message();
    assert_eq!(base.toss(&m1), 1);
    let from_id = base.messages[0].from_id;

    let mut m2 = sample_message();
    m2.msgid_serial = 0x22222222;
    m2.reply_serial = Some(0x4a34c4dd);
    m2.from.name = "Jane Roe".to_string();
    // the reply addresses the original poster by name, but with no address
    m2.to.name = "John Doe ".to_string();
    m2.to.addr = Address::empty();
    assert_eq!(base.toss(&m2), 2);
    assert_eq!(base.messages[1].to_id, from_id);
}

#[test]
fn scalar_tables_store_trimmed_text() {
    let mut base = MessageBase::open();
    let id = base.get_subj_id("  Ping  ");
    assert_eq!(id, 1);
    assert_eq!(base.subjects[0], "Ping");
    // the same trimmed text reuses the row
    assert_eq!(base.get_subj_id("Ping"), 1);
    assert_eq!(base.subjects.len(), 1);
}
