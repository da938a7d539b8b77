use shinobu::sys::net::{
    name_bytes, Link, Monitor, RecordError, Routes, Stat, FLAGS_AT, HEAD_LEN, IBYTES_AT, IFF_LOOPBACK,
    IF_NAMESIZE, INDEX_AT, INFO_LEN, OBYTES_AT, RTM_IFINFO2, TYPE_AT,
};

const RTM_NEWMADDR2: u8 = 0x13;
const IFF_UP: u32 = 0x1;
const IFF_RUNNING: u32 = 0x40;

fn record(msglen: u16, kind: u8, flags: u32, index: u16, ibytes: u64, obytes: u64) -> Vec<u8> {
    let mut bytes = vec![0xaau8; msglen as usize];
    let mut put = |at: usize, field: &[u8]| {
        for (offset, byte) in field.iter().enumerate() {
            if at + offset < bytes.len() {
                bytes[at + offset] = *byte;
            }
        }
    };
    put(0, &msglen.to_le_bytes());
    put(2, &[5]);
    put(TYPE_AT, &[kind]);
    put(FLAGS_AT, &flags.to_le_bytes());
    put(INDEX_AT, &index.to_le_bytes());
    put(IBYTES_AT, &ibytes.to_le_bytes());
    put(OBYTES_AT, &obytes.to_le_bytes());
    bytes
}

fn info(flags: u32, index: u16, ibytes: u64, obytes: u64) -> Vec<u8> {
    record(INFO_LEN as u16, RTM_IFINFO2, flags, index, ibytes, obytes)
}

fn name_buffer(name: &[u8]) -> [u8; IF_NAMESIZE] {
    let mut buffer = [0u8; IF_NAMESIZE];
    buffer[..name.len()].copy_from_slice(name);
    buffer
}

#[test]
fn test_monitor() {
    let table = [info(IFF_UP | IFF_LOOPBACK, 1, 10, 10), info(IFF_UP, 4, 1000, 2000)].concat();
    let mon = Monitor::new();
    let stats = mon.current(table);
    let link = stats.into_iter().next().unwrap();
    Stat::resolve(&link, Ok(&name_buffer(b"en0"))).unwrap();
}

#[test]
fn layout_constants_are_those_of_the_routing_socket() {
    assert_eq!(RTM_IFINFO2, 0x12);
    assert_eq!(IFF_LOOPBACK, 0x8);
    assert_eq!(IF_NAMESIZE, 16);
    assert_eq!(HEAD_LEN, 12);
    assert_eq!(INFO_LEN, 160);
    assert_eq!((TYPE_AT, FLAGS_AT, INDEX_AT, IBYTES_AT, OBYTES_AT), (3, 8, 12, 96, 104));
}

#[test]
fn empty_table_reports_nothing() {
    assert_eq!(Monitor::new().current(Vec::new()), Vec::<Link>::new());
    let mut routes = Routes::new(Vec::new());
    assert_eq!(routes.next(), None);
    assert_eq!(routes.next(), None);
}

#[test]
fn fields_are_read_low_byte_first() {
    let table = info(0x8004_0041, 0x0102, 0x0807_0605_0403_0201, 0xf0e0_d0c0_b0a0_9080);
    assert_eq!(&table[IBYTES_AT..IBYTES_AT + 8], &[1, 2, 3, 4, 5, 6, 7, 8]);
    assert_eq!(&table[INDEX_AT..INDEX_AT + 2], &[2, 1]);
    assert_eq!(
        Monitor::new().current(table),
        vec![Link {
            index: 0x0102,
            flags: 0x8004_0041,
            in_bytes: 0x0807_0605_0403_0201,
            out_bytes: 0xf0e0_d0c0_b0a0_9080,
        }]
    );
}

#[test]
fn largest_field_values_are_read_whole() {
    let table = info(u32::MAX & !IFF_LOOPBACK, u16::MAX, u64::MAX, u64::MAX - 1);
    assert_eq!(
        Monitor::new().current(table),
        vec![Link {
            index: u16::MAX,
            flags: u32::MAX & !IFF_LOOPBACK,
            in_bytes: u64::MAX,
            out_bytes: u64::MAX - 1,
        }]
    );
}

#[test]
fn loopback_and_other_records_are_skipped() {
    let table = [
        info(IFF_UP | IFF_LOOPBACK | IFF_RUNNING, 1, 111, 222),
        record(20, RTM_NEWMADDR2, IFF_UP, 1, 0, 0),
        info(IFF_UP | IFF_RUNNING, 4, 1000, 2000),
        record(48, RTM_NEWMADDR2, IFF_UP, 4, 0, 0),
        record(200, RTM_IFINFO2, IFF_UP, 7, 3000, 4000),
        info(IFF_LOOPBACK, 9, 1, 1),
    ]
    .concat();
    let links = Monitor::new().current(table);
    assert_eq!(
        links,
        vec![
            Link { index: 4, flags: IFF_UP | IFF_RUNNING, in_bytes: 1000, out_bytes: 2000 },
            Link { index: 7, flags: IFF_UP, in_bytes: 3000, out_bytes: 4000 },
        ]
    );
}

#[test]
fn routes_hands_out_one_record_at_a_time() {
    let table = [
        record(16, RTM_NEWMADDR2, 0, 2, 0, 0),
        info(IFF_UP, 4, 1, 2),
        info(IFF_LOOPBACK, 1, 3, 4),
        info(0, 5, 5, 6),
    ]
    .concat();
    let mut routes = Routes::new(table);
    assert_eq!(routes.next(), Some(Link { index: 4, flags: IFF_UP, in_bytes: 1, out_bytes: 2 }));
    assert_eq!(routes.next(), Some(Link { index: 5, flags: 0, in_bytes: 5, out_bytes: 6 }));
    assert_eq!(routes.next(), None);
    assert_eq!(routes.next(), None);
}

#[test]
fn zero_length_record_ends_the_walk() {
    let mut stuck = info(IFF_UP, 6, 7, 8);
    stuck[0] = 0;
    stuck[1] = 0;
    let table = [info(IFF_UP, 4, 1, 2), stuck, info(IFF_UP, 5, 3, 4)].concat();
    assert_eq!(
        Monitor::new().current(table),
        vec![Link { index: 4, flags: IFF_UP, in_bytes: 1, out_bytes: 2 }]
    );
}

#[test]
fn record_cut_short_by_the_end_of_the_table_ends_the_walk() {
    let mut table = [info(IFF_UP, 4, 1, 2), info(IFF_UP, 5, 3, 4)].concat();
    table.truncate(INFO_LEN + INFO_LEN - 1);
    let expected = vec![Link { index: 4, flags: IFF_UP, in_bytes: 1, out_bytes: 2 }];
    assert_eq!(Monitor::new().current(table.clone()), expected);
    table.truncate(INFO_LEN + HEAD_LEN - 1);
    assert_eq!(Monitor::new().current(table.clone()), expected);
    table.truncate(INFO_LEN + 1);
    assert_eq!(Monitor::new().current(table), expected);
}

#[test]
fn record_that_claims_more_than_the_table_holds_is_still_read() {
    let mut table = info(IFF_UP, 4, 1, 2);
    table[0] = 0xff;
    table[1] = 0xff;
    let mut routes = Routes::new(table);
    assert_eq!(routes.next(), Some(Link { index: 4, flags: IFF_UP, in_bytes: 1, out_bytes: 2 }));
    assert_eq!(routes.next(), None);
}

#[test]
fn short_record_is_stepped_over_by_its_own_length() {
    let table = [record(4, RTM_NEWMADDR2, 0, 0, 0, 0), info(IFF_UP, 4, 1, 2)].concat();
    assert_eq!(table.len(), 4 + INFO_LEN);
    assert_eq!(
        Monitor::new().current(table),
        vec![Link { index: 4, flags: IFF_UP, in_bytes: 1, out_bytes: 2 }]
    );
}

#[test]
fn name_ends_at_the_first_zero() {
    assert_eq!(name_bytes(b"en0\0\0\0"), b"en0");
    assert_eq!(name_bytes(b"en0\0en1\0"), b"en0");
    assert_eq!(name_bytes(b"\0en0"), b"");
    assert_eq!(name_bytes(b""), b"");
    assert_eq!(name_bytes(b"lo0"), b"lo0");
    assert_eq!(name_bytes(&name_buffer(b"bridge100")), b"bridge100");
}

#[test]
fn resolve_reads_the_name_up_to_the_first_zero() {
    let link = Link { index: 4, flags: IFF_UP, in_bytes: 1000, out_bytes: 2000 };
    let stat = Stat::resolve(&link, Ok(&name_buffer(b"en0"))).unwrap();
    assert_eq!(
        stat,
        Stat { name: "en0".to_string(), flags: IFF_UP, in_bytes: 1000, out_bytes: 2000 }
    );
    let stat = Stat::resolve(&link, Ok(b"bridge100\0junk\0\0")).unwrap();
    assert_eq!(stat.name, "bridge100");
    let stat = Stat::resolve(&link, Ok(&[0u8; IF_NAMESIZE])).unwrap();
    assert_eq!(stat.name, "");
    let stat = Stat::resolve(&link, Ok(&[])).unwrap();
    assert_eq!(stat.name, "");
}

#[test]
fn resolve_takes_the_whole_buffer_where_no_byte_is_zero() {
    let link = Link { index: 4, flags: 0, in_bytes: 0, out_bytes: 0 };
    let stat = Stat::resolve(&link, Ok(b"0123456789abcdef")).unwrap();
    assert_eq!(stat.name, "0123456789abcdef");
}

#[test]
fn resolve_replaces_what_is_not_utf8() {
    let link = Link { index: 4, flags: 0, in_bytes: 0, out_bytes: 0 };
    let stat = Stat::resolve(&link, Ok(b"en\xff0\0")).unwrap();
    assert_eq!(stat.name, "en\u{fffd}0");
    assert_ne!(stat.name.as_bytes(), b"en\xff0");
    let stat = Stat::resolve(&link, Ok("wlan\u{e9}\0".as_bytes())).unwrap();
    assert_eq!(stat.name, "wlan\u{e9}");
}

#[test]
fn resolve_hands_on_the_lookup_error() {
    let link = Link { index: 12, flags: IFF_UP, in_bytes: 1, out_bytes: 2 };
    assert_eq!(Stat::resolve(&link, Err(6)), Err(RecordError { index: 12, code: 6 }));
}
