use clairvoyance::codec::{decode, encode};
use clairvoyance::data::{CpuTime, CpuUsage, Data, Io, Memory, NetIo, NetIoTable};

fn counters(first: u64) -> NetIo {
    NetIo {
        bytes_sent: first,
        bytes_recv: first + 1,
        packets_sent: first + 2,
        packets_recv: first + 3,
        errors_sent: first + 4,
        errors_recv: first + 5,
        drop_recv: first + 6,
        drop_sent: first + 7,
    }
}

fn small() -> Data {
    let mut net_io = NetIoTable::new();
    net_io.insert("lo".to_string(), counters(1));
    Data {
        memory: Memory { rss: 300, vms: 1, shared: None, text: Some(5), data: None },
        cpu_time: CpuTime { user: 128, system: 0 },
        cpu_usage: CpuUsage(12_500),
        io: Io {
            bytes_written: 7,
            bytes_read: 8,
            disk_written: None,
            disk_read: Some(0),
            syscall_written: None,
            syscall_read: None,
        },
        net_io,
    }
}

fn small_bytes() -> Vec<u8> {
    vec![
        0xAC, 0x02, 0x01, 0x00, 0x01, 0x05, 0x00, // memory
        0x80, 0x01, 0x00, // cpu time
        0xD4, 0x61, // cpu usage
        0x07, 0x08, 0x00, 0x01, 0x00, 0x00, 0x00, // io
        0x01, // one interface
        0x02, 0x6C, 0x6F, // "lo"
        0x01, 0x02, 0x03, 0x04, 0x05, 0x06, 0x07, 0x08,
    ]
}

fn empty() -> Data {
    Data {
        memory: Memory { rss: 0, vms: 0, shared: None, text: None, data: None },
        cpu_time: CpuTime { user: 0, system: 0 },
        cpu_usage: CpuUsage(0),
        io: Io {
            bytes_written: 0,
            bytes_read: 0,
            disk_written: None,
            disk_read: None,
            syscall_written: None,
            syscall_read: None,
        },
        net_io: NetIoTable::new(),
    }
}

#[test]
fn encode_lays_fields_out_in_order() {
    assert_eq!(encode(&small()), small_bytes());
}

#[test]
fn encode_of_all_zero_snapshot() {
    assert_eq!(encode(&empty()), vec![0u8; 15]);
}

#[test]
fn decode_reads_the_layout_back() {
    assert_eq!(decode(&small_bytes()), Some(small()));
}

#[test]
fn integers_take_seven_bits_per_byte() {
    let mut data = empty();
    data.memory.rss = 127;
    assert_eq!(encode(&data)[..2], [0x7F, 0x00]);
    data.memory.rss = 128;
    assert_eq!(encode(&data)[..3], [0x80, 0x01, 0x00]);
    data.memory.rss = 16_383;
    assert_eq!(encode(&data)[..3], [0xFF, 0x7F, 0x00]);
    data.memory.rss = 16_384;
    assert_eq!(encode(&data)[..4], [0x80, 0x80, 0x01, 0x00]);
}

#[test]
fn largest_counter_takes_ten_bytes() {
    let mut data = empty();
    data.memory.rss = u64::MAX;
    let bytes = encode(&data);
    assert_eq!(bytes.len(), 24);
    assert_eq!(bytes[..10], [0xFF, 0xFF, 0xFF, 0xFF, 0xFF, 0xFF, 0xFF, 0xFF, 0xFF, 0x01]);
    assert_eq!(decode(&bytes), Some(data));
}

#[test]
fn snapshot_roundtrip_with_every_field_set() {
    let mut net_io = NetIoTable::new();
    net_io.insert("eth0".to_string(), counters(1_000_000));
    net_io.insert("wlan0".to_string(), counters(u64::MAX - 7));
    net_io.insert("réseau-π".to_string(), counters(0));
    let data = Data {
        memory: Memory {
            rss: 1 << 40,
            vms: u64::MAX,
            shared: Some(0),
            text: Some(u64::MAX),
            data: Some(4096),
        },
        cpu_time: CpuTime { user: 123_456_789, system: 987_654_321 },
        cpu_usage: CpuUsage(99_999),
        io: Io {
            bytes_written: 1,
            bytes_read: 2,
            disk_written: Some(3),
            disk_read: Some(4),
            syscall_written: Some(5),
            syscall_read: Some(6),
        },
        net_io,
    };
    let bytes = encode(&data);
    let back = decode(&bytes).unwrap();
    assert_eq!(back, data);
    assert_eq!(back.net_io.len(), 3);
    assert_eq!(back.net_io.entry(0).name, "eth0");
    assert_eq!(back.net_io.entry(2).name, "réseau-π");
    assert_eq!(back.net_io.get("wlan0"), Some(counters(u64::MAX - 7)));
}

#[test]
fn decode_refuses_empty_input() {
    assert_eq!(decode(&[]), None);
}

#[test]
fn decode_refuses_every_proper_prefix() {
    let bytes = small_bytes();
    for cut in 0..bytes.len() {
        assert_eq!(decode(&bytes[..cut]), None, "prefix of {} bytes", cut);
    }
}

#[test]
fn decode_refuses_trailing_bytes() {
    let mut bytes = small_bytes();
    bytes.push(0);
    assert_eq!(decode(&bytes), None);
}

#[test]
fn decode_refuses_unknown_option_tag() {
    let mut bytes = small_bytes();
    bytes[3] = 2;
    assert_eq!(decode(&bytes), None);
}

#[test]
fn decode_refuses_name_that_is_not_utf8() {
    let mut bytes = small_bytes();
    bytes[21] = 0xFF;
    assert_eq!(decode(&bytes), None);
}

#[test]
fn decode_refuses_repeated_interface_name() {
    let mut bytes = small_bytes();
    bytes[19] = 2;
    bytes.extend_from_slice(&[0x02, 0x6C, 0x6F, 9, 9, 9, 9, 9, 9, 9, 9]);
    assert_eq!(decode(&bytes), None);
    let second_name_ends = bytes.len() - 9;
    bytes[second_name_ends] = 0x70;
    let data = decode(&bytes).unwrap();
    assert_eq!(data.net_io.len(), 2);
    assert_eq!(data.net_io.entry(1).name, "lp");
}

#[test]
fn decode_refuses_row_count_beyond_the_rows() {
    let mut bytes = small_bytes();
    bytes[19] = 2;
    assert_eq!(decode(&bytes), None);
}

#[test]
fn decode_refuses_integer_without_end() {
    let mut bytes = vec![0x80u8; 11];
    bytes.extend_from_slice(&[0u8; 14]);
    assert_eq!(decode(&bytes), None);
}

#[test]
fn decode_accepts_padded_integer() {
    let mut bytes = vec![0x80u8, 0x00];
    bytes.extend_from_slice(&[0u8; 14]);
    assert_eq!(decode(&bytes), Some(empty()));
}

#[test]
fn table_insert_overwrites_in_place() {
    let mut table = NetIoTable::new();
    assert_eq!(table.insert("a".to_string(), counters(1)), None);
    assert_eq!(table.insert("b".to_string(), counters(2)), None);
    assert_eq!(table.insert("a".to_string(), counters(3)), Some(counters(1)));
    assert_eq!(table.len(), 2);
    assert_eq!(table.entry(0).name, "a");
    assert_eq!(table.entry(0).counters, counters(3));
    assert_eq!(table.entry(1).name, "b");
    assert_eq!(table.get("a"), Some(counters(3)));
    assert_eq!(table.get("c"), None);
    assert!(table.get_entry(2).is_none());
    assert_eq!(table.get_entry(1).unwrap().counters, counters(2));
}

#[test]
fn table_clone_is_equal() {
    let mut table = NetIoTable::new();
    table.insert("a".to_string(), counters(1));
    table.insert("b".to_string(), counters(2));
    let copy = table.clone();
    assert_eq!(copy, table);
    assert_eq!(copy.entry(1).name, "b");
}

#[test]
fn decode_drops_bits_beyond_the_64th() {
    let mut bytes = vec![0xFFu8; 9];
    bytes.push(0x7F);
    bytes.extend_from_slice(&[0u8; 14]);
    let mut expected = empty();
    expected.memory.rss = u64::MAX;
    assert_eq!(decode(&bytes), Some(expected));

    let mut bytes = vec![0x80u8; 9];
    bytes.push(0x02);
    bytes.extend_from_slice(&[0u8; 14]);
    assert_eq!(decode(&bytes), Some(empty()));
}

#[test]
fn decode_refuses_integer_of_eleven_bytes() {
    let mut bytes = vec![0x80u8; 10];
    bytes.push(0x00);
    bytes.extend_from_slice(&[0u8; 14]);
    assert_eq!(decode(&bytes), None);
}
