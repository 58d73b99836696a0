use clairvoyance::data::{CpuTime, CpuUsage, Data, Io, Memory, NetIo, NetIoTable};
use clairvoyance::store::{StoreError, StoreStream};

fn sample(seed: u64) -> Data {
    let mut net_io = NetIoTable::new();
    for i in 0..(seed % 4) {
        net_io.insert(
            format!("if{}", i),
            NetIo {
                bytes_sent: seed * 1_000 + i,
                bytes_recv: seed,
                packets_sent: i,
                packets_recv: seed << 20,
                errors_sent: 0,
                errors_recv: 1,
                drop_recv: u64::MAX - seed,
                drop_sent: 2,
            },
        );
    }
    Data {
        memory: Memory {
            rss: seed * 4096,
            vms: seed * 8192,
            shared: if seed % 2 == 0 { Some(seed) } else { None },
            text: Some(seed + 1),
            data: None,
        },
        cpu_time: CpuTime { user: seed * 10_000, system: seed * 3 },
        cpu_usage: CpuUsage(seed * 7 % 100_000),
        io: Io {
            bytes_written: seed,
            bytes_read: seed * seed,
            disk_written: Some(seed),
            disk_read: None,
            syscall_written: Some(0),
            syscall_read: if seed % 3 == 0 { Some(u64::MAX) } else { None },
        },
        net_io,
    }
}

fn log_of(records: &[Data]) -> Vec<u8> {
    let mut store = StoreStream::create();
    for record in records {
        store.write(record);
    }
    store.flush()
}

#[test]
fn empty_log_reads_as_end_of_stream() {
    let mut store = StoreStream::open(Vec::new());
    assert_eq!(store.read(), Ok(None));
    assert_eq!(store.read(), Ok(None));
    assert_eq!(store.read_all(), Ok(Vec::new()));
}

#[test]
fn created_store_has_nothing_to_flush_or_read() {
    let mut store = StoreStream::create();
    assert_eq!(store.flush(), Vec::<u8>::new());
    assert_eq!(store.read(), Ok(None));
}

#[test]
fn frame_is_length_then_snapshot() {
    let record = sample(0);
    let payload = clairvoyance::codec::encode(&record);
    let log = log_of(&[record]);
    assert_eq!(log[0] as usize, payload.len());
    assert_eq!(&log[1..], &payload[..]);
}

#[test]
fn frame_length_of_a_long_snapshot_takes_two_bytes() {
    let mut record = sample(0);
    let name: String = std::iter::repeat('x').take(200).collect();
    record.net_io.insert(name, sample(1).net_io.entry(0).counters);
    let payload = clairvoyance::codec::encode(&record);
    assert!(payload.len() >= 128 && payload.len() < 16_384);
    let log = log_of(&[record.clone()]);
    assert_eq!(log[0], 0x80 | (payload.len() % 128) as u8);
    assert_eq!(log[1], (payload.len() / 128) as u8);
    assert_eq!(&log[2..], &payload[..]);
    assert_eq!(StoreStream::open(log).read(), Ok(Some(record)));
}

#[test]
fn roundtrip_keeps_every_record_in_order() {
    let records: Vec<Data> = (0..50).map(sample).collect();
    let log = log_of(&records);
    let mut store = StoreStream::open(log);
    for record in &records {
        assert_eq!(store.read(), Ok(Some(record.clone())));
    }
    assert_eq!(store.read(), Ok(None));
}

#[test]
fn read_all_gives_the_records_written() {
    let records: Vec<Data> = (0..20).map(sample).collect();
    let mut store = StoreStream::open(log_of(&records));
    assert_eq!(store.read_all(), Ok(records));
    assert_eq!(store.read(), Ok(None));
}

#[test]
fn read_all_continues_from_the_cursor() {
    let records: Vec<Data> = (0..5).map(sample).collect();
    let mut store = StoreStream::open(log_of(&records));
    assert_eq!(store.read(), Ok(Some(records[0].clone())));
    assert_eq!(store.read_all(), Ok(records[1..].to_vec()));
}

#[test]
fn flushes_in_between_do_not_change_the_log() {
    let records: Vec<Data> = (0..9).map(sample).collect();
    let whole = log_of(&records);
    let mut store = StoreStream::create();
    let mut disk = Vec::new();
    for (i, record) in records.iter().enumerate() {
        store.write(record);
        if i % 3 == 2 {
            disk.extend(store.flush());
        }
    }
    disk.extend(store.flush());
    assert_eq!(disk, whole);
}

#[test]
fn repeated_flush_hands_out_nothing_more() {
    let mut store = StoreStream::create();
    store.write(&sample(1));
    store.write(&sample(2));
    let mut disk = store.flush();
    assert!(!disk.is_empty());
    assert_eq!(store.flush(), Vec::<u8>::new());
    assert_eq!(store.flush(), Vec::<u8>::new());
    store.write(&sample(3));
    disk.extend(store.flush());
    assert_eq!(store.flush(), Vec::<u8>::new());
    assert_eq!(StoreStream::open(disk).read_all(), Ok(vec![sample(1), sample(2), sample(3)]));
}

#[test]
fn log_cut_inside_a_frame_is_corrupt() {
    let records: Vec<Data> = (1..4).map(sample).collect();
    let whole = log_of(&records);
    let two = log_of(&records[..2]).len();
    for cut in (two + 1)..whole.len() {
        let mut store = StoreStream::open(whole[..cut].to_vec());
        assert_eq!(store.read(), Ok(Some(records[0].clone())));
        assert_eq!(store.read(), Ok(Some(records[1].clone())));
        assert_eq!(store.read(), Err(StoreError::CorruptRecord), "cut at {}", cut);
        assert_eq!(store.read(), Err(StoreError::CorruptRecord));
        let mut again = StoreStream::open(whole[..cut].to_vec());
        assert_eq!(again.read_all(), Err(StoreError::CorruptRecord));
    }
}

#[test]
fn log_cut_at_a_frame_boundary_is_a_shorter_log() {
    let records: Vec<Data> = (1..4).map(sample).collect();
    let whole = log_of(&records);
    let two = log_of(&records[..2]).len();
    let mut store = StoreStream::open(whole[..two].to_vec());
    assert_eq!(store.read_all(), Ok(records[..2].to_vec()));
}

#[test]
fn log_cut_inside_the_length_prefix_is_corrupt() {
    let mut record = sample(0);
    let name: String = std::iter::repeat('y').take(300).collect();
    record.net_io.insert(name, sample(1).net_io.entry(0).counters);
    let log = log_of(&[record]);
    assert!(log[0] >= 0x80);
    let mut store = StoreStream::open(log[..1].to_vec());
    assert_eq!(store.read(), Err(StoreError::CorruptRecord));
}

#[test]
fn frame_with_damaged_snapshot_is_corrupt() {
    let mut log = log_of(&[sample(2)]);
    let last = log.len() - 1;
    log.truncate(last);
    log[0] -= 1;
    let mut store = StoreStream::open(log);
    assert_eq!(store.read(), Err(StoreError::CorruptRecord));
}

#[test]
fn frame_whose_length_overshoots_is_corrupt() {
    let mut log = log_of(&[sample(2)]);
    log[0] += 1;
    assert_eq!(StoreStream::open(log).read_all(), Err(StoreError::CorruptRecord));
}

#[test]
fn garbage_is_corrupt() {
    assert_eq!(StoreStream::open(vec![0]).read(), Err(StoreError::CorruptRecord));
    assert_eq!(StoreStream::open(vec![0xFF; 64]).read(), Err(StoreError::CorruptRecord));
    assert_eq!(StoreStream::open(vec![3, 1, 2, 3]).read(), Err(StoreError::CorruptRecord));
}
