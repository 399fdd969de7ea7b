use cdb64::{Cdb, CdbHash, CdbWriter, Cursor, ErrorKind, KeyHasher, ReaderAt};
use memmap2::{Mmap, MmapMut};

fn create_in_memory_cdb_with_hasher<H: KeyHasher>(
    records: &[(&[u8], &[u8])],
) -> Cdb<Cursor<Vec<u8>>, H> {
    let mut writer = CdbWriter::<_, H>::new(Cursor::new(Vec::new())).unwrap();
    for (key, value) in records {
        writer.put(key, value).unwrap();
    }
    writer.finalize().unwrap();
    let cursor = writer.into_inner().unwrap();
    Cdb::<_, H>::new(cursor).unwrap()
}

fn create_in_memory_cdb(records: &[(&[u8], &[u8])]) -> Cdb<Cursor<Vec<u8>>, CdbHash> {
    create_in_memory_cdb_with_hasher::<CdbHash>(records)
}

fn build_bytes(records: &[(&[u8], &[u8])]) -> Vec<u8> {
    let mut writer = CdbWriter::<_, CdbHash>::new(Cursor::new(Vec::new())).unwrap();
    for (key, value) in records {
        writer.put(key, value).unwrap();
    }
    writer.finalize().unwrap();
    writer.into_inner().unwrap().into_inner()
}

fn map_of(data: &[u8]) -> Mmap {
    let mut map = MmapMut::map_anon(data.len().max(1)).unwrap();
    map[..data.len()].copy_from_slice(data);
    map.make_read_only().unwrap()
}

#[test]
fn test_cdb_new_and_get_simple() {
    let records = vec![
        (b"key1".as_ref(), b"value1".as_ref()),
        (b"key2".as_ref(), b"value2".as_ref()),
    ];
    let cdb = create_in_memory_cdb(&records);

    assert_eq!(cdb.get(b"key1").unwrap().unwrap(), b"value1");
    assert_eq!(cdb.get(b"key2").unwrap().unwrap(), b"value2");
    assert!(cdb.get(b"key3").unwrap().is_none());
}

#[test]
fn test_cdb_get_empty_key() {
    let records = vec![(b"".as_ref(), b"empty_value".as_ref())];
    let cdb = create_in_memory_cdb(&records);
    assert_eq!(cdb.get(b"").unwrap().unwrap(), b"empty_value");
}

#[test]
fn test_cdb_get_empty_value() {
    let records = vec![(b"key_empty_val".as_ref(), b"".as_ref())];
    let cdb = create_in_memory_cdb(&records);
    assert_eq!(cdb.get(b"key_empty_val").unwrap().unwrap(), b"");
}

#[test]
fn test_cdb_get_empty_key_and_value() {
    let records = vec![(b"".as_ref(), b"".as_ref())];
    let cdb = create_in_memory_cdb(&records);
    assert_eq!(cdb.get(b"").unwrap().unwrap(), b"");
}

#[test]
fn test_cdb_get_from_empty_db() {
    let cdb = create_in_memory_cdb(&[]);
    assert!(cdb.get(b"any_key").unwrap().is_none());
}

#[test]
fn test_cdb_open_and_get_from_file() {
    let data = build_bytes(&[(b"file_key".as_ref(), b"file_value".as_ref())]);

    let cdb = Cdb::<_, CdbHash>::new(&data[..]).unwrap();
    assert_eq!(cdb.get(b"file_key").unwrap().unwrap(), b"file_value");
    assert!(cdb.get(b"other_key").unwrap().is_none());

    let cdb_mmap = Cdb::<_, CdbHash>::with_mmap(&data[..], map_of(&data)).unwrap();
    assert_eq!(cdb_mmap.get(b"file_key").unwrap().unwrap(), b"file_value");
    assert!(cdb_mmap.get(b"other_key").unwrap().is_none());
}

struct CollisionHasher;

impl KeyHasher for CollisionHasher {
    fn hash(bytes: &[u8]) -> u64 {
        let state = if bytes.len() <= 8 {
            let mut arr = [0u8; 8];
            arr[..bytes.len()].copy_from_slice(bytes);
            u64::from_le_bytes(arr)
        } else {
            0xDEADBEEFCAFEFACE
        };
        if state == u64::from_le_bytes(*b"key_A\0\0\0") {
            0x0102030405060708
        } else if state == u64::from_le_bytes(*b"key_B\0\0\0") {
            0x1112131415161718
        } else if state == u64::from_le_bytes(*b"key_C\0\0\0") {
            0x0102030405060708
        } else {
            state
        }
    }
}

#[test]
fn test_cdb_get_with_hash_collision() {
    let records = [
        (b"key_A".as_ref(), b"value_A".as_ref()),
        (b"key_B".as_ref(), b"value_B".as_ref()),
        (b"key_C".as_ref(), b"value_C".as_ref()),
    ];
    let cdb = create_in_memory_cdb_with_hasher::<CollisionHasher>(&records);

    assert_eq!(cdb.get(b"key_A").unwrap().unwrap(), b"value_A");
    assert_eq!(cdb.get(b"key_B").unwrap().unwrap(), b"value_B");
    assert_eq!(cdb.get(b"key_C").unwrap().unwrap(), b"value_C");
    assert!(cdb.get(b"key_D").unwrap().is_none());
}

#[test]
fn test_read_header_invalid_data_short() {
    let data = vec![0u8; 4096 - 10];
    let cursor = Cursor::new(data.clone());
    let result = Cdb::<_, CdbHash>::new(cursor);
    assert!(result.is_err());
    assert_eq!(result.err().unwrap().kind(), ErrorKind::UnexpectedEof);

    let result_mmap = Cdb::<_, CdbHash>::with_mmap(&data[..], map_of(&data));
    assert!(result_mmap.is_err());
    let err_kind = result_mmap.err().unwrap().kind();
    assert!(
        err_kind == ErrorKind::InvalidData || err_kind == ErrorKind::Other,
        "Unexpected error kind: {:?}",
        err_kind
    );
}

#[test]
fn test_compatibility_fixture_pairs() {
    let expected: Vec<(&[u8], &[u8])> = vec![
        (b"foo".as_ref(), b"bar".as_ref()),
        (b"baz".as_ref(), b"quuuux".as_ref()),
        (b"playwright".as_ref(), b"wow".as_ref()),
        (b"crystal".as_ref(), b"CASTLES".as_ref()),
        (b"CRYSTAL".as_ref(), b"castles".as_ref()),
        (b"snush".as_ref(), b"collision!".as_ref()),
        (b"a".as_ref(), b"a".as_ref()),
        (b"empty_value".as_ref(), b"".as_ref()),
        (b"".as_ref(), b"empty_key".as_ref()),
    ];
    let data = build_bytes(&expected);
    let cdb = Cdb::<_, CdbHash>::new(&data[..]).expect("should open");
    let mapped = Cdb::<_, CdbHash>::with_mmap(&data[..], map_of(&data)).expect("should open");
    for (k, v) in expected {
        let got = cdb.get(k).expect("read should succeed");
        assert_eq!(got.as_deref(), Some(v), "key={:?}", k);
        let got = mapped.get(k).expect("read should succeed");
        assert_eq!(got.as_deref(), Some(v), "key={:?}", k);
    }
    assert!(cdb.get(b"not in the table").expect("read should succeed").is_none());
    assert!(mapped.get(b"not in the table").expect("read should succeed").is_none());
}

#[test]
fn test_two_pairs_exact_file_bytes() {
    let data = build_bytes(&[
        (b"foo".as_ref(), b"bar".as_ref()),
        (b"baz".as_ref(), b"quuuux".as_ref()),
    ]);
    // hash("foo") = 0x17c96cf01, hash("baz") = 0x17c95fbf0 under the 64-bit DJB hash
    let h_foo = <CdbHash as KeyHasher>::hash(b"foo");
    let h_baz = <CdbHash as KeyHasher>::hash(b"baz");
    assert_ne!(h_foo & 0xff, h_baz & 0xff);
    let data_end: u64 = 4096 + (8 + 3 + 3) + (8 + 3 + 6);
    assert_eq!(data.len() as u64, data_end + 2 * 32);
    assert_eq!(&data[4096..4104], &[3, 0, 0, 0, 3, 0, 0, 0]);
    assert_eq!(&data[4104..4110], b"foobar");
    assert_eq!(&data[4110..4118], &[3, 0, 0, 0, 6, 0, 0, 0]);
    assert_eq!(&data[4118..4127], b"bazquuuux");

    let (first, second) = if (h_foo & 0xff) < (h_baz & 0xff) {
        ((h_foo, 4096u64), (h_baz, 4110u64))
    } else {
        ((h_baz, 4110u64), (h_foo, 4096u64))
    };
    let entry = |t: u64| -> (u64, u64) {
        let at = (t as usize) * 16;
        (
            u64::from_le_bytes(data[at..at + 8].try_into().unwrap()),
            u64::from_le_bytes(data[at + 8..at + 16].try_into().unwrap()),
        )
    };
    for t in 0..256u64 {
        if t == first.0 & 0xff {
            assert_eq!(entry(t), (data_end, 2));
        } else if t == second.0 & 0xff {
            assert_eq!(entry(t), (data_end + 32, 2));
        } else {
            assert_eq!(entry(t), (0, 0));
        }
    }
    for (i, (h, off)) in [first, second].iter().enumerate() {
        let base = data_end as usize + 32 * i;
        let slot = ((h >> 8) % 2) as usize;
        let at = base + 16 * slot;
        assert_eq!(u64::from_le_bytes(data[at..at + 8].try_into().unwrap()), *h);
        assert_eq!(u64::from_le_bytes(data[at + 8..at + 16].try_into().unwrap()), *off);
        let other = base + 16 * (1 - slot);
        assert_eq!(&data[other..other + 16], &[0u8; 16]);
    }
}

#[test]
fn test_get_reports_slot_array_beyond_end() {
    let mut data = build_bytes(&[(b"foo".as_ref(), b"bar".as_ref())]);
    let cut = data.len() - 20;
    data.truncate(cut);
    // the slot of "foo" may be the first or the second of the two
    let cdb = Cdb::<_, CdbHash>::new(&data[..]).unwrap();
    let mapped = Cdb::<_, CdbHash>::with_mmap(&data[..], map_of(&data)).unwrap();
    let h = <CdbHash as KeyHasher>::hash(b"foo");
    if (h >> 8) % 2 == 1 {
        assert_eq!(cdb.get(b"foo").err().unwrap().kind(), ErrorKind::UnexpectedEof);
        assert_eq!(mapped.get(b"foo").err().unwrap().kind(), ErrorKind::UnexpectedEof);
    } else {
        assert_eq!(cdb.get(b"foo").unwrap().unwrap(), b"bar");
        assert_eq!(mapped.get(b"foo").unwrap().unwrap(), b"bar");
    }
}

#[test]
fn test_get_reports_value_beyond_end() {
    let h = <CdbHash as KeyHasher>::hash(b"k");
    let mut data = vec![0u8; 4096];
    // one record whose value length points past the end of the file
    data.extend_from_slice(&1u32.to_le_bytes());
    data.extend_from_slice(&100u32.to_le_bytes());
    data.extend_from_slice(b"kv");
    let table = data.len() as u64;
    let mut slots = vec![0u8; 32];
    let slot = ((h >> 8) % 2) as usize;
    slots[16 * slot..16 * slot + 8].copy_from_slice(&h.to_le_bytes());
    slots[16 * slot + 8..16 * slot + 16].copy_from_slice(&4096u64.to_le_bytes());
    data.extend_from_slice(&slots);
    let t = (h & 0xff) as usize;
    data[16 * t..16 * t + 8].copy_from_slice(&table.to_le_bytes());
    data[16 * t + 8..16 * t + 16].copy_from_slice(&2u64.to_le_bytes());

    let cdb = Cdb::<_, CdbHash>::new(&data[..]).unwrap();
    assert_eq!(cdb.get(b"k").err().unwrap().kind(), ErrorKind::UnexpectedEof);
    assert!(cdb.get(b"kk").unwrap().is_none());
    let mapped = Cdb::<_, CdbHash>::with_mmap(&data[..], map_of(&data)).unwrap();
    assert_eq!(mapped.get(b"k").err().unwrap().kind(), ErrorKind::InvalidData);
    assert!(mapped.get(b"kk").unwrap().is_none());
}

#[test]
fn test_probe_stops_after_length_slots_when_no_slot_is_empty() {
    let h = <CdbHash as KeyHasher>::hash(b"absent");
    let mut data = vec![0u8; 4096];
    data.extend_from_slice(&5u32.to_le_bytes());
    data.extend_from_slice(&0u32.to_le_bytes());
    data.extend_from_slice(b"other");
    let table = data.len() as u64;
    for _ in 0..3 {
        data.extend_from_slice(&h.to_le_bytes());
        data.extend_from_slice(&4096u64.to_le_bytes());
    }
    let t = (h & 0xff) as usize;
    data[16 * t..16 * t + 8].copy_from_slice(&table.to_le_bytes());
    data[16 * t + 8..16 * t + 16].copy_from_slice(&3u64.to_le_bytes());
    let cdb = Cdb::<_, CdbHash>::new(&data[..]).unwrap();
    assert!(cdb.get(b"absent").unwrap().is_none());
}

/// What a recording reader saw: where it was read, and whether it fails from now on.
struct Log {
    reads: std::cell::RefCell<Vec<(u64, usize)>>,
    failing: std::cell::Cell<bool>,
}

/// A reader over bytes in memory that records each read in a log shared with the test.
struct RecordingReader {
    data: Vec<u8>,
    log: std::rc::Rc<Log>,
}

fn recording(data: Vec<u8>) -> (RecordingReader, std::rc::Rc<Log>) {
    let log = std::rc::Rc::new(Log {
        reads: std::cell::RefCell::new(Vec::new()),
        failing: std::cell::Cell::new(false),
    });
    (RecordingReader { data, log: log.clone() }, log)
}

impl cdb64::ReaderAt for RecordingReader {
    fn read_at(&self, buf: &mut [u8], offset: u64) -> Result<usize, cdb64::IoError> {
        self.log.reads.borrow_mut().push((offset, buf.len()));
        if self.log.failing.get() {
            return Err(cdb64::IoError::new(ErrorKind::Other));
        }
        (&self.data[..]).read_at(buf, offset)
    }
}

fn full_table_without_match(h: u64, len: u64) -> (Vec<u8>, u64) {
    let mut data = vec![0u8; 4096];
    data.extend_from_slice(&5u32.to_le_bytes());
    data.extend_from_slice(&0u32.to_le_bytes());
    data.extend_from_slice(b"other");
    let table = data.len() as u64;
    for _ in 0..len {
        // another hash of the same subtable: no record is compared
        data.extend_from_slice(&(h ^ 0x100).to_le_bytes());
        data.extend_from_slice(&4096u64.to_le_bytes());
    }
    let t = (h & 0xff) as usize;
    data[16 * t..16 * t + 8].copy_from_slice(&table.to_le_bytes());
    data[16 * t + 8..16 * t + 16].copy_from_slice(&len.to_le_bytes());
    (data, table)
}

#[test]
fn test_get_reads_each_slot_of_the_probe_sequence_once() {
    let h = <CdbHash as KeyHasher>::hash(b"absent");
    let len = 5u64;
    let (data, table) = full_table_without_match(h, len);
    let (reader, log) = recording(data);
    let cdb = Cdb::<_, CdbHash>::new(reader).unwrap();
    assert_eq!(log.reads.borrow().clone(), vec![(0u64, 4096usize)]);
    log.reads.borrow_mut().clear();

    assert!(cdb.get(b"absent").unwrap().is_none());
    let start = (h >> 8) % len;
    let expected: Vec<(u64, usize)> = (0..len)
        .map(|i| (table + 16 * ((start + i) % len), 16))
        .collect();
    assert_eq!(log.reads.borrow().clone(), expected);
}

#[test]
fn test_probe_table_counts_the_slots_it_inspects() {
    let h = <CdbHash as KeyHasher>::hash(b"absent");
    let (data, table) = full_table_without_match(h, 5);
    let cdb = Cdb::<_, CdbHash>::new(&data[..]).unwrap();
    let entry = cdb64::cdb::TableEntry { offset: table, length: 5 };
    let (found, visited) = cdb.probe_table(entry, h, b"absent");
    assert_eq!(found, Ok(None));
    assert_eq!(visited, 5);

    // an empty slot ends the probe at once
    let built = build_bytes(&[(b"foo".as_ref(), b"bar".as_ref())]);
    let cdb = Cdb::<_, CdbHash>::new(&built[..]).unwrap();
    let h_foo = <CdbHash as KeyHasher>::hash(b"foo");
    let entry = cdb64::cdb::TableEntry { offset: built.len() as u64 - 32, length: 2 };
    let (found, visited) = cdb.probe_table(entry, h_foo, b"foo");
    assert_eq!(found, Ok(Some(b"bar".to_vec())));
    assert_eq!(visited, 1);
    let (found, visited) = cdb.probe_table(entry, h_foo ^ 0x100, b"foo");
    assert_eq!(found, Ok(None));
    assert_eq!(visited, 1);
}

#[test]
fn test_get_in_an_empty_subtable_reads_nothing() {
    let built = build_bytes(&[(b"foo".as_ref(), b"bar".as_ref())]);
    let (reader, log) = recording(built);
    let cdb = Cdb::<_, CdbHash>::new(reader).unwrap();
    log.reads.borrow_mut().clear();
    log.failing.set(true);

    let mut absent = None;
    for i in 0..100u32 {
        let key = format!("k{}", i).into_bytes();
        if <CdbHash as KeyHasher>::hash(&key) & 0xff != <CdbHash as KeyHasher>::hash(b"foo") & 0xff
        {
            absent = Some(key);
            break;
        }
    }
    assert_eq!(cdb.get(&absent.unwrap()), Ok(None));
    assert!(log.reads.borrow().is_empty());
    // the subtable of "foo" needs the reader, which now fails
    assert_eq!(cdb.get(b"foo").err().unwrap().kind(), ErrorKind::Other);
}

#[test]
fn test_get_refuses_a_slot_beyond_64_bits_without_reading() {
    let h = <CdbHash as KeyHasher>::hash(b"k");
    let mut data = vec![0u8; 4096];
    let t = (h & 0xff) as usize;
    data[16 * t..16 * t + 8].copy_from_slice(&(u64::MAX - 7).to_le_bytes());
    data[16 * t + 8..16 * t + 16].copy_from_slice(&u64::MAX.to_le_bytes());
    let (reader, log) = recording(data);
    let cdb = Cdb::<_, CdbHash>::new(reader).unwrap();
    log.reads.borrow_mut().clear();
    assert_eq!(cdb.get(b"k").err().unwrap().kind(), ErrorKind::UnexpectedEof);
    assert!(log.reads.borrow().is_empty());
}

#[test]
fn test_get_value_at_empty_key_and_empty_value() {
    // a record with an empty key, then one with an empty value that ends the bytes
    let mut data = vec![0u8; 4096];
    data.extend_from_slice(&0u32.to_le_bytes());
    data.extend_from_slice(&11u32.to_le_bytes());
    data.extend_from_slice(b"empty_value");
    let second = data.len() as u64;
    data.extend_from_slice(&13u32.to_le_bytes());
    data.extend_from_slice(&0u32.to_le_bytes());
    data.extend_from_slice(b"key_empty_val");

    let (reader, log) = recording(data.clone());
    let cdb = Cdb::<_, CdbHash>::new(reader).unwrap();
    log.reads.borrow_mut().clear();
    assert_eq!(cdb.get_value_at(4096, b""), Ok(Some(b"empty_value".to_vec())));
    // the header and the value: no read for the key
    assert_eq!(log.reads.borrow().clone(), vec![(4096u64, 8usize), (4104, 11)]);
    log.reads.borrow_mut().clear();
    assert_eq!(cdb.get_value_at(second, b"key_empty_val"), Ok(Some(Vec::new())));
    // the header and the key: no read for the value
    assert_eq!(log.reads.borrow().clone(), vec![(second, 8usize), (second + 8, 13)]);
    assert_eq!(cdb.get_value_at(second, b"key_empty_vax"), Ok(None));
    assert_eq!(cdb.get_value_at(4096, b"x"), Ok(None));

    let mapped = Cdb::<_, CdbHash>::with_mmap(&data[..], map_of(&data)).unwrap();
    assert_eq!(mapped.get_value_at(4096, b""), Ok(Some(b"empty_value".to_vec())));
    assert_eq!(mapped.get_value_at(second, b"key_empty_val"), Ok(Some(Vec::new())));
}
