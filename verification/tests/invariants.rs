use cdb64::{Cdb, CdbHash, CdbWriter, Cursor, KeyHasher};

fn build(records: &[(Vec<u8>, Vec<u8>)]) -> Vec<u8> {
    let mut writer = CdbWriter::<_, CdbHash>::new(Cursor::new(Vec::new())).unwrap();
    for (k, v) in records {
        writer.put(k, v).unwrap();
    }
    writer.finalize().unwrap();
    writer.into_inner().unwrap().into_inner()
}

fn u64_at(data: &[u8], at: usize) -> u64 {
    u64::from_le_bytes(data[at..at + 8].try_into().unwrap())
}

fn u32_at(data: &[u8], at: usize) -> u32 {
    u32::from_le_bytes(data[at..at + 4].try_into().unwrap())
}

fn sample() -> Vec<(Vec<u8>, Vec<u8>)> {
    let mut records = Vec::new();
    for i in 0..500u32 {
        let key = format!("k{}", i % 350).into_bytes();
        let value = vec![(i % 251) as u8; (i % 17) as usize];
        records.push((key, value));
    }
    records.push((Vec::new(), b"empty key".to_vec()));
    records.push((b"empty value".to_vec(), Vec::new()));
    records.push((Vec::new(), Vec::new()));
    records
}

#[test]
fn test_two_pairs_round_trip() {
    let data = build(&[
        (b"foo".to_vec(), b"bar".to_vec()),
        (b"baz".to_vec(), b"quuuux".to_vec()),
    ]);
    let cdb = Cdb::<_, CdbHash>::new(&data[..]).unwrap();
    assert_eq!(cdb.get(b"foo").unwrap().unwrap(), b"bar");
    assert_eq!(cdb.get(b"baz").unwrap().unwrap(), b"quuuux");
    assert!(cdb.get(b"qux").unwrap().is_none());
    let mut it = cdb.iter();
    let mut all = Vec::new();
    while let Some(r) = it.next() {
        all.push(r.unwrap());
    }
    assert_eq!(
        all,
        vec![
            (b"foo".to_vec(), b"bar".to_vec()),
            (b"baz".to_vec(), b"quuuux".to_vec())
        ]
    );
}

#[test]
fn test_get_returns_first_value_of_each_key() {
    let records = sample();
    let data = build(&records);
    let cdb = Cdb::<_, CdbHash>::new(&data[..]).unwrap();
    for (k, _) in &records {
        let first = records.iter().find(|(k2, _)| k2 == k).unwrap();
        assert_eq!(cdb.get(k).unwrap().as_ref(), Some(&first.1));
    }
    for i in 350..400u32 {
        assert!(cdb.get(format!("k{}", i).as_bytes()).unwrap().is_none());
    }
}

#[test]
fn test_iteration_yields_the_same_multiset_in_the_same_order() {
    let records = sample();
    let data = build(&records);
    let cdb = Cdb::<_, CdbHash>::new(&data[..]).unwrap();
    let mut it = cdb.iter();
    let mut all = Vec::new();
    while let Some(r) = it.next() {
        all.push(r.unwrap());
    }
    assert_eq!(all, records);
    let mut yielded = all.clone();
    let mut added = records.clone();
    yielded.sort();
    added.sort();
    assert_eq!(yielded, added);
}

#[test]
fn test_directory_and_slots_stay_within_bounds() {
    let records = sample();
    let data = build(&records);
    assert!(data.len() >= 4096);
    let data_len: usize = records.iter().map(|(k, v)| 8 + k.len() + v.len()).sum();
    let data_end = 4096 + data_len;
    assert_eq!(data.len(), data_end + 32 * records.len());

    let mut next_table = data_end as u64;
    let mut stored = 0usize;
    for t in 0..256usize {
        let offset = u64_at(&data, 16 * t);
        let length = u64_at(&data, 16 * t + 8);
        let members = records
            .iter()
            .filter(|(k, _)| (<CdbHash as KeyHasher>::hash(k) & 0xff) as usize == t)
            .count();
        if members == 0 {
            assert_eq!((offset, length), (0, 0));
            continue;
        }
        assert_eq!(length, 2 * members as u64);
        assert_eq!(offset, next_table);
        next_table += 16 * length;
        let mut used = 0;
        for j in 0..length as usize {
            let at = offset as usize + 16 * j;
            let (h, p) = (u64_at(&data, at), u64_at(&data, at + 8));
            if (h, p) == (0, 0) {
                continue;
            }
            used += 1;
            assert_eq!((h & 0xff) as usize, t);
            assert!(p >= 4096 && (p as usize) < data_end);
            let key_len = u32_at(&data, p as usize) as usize;
            let value_len = u32_at(&data, p as usize + 4) as usize;
            assert!(p as usize + 8 + key_len + value_len <= data_end);
            let key = &data[p as usize + 8..p as usize + 8 + key_len];
            assert_eq!(<CdbHash as KeyHasher>::hash(key), h);
        }
        assert_eq!(used, members);
        stored += used;
    }
    assert_eq!(stored, records.len());
    assert_eq!(next_table as usize, data.len());
}

#[test]
fn test_put_succeeds_until_finalize_and_fails_after() {
    let mut writer = CdbWriter::<_, CdbHash>::new(Cursor::new(Vec::new())).unwrap();
    assert!(writer.put(b"a", b"1").is_ok());
    assert!(writer.put(b"b", b"2").is_ok());
    assert!(writer.finalize().is_ok());
    assert_eq!(writer.put(b"c", b"3"), Err(cdb64::Error::WriterFinalized));
    assert!(writer.finalize().is_ok());
    assert_eq!(writer.put(b"c", b"3"), Err(cdb64::Error::WriterFinalized));
    let data = writer.into_inner().unwrap().into_inner();
    let cdb = Cdb::<_, CdbHash>::new(&data[..]).unwrap();
    assert!(cdb.get(b"c").unwrap().is_none());
    assert_eq!(cdb.get(b"b").unwrap().unwrap(), b"2");
}

#[test]
fn test_error_messages() {
    assert_eq!(
        cdb64::Error::WriterFinalized.message(),
        "Attempted to operate on a finalized writer"
    );
    assert_eq!(
        cdb64::Error::WriterNotFinalized.message(),
        "Writer has not been finalized yet"
    );
    let io = cdb64::IoError::new(cdb64::ErrorKind::UnexpectedEof);
    assert_eq!(io.message(), "failed to fill whole buffer");
    assert_eq!(cdb64::Error::from(io), cdb64::Error::Io(io));
    assert_eq!(cdb64::Error::Io(io).message(), io.message());
}
