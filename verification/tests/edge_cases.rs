use cdb64::{Cdb, CdbHash, CdbWriter, Cursor, Error, ErrorKind, KeyHasher};
use std::collections::HashSet;

fn collect(cdb: &Cdb<Cursor<Vec<u8>>, CdbHash>) -> Vec<(Vec<u8>, Vec<u8>)> {
    let mut out = Vec::new();
    let mut it = cdb.iter();
    while let Some(r) = it.next() {
        out.push(r.unwrap());
    }
    out
}

#[test]
fn test_duplicate_keys() -> Result<(), Error> {
    let mut writer = CdbWriter::<_, CdbHash>::new(Cursor::new(Vec::new()))?;
    writer.put(b"duplicate", b"value1")?;
    writer.put(b"duplicate", b"value2")?;
    writer.put(b"duplicate", b"value3")?;
    writer.put(b"other", b"other_value")?;
    writer.finalize()?;

    let cdb = Cdb::<_, CdbHash>::new(writer.into_inner()?)?;

    let value = cdb.get(b"duplicate")?.expect("Key should exist");
    assert_eq!(value, b"value1", "get() should return first value");

    let duplicates: Vec<_> = collect(&cdb)
        .into_iter()
        .filter(|(k, _)| k == b"duplicate")
        .collect();

    assert_eq!(duplicates.len(), 3, "All duplicates should be in iteration");
    assert_eq!(duplicates[0].1, b"value1");
    assert_eq!(duplicates[1].1, b"value2");
    assert_eq!(duplicates[2].1, b"value3");

    Ok(())
}

#[test]
fn test_large_key_value() -> Result<(), Error> {
    let large_key = vec![b'k'; 10_000];
    let large_value = vec![b'v'; 100_000];

    let mut writer = CdbWriter::<_, CdbHash>::new(Cursor::new(Vec::new()))?;
    writer.put(&large_key, &large_value)?;
    writer.put(b"small", b"value")?;
    writer.finalize()?;

    let cursor = writer.into_inner()?;
    assert!(cursor.get_ref().len() >= 110_000 + 4096);
    let cdb = Cdb::<_, CdbHash>::new(cursor)?;

    let retrieved_value = cdb.get(&large_key)?.expect("Large key should exist");
    assert_eq!(retrieved_value.len(), large_value.len());
    assert_eq!(retrieved_value, large_value);

    let small_value = cdb.get(b"small")?.expect("Small key should exist");
    assert_eq!(small_value, b"value");

    Ok(())
}

#[test]
fn test_many_entries_same_table() -> Result<(), Error> {
    let mut writer = CdbWriter::<_, CdbHash>::new(Cursor::new(Vec::new()))?;

    for i in 0..1_000 {
        let key = format!("key_{:04}", i);
        let value = format!("value_{:04}", i);
        writer.put(key.as_bytes(), value.as_bytes())?;
    }
    writer.finalize()?;

    let cursor = writer.into_inner()?;
    let cdb = Cdb::<_, CdbHash>::new(cursor)?;

    for i in 0..1_000 {
        let key = format!("key_{:04}", i);
        let expected_value = format!("value_{:04}", i);
        let value = cdb
            .get(key.as_bytes())?
            .unwrap_or_else(|| panic!("Key {} should exist", key));
        assert_eq!(
            value,
            expected_value.as_bytes(),
            "Value mismatch for key {}",
            key
        );
    }

    let all = collect(&cdb);
    assert_eq!(all.len(), 1_000);
    for (i, (k, v)) in all.iter().enumerate() {
        assert_eq!(k, format!("key_{:04}", i).as_bytes());
        assert_eq!(v, format!("value_{:04}", i).as_bytes());
    }

    Ok(())
}

#[test]
fn test_iteration_order() -> Result<(), Error> {
    let mut writer = CdbWriter::<_, CdbHash>::new(Cursor::new(Vec::new()))?;

    let entries = vec![
        (b"first".to_vec(), b"1".to_vec()),
        (b"second".to_vec(), b"2".to_vec()),
        (b"third".to_vec(), b"3".to_vec()),
        (b"fourth".to_vec(), b"4".to_vec()),
    ];

    for (k, v) in &entries {
        writer.put(k, v)?;
    }
    writer.finalize()?;

    let cursor = writer.into_inner()?;
    let cdb = Cdb::<_, CdbHash>::new(cursor)?;

    let retrieved = collect(&cdb);

    assert_eq!(retrieved.len(), entries.len());
    for (i, (expected_k, expected_v)) in entries.iter().enumerate() {
        assert_eq!(
            &retrieved[i].0, expected_k,
            "Key order mismatch at index {}",
            i
        );
        assert_eq!(
            &retrieved[i].1, expected_v,
            "Value order mismatch at index {}",
            i
        );
    }

    Ok(())
}

#[test]
fn test_empty_database_iteration() -> Result<(), Error> {
    let mut writer = CdbWriter::<_, CdbHash>::new(Cursor::new(Vec::new()))?;
    writer.finalize()?;

    let cursor = writer.into_inner()?;
    assert_eq!(cursor.get_ref(), &vec![0u8; 4096]);
    let cdb = Cdb::<_, CdbHash>::new(cursor)?;

    let count = collect(&cdb).len();
    assert_eq!(count, 0, "Empty database should have no entries");
    assert!(cdb.get(b"anything")?.is_none());

    Ok(())
}

#[test]
fn test_only_empty_keys_values() -> Result<(), Error> {
    let mut writer = CdbWriter::<_, CdbHash>::new(Cursor::new(Vec::new()))?;
    writer.put(b"", b"")?;
    writer.put(b"", b"value")?;
    writer.put(b"key", b"")?;
    writer.finalize()?;

    let cursor = writer.into_inner()?;
    let cdb = Cdb::<_, CdbHash>::new(cursor)?;

    let value1 = cdb.get(b"")?.expect("Empty key should exist");
    assert_eq!(value1, b"", "First empty key should have empty value");

    let value2 = cdb.get(b"key")?.expect("Key should exist");
    assert_eq!(value2, b"", "Key should have empty value");

    let all = collect(&cdb);
    assert_eq!(all.len(), 3, "Should have all 3 entries");

    Ok(())
}

#[test]
fn test_writer_after_finalize() -> Result<(), Error> {
    let mut writer = CdbWriter::<_, CdbHash>::new(Cursor::new(Vec::new()))?;
    writer.put(b"key", b"value")?;
    writer.finalize()?;

    let result = writer.put(b"another", b"value");
    assert!(result.is_err(), "Put after finalize should fail");

    match result {
        Err(Error::WriterFinalized) => {}
        _ => panic!("Expected WriterFinalized error"),
    }

    Ok(())
}

#[test]
fn test_into_inner_without_finalize() {
    let mut writer = CdbWriter::<_, CdbHash>::new(Cursor::new(Vec::new())).unwrap();
    writer.put(b"key", b"value").unwrap();

    let result = writer.into_inner();
    assert!(result.is_err(), "into_inner without finalize should fail");

    match result {
        Err(Error::WriterNotFinalized) => {}
        _ => panic!("Expected WriterNotFinalized error"),
    }
}

#[test]
fn test_all_hash_tables_coverage() -> Result<(), Error> {
    let mut writer = CdbWriter::<_, CdbHash>::new(Cursor::new(Vec::new()))?;

    let mut tables_hit = HashSet::new();
    let mut key_num = 0u32;

    while tables_hit.len() < 256 && key_num < 100_000 {
        let key = format!("key_{}", key_num);
        let mut hasher = CdbHash::default();
        hasher.write(key.as_bytes());
        let hash = hasher.finish();
        let table_idx = (hash & 0xff) as usize;

        if !tables_hit.contains(&table_idx) {
            writer.put(key.as_bytes(), b"value")?;
            tables_hit.insert(table_idx);
        }
        key_num += 1;
    }

    assert_eq!(
        tables_hit.len(),
        256,
        "Should be able to generate keys for all 256 tables"
    );

    writer.finalize()?;
    let cursor = writer.into_inner()?;
    let cdb = Cdb::<_, CdbHash>::new(cursor)?;

    key_num = 0;
    let mut verified_count = 0;
    while verified_count < 256 && key_num < 100_000 {
        let key = format!("key_{}", key_num);
        if cdb.get(key.as_bytes())?.is_some() {
            verified_count += 1;
        }
        key_num += 1;
    }

    assert_eq!(verified_count, 256, "All entries should be retrievable");

    Ok(())
}

#[test]
fn test_finalize_twice_changes_nothing() -> Result<(), Error> {
    let mut writer = CdbWriter::<_, CdbHash>::new(Cursor::new(Vec::new()))?;
    writer.put(b"k", b"v")?;
    writer.finalize()?;
    writer.finalize()?;
    let once = writer.into_inner()?.into_inner();

    let mut again = CdbWriter::<_, CdbHash>::new(Cursor::new(Vec::new()))?;
    again.put(b"k", b"v")?;
    again.finalize()?;
    assert_eq!(once, again.into_inner()?.into_inner());
    Ok(())
}

#[test]
fn test_same_puts_give_identical_files() -> Result<(), Error> {
    let build = || -> Result<Vec<u8>, Error> {
        let mut writer = CdbWriter::<_, CdbHash>::new(Cursor::new(Vec::new()))?;
        for i in 0..300 {
            writer.put(format!("k{}", i % 200).as_bytes(), format!("v{}", i).as_bytes())?;
        }
        writer.finalize()?;
        Ok(writer.into_inner()?.into_inner())
    };
    assert_eq!(build()?, build()?);
    Ok(())
}

#[test]
fn test_stale_bytes_behind_the_file_are_tolerated() -> Result<(), Error> {
    let mut writer = CdbWriter::<_, CdbHash>::new(Cursor::new(vec![0xAAu8; 6000]))?;
    writer.put(b"foo", b"bar")?;
    writer.finalize()?;
    let data = writer.into_inner()?.into_inner();
    assert_eq!(data.len(), 6000);
    let cdb = Cdb::<_, CdbHash>::new(&data[..])?;
    assert_eq!(cdb.get(b"foo")?.unwrap(), b"bar");
    let mut it = cdb.iter();
    assert_eq!(it.next().unwrap().unwrap(), (b"foo".to_vec(), b"bar".to_vec()));
    assert!(it.next().is_none());
    Ok(())
}

#[test]
fn test_iterator_reports_record_beyond_data_region() {
    let mut writer = CdbWriter::<_, CdbHash>::new(Cursor::new(Vec::new())).unwrap();
    writer.put(b"foo", b"bar").unwrap();
    writer.finalize().unwrap();
    let mut data = writer.into_inner().unwrap().into_inner();
    // the value length of the only record now reaches into the slot array
    data[4100] = 4;
    let cdb = Cdb::<_, CdbHash>::new(&data[..]).unwrap();
    let mut it = cdb.iter();
    assert_eq!(it.next().unwrap().err().unwrap().kind(), ErrorKind::InvalidData);
    assert!(it.next().is_none());
    assert_eq!(it.err().unwrap().kind(), ErrorKind::InvalidData);
    assert!(it.next().is_none());
    assert_eq!(it.err().unwrap().kind(), ErrorKind::InvalidData);
}

#[test]
fn test_iterator_ends_after_an_error_in_the_middle() {
    let mut writer = CdbWriter::<_, CdbHash>::new(Cursor::new(Vec::new())).unwrap();
    writer.put(b"one", b"1").unwrap();
    writer.put(b"two", b"2").unwrap();
    writer.put(b"three", b"3").unwrap();
    writer.finalize().unwrap();
    let mut data = writer.into_inner().unwrap().into_inner();
    // the second record, at 4096 + 12, now claims a value that reaches the slot arrays
    data[4096 + 12 + 4] = 200;
    let cdb = Cdb::<_, CdbHash>::new(&data[..]).unwrap();
    let mut it = cdb.iter();
    let mut yielded = 0;
    let mut good = 0;
    while let Some(r) = it.next() {
        yielded += 1;
        if r.is_ok() {
            good += 1;
        }
        assert!(yielded <= 3);
    }
    assert_eq!((yielded, good), (2, 1));
    assert_eq!(it.err().unwrap().kind(), ErrorKind::InvalidData);
}

#[test]
fn test_key_hasher_hash_used_by_writer_and_reader() {
    struct Constant;
    impl KeyHasher for Constant {
        fn hash(_key: &[u8]) -> u64 {
            0x0000_0000_0000_0107
        }
    }
    let mut writer = CdbWriter::<_, Constant>::new(Cursor::new(Vec::new())).unwrap();
    for i in 0..20u8 {
        writer.put(&[i], &[i, i]).unwrap();
    }
    writer.finalize().unwrap();
    let data = writer.into_inner().unwrap().into_inner();
    // all twenty records share subtable 7, which has forty slots
    assert_eq!(u64::from_le_bytes(data[7 * 16 + 8..7 * 16 + 16].try_into().unwrap()), 40);
    let cdb = Cdb::<_, Constant>::new(&data[..]).unwrap();
    for i in 0..20u8 {
        assert_eq!(cdb.get(&[i]).unwrap().unwrap(), vec![i, i]);
    }
    assert!(cdb.get(&[20]).unwrap().is_none());
}

/// A sink in memory whose flushes fail from a given one on.
struct FlakySink {
    inner: Cursor<Vec<u8>>,
    flushes: usize,
    fail_from_flush: usize,
}

impl cdb64::WriteSeek for FlakySink {
    fn seek(&mut self, pos: u64) -> Result<(), cdb64::IoError> {
        self.inner.seek(pos)
    }

    fn write_all(&mut self, buf: &[u8]) -> Result<(), cdb64::IoError> {
        self.inner.write_all(buf)
    }

    fn flush(&mut self) -> Result<(), cdb64::IoError> {
        self.flushes += 1;
        if self.flushes >= self.fail_from_flush {
            return Err(cdb64::IoError::new(ErrorKind::Other));
        }
        Ok(())
    }
}

#[test]
fn test_failed_flush_leaves_the_builder_unfinalized() {
    let sink = FlakySink { inner: Cursor::new(Vec::new()), flushes: 0, fail_from_flush: 2 };
    let mut writer = CdbWriter::<_, CdbHash>::new(sink).unwrap();
    writer.put(b"key", b"value").unwrap();

    // the layout succeeds, the flush behind it fails
    match writer.finalize() {
        Err(Error::Io(e)) => assert_eq!(e.kind(), ErrorKind::Other),
        _ => panic!("Expected an I/O error"),
    }
    // so the builder still takes records
    assert_eq!(writer.put(b"more", b"data"), Ok(()));
    match writer.into_inner() {
        Err(Error::WriterNotFinalized) => {}
        _ => panic!("Expected WriterNotFinalized error"),
    }
}
