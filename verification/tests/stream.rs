use remotefs_webdav::stream::{preallocation, BodyReader, SeekError, SeekTarget, UploadBuffer};

#[test]
fn reader_reads_and_seeks_over_the_buffered_body() {
    let mut reader = BodyReader::new(b"hello world".to_vec());
    assert_eq!(reader.read(100), b"hello world");
    assert_eq!(reader.read(100), b"");
    assert_eq!(reader.seek(SeekTarget::Start(6)).unwrap(), 6);
    assert_eq!(reader.read(100), b"world");
}

#[test]
fn reader_reads_in_chunks() {
    let mut reader = BodyReader::new(b"abc".to_vec());
    assert_eq!(reader.read(2), b"ab");
    assert_eq!(reader.position(), 2);
    assert_eq!(reader.read(2), b"c");
    assert_eq!(reader.read(2), b"");
    assert_eq!(reader.position(), 3);
}

#[test]
fn seeks_are_relative_to_start_end_and_current() {
    let mut reader = BodyReader::new(b"abcdef".to_vec());
    assert_eq!(reader.seek(SeekTarget::End(-2)).unwrap(), 4);
    assert_eq!(reader.read(10), b"ef");
    assert_eq!(reader.seek(SeekTarget::Current(-3)).unwrap(), 3);
    assert_eq!(reader.read(1), b"d");
    assert_eq!(
        reader.seek(SeekTarget::Current(-5)).unwrap_err(),
        SeekError::NegativeOrOverflowing
    );
    assert_eq!(reader.position(), 4);
    assert_eq!(reader.seek(SeekTarget::End(10)).unwrap(), 16);
    assert_eq!(reader.read(10), b"");
    assert_eq!(reader.seek(SeekTarget::Start(u64::MAX)).unwrap(), u64::MAX);
    assert_eq!(
        reader.seek(SeekTarget::Current(1)).unwrap_err(),
        SeekError::NegativeOrOverflowing
    );
    assert_eq!(reader.seek(SeekTarget::Current(i64::MIN)).unwrap(), u64::MAX - (1u64 << 63));
}

#[test]
fn writer_uploads_the_buffer_on_finish() {
    let mut writer = UploadBuffer::new("http://h/f".to_string(), Some(5));
    assert_eq!(writer.write(b"hel"), 3);
    assert_eq!(writer.write(b"lo"), 2);
    assert!(!writer.is_finished());
    assert_eq!(writer.buffered(), 5);
    assert_eq!(writer.url(), "http://h/f");
    assert_eq!(writer.finish(), b"hello");
    assert!(writer.is_finished());
    assert_eq!(writer.buffered(), 0);
}

#[test]
fn size_hints_are_capped() {
    assert_eq!(preallocation(None), 0);
    assert_eq!(preallocation(Some(5)), 5);
    assert_eq!(preallocation(Some(u64::MAX)), 8 * 1024 * 1024);
    assert_eq!(preallocation(Some(8 * 1024 * 1024 + 1)), 8 * 1024 * 1024);
}
