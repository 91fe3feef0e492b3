use minutecat::error::Error;
use minutecat::source::{DataSourceTypes, FileDataSource, InMemoryDataSource, TailReader};

#[test]
fn it_should_read_files_in_reverse_up_to_limit() {
    let mut rev_reader = TailReader::new(
        "Data\nWith\nNew\nLines\nFor\nUnit\nTests".as_bytes().to_vec(),
        3,
    );
    rev_reader.chunk_size = 4; // for testing we lower chunk size

    let lines = rev_reader.read_lines().unwrap();
    assert_eq!(lines, "For\nUnit\nTests");
}

#[test]
fn it_should_read_files_in_reverse_up_to_start() {
    let mut rev_reader = TailReader::new("Data\nWith\nNew\nLines".as_bytes().to_vec(), 10);
    rev_reader.chunk_size = 4; // for testing we lower chunk size

    let lines = rev_reader.read_lines().unwrap();
    assert_eq!(lines, "Data\nWith\nNew\nLines");
}

#[test]
fn it_should_read_files_in_reverse_up_to_start_when_chunk_is_larger_than_file() {
    let rev_reader = TailReader::new("Data\nWith\nNew\nLines".as_bytes().to_vec(), 10);

    let lines = rev_reader.read_lines().unwrap();
    assert_eq!(lines, "Data\nWith\nNew\nLines");
}

#[test]
fn filesystem_it_should_read_files_in_reverse_up_to_limit() {
    let mut rev_reader = TailReader::new(
        "Data\nWith\nNew\nLines\nFor\nUnit\nTests".as_bytes().to_vec(),
        3,
    );
    rev_reader.chunk_size = 4; // for testing we lower chunk size

    let lines = rev_reader.read_lines().unwrap();
    assert_eq!(lines, "For\nUnit\nTests");
}

#[test]
fn filesystem_it_should_read_files_in_reverse_up_to_start() {
    let mut rev_reader = TailReader::new("Data\nWith\nNew\nLines".as_bytes().to_vec(), 10);
    rev_reader.chunk_size = 4; // for testing we lower chunk size

    let lines = rev_reader.read_lines().unwrap();
    assert_eq!(lines, "Data\nWith\nNew\nLines");
}

#[test]
fn filesystem_it_should_read_files_in_reverse_up_to_start_when_chunk_is_larger_than_file() {
    let rev_reader = TailReader::new("Data\nWith\nNew\nLines".as_bytes().to_vec(), 10);

    let lines = rev_reader.read_lines().unwrap();
    assert_eq!(lines, "Data\nWith\nNew\nLines");
}

#[test]
fn tail_is_identical_for_every_chunk_size() {
    let data = "Data\nWith\nNew\nLines\nFor\nUnit\nTests".as_bytes().to_vec();
    let mut results = vec![];
    for chunk in [1usize, 4, 64, 4096] {
        let mut reader = TailReader::new(data.clone(), 3);
        reader.chunk_size = chunk;
        results.push(reader.read_lines().unwrap());
    }
    for r in &results {
        assert_eq!(r, "For\nUnit\nTests");
    }
}

#[test]
fn tail_line_count_is_the_minimum() {
    let data = "a\nb\nc\nd\ne".as_bytes().to_vec();
    let reader = TailReader::new(data.clone(), 2);
    let out = reader.read_lines().unwrap();
    assert_eq!(out.split('\n').count(), 2);
    let reader = TailReader::new(data, 9);
    let out = reader.read_lines().unwrap();
    assert_eq!(out.split('\n').count(), 5);
}

#[test]
fn split_chunk_in_multibyte_text_is_a_utf8_error() {
    // one three-byte character; a one-byte chunk always splits it
    let mut reader = TailReader::new("\u{20ac}".as_bytes().to_vec(), 3);
    reader.chunk_size = 1;
    assert_eq!(reader.read_lines(), Err(Error::Utf8Error));
    // the whole text in one chunk decodes fine
    let reader = TailReader::new("\u{20ac}".as_bytes().to_vec(), 3);
    assert_eq!(reader.read_lines().unwrap(), "\u{20ac}");
}

#[test]
fn memory_source_pops_until_exhausted() {
    let mut src = InMemoryDataSource::new(vec!["first".into(), "second".into()]);
    assert_eq!(src.load().unwrap(), "second");
    assert_eq!(src.load().unwrap(), "first");
    assert_eq!(src.load(), Err(Error::InMemoryDataError));
}

#[test]
fn outside_sources_ask_for_external_input() {
    let mut src = DataSourceTypes::File(FileDataSource::new("/var/log/syslog", 5));
    assert_eq!(src.load(), Err(Error::ExternalSource));
}
