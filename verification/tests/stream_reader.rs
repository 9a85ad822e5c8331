use std::io::{self, Cursor, Read};
use std::iter::{self, Chain, Repeat};

use http_server::stream_reader::{EndOfFile, ReadError, StreamReader};

pub struct InfReader {
    it: Chain<Box<dyn Iterator<Item = u8>>, Repeat<u8>>,
}

impl InfReader {
    pub fn new<'a, I: Iterator<Item = &'a u8>>(
        prefix: impl IntoIterator<IntoIter = I>,
        repeat: u8,
    ) -> Self {
        let prefix: Box<dyn Iterator<Item = u8>> =
            Box::new(prefix.into_iter().cloned().collect::<Vec<_>>().into_iter());
        Self {
            it: prefix.chain(iter::repeat(repeat)),
        }
    }
}

impl Read for InfReader {
    fn read(&mut self, buf: &mut [u8]) -> io::Result<usize> {
        let data: Vec<_> = self.it.by_ref().take(buf.len()).collect();
        buf[..data.len()].copy_from_slice(&data);
        Ok(data.len())
    }
}

/// A reader together with the source that its bytes come from.
struct Fed<R> {
    reader: StreamReader,
    source: R,
}

#[derive(Debug)]
enum Failure {
    Read(ReadError),
    Io(io::Error),
}

impl<R: Read> Fed<R> {
    fn new(source: R) -> Self {
        Self { reader: StreamReader::new(), source }
    }

    fn set_limit(&mut self, limit: u64) {
        self.reader.set_limit(limit);
    }

    fn fill(&mut self) -> io::Result<()> {
        let mut chunk = [0u8; 64];
        match self.source.read(&mut chunk)? {
            0 => self.reader.close(),
            n => self.reader.feed(&chunk[..n]),
        }
        Ok(())
    }

    fn read_line(&mut self, buf: &mut String) -> Result<(), Failure> {
        loop {
            match self.reader.read_line(buf) {
                Err(ReadError::Incomplete) => self.fill().map_err(Failure::Io)?,
                Err(err) => return Err(Failure::Read(err)),
                Ok(()) => return Ok(()),
            }
        }
    }

    fn read_exact(&mut self, buf: &mut Vec<u8>) -> Result<(), Failure> {
        loop {
            match self.reader.read_exact(buf) {
                Err(ReadError::Incomplete) => self.fill().map_err(Failure::Io)?,
                Err(err) => return Err(Failure::Read(err)),
                Ok(()) => return Ok(()),
            }
        }
    }
}

fn check_ok(input: &str, want: &str) {
    let cursor = Cursor::new(input);
    let mut stream_reader = Fed::new(cursor);
    let mut buf = String::new();
    stream_reader.read_line(&mut buf).unwrap();
    assert_eq!(buf, want);
}

fn check_end_of_file(input: &str) {
    let cursor = Cursor::new(input);
    let mut stream_reader = Fed::new(cursor);
    let res = stream_reader.read_line(&mut String::new());
    assert!(matches!(res.unwrap_err(), Failure::Read(ReadError::EndOfFile(EndOfFile))));
}

#[test]
fn test_read_line_simple() {
    check_ok("Hello World!\r\n", "Hello World!\r\n");
}

#[test]
fn test_read_line_only_newline() {
    check_ok("\r\n", "\r\n");
}

#[test]
fn test_read_line_empty_line() {
    check_end_of_file("");
}

#[test]
fn test_read_line_no_newline() {
    check_ok("Hello World!", "Hello World!");
}

#[test]
fn test_read_line_limit_exceeded() {
    let input = "foo\r\n";
    let cursor = Cursor::new(input);
    let mut stream_reader = Fed::new(cursor);
    let mut buf = String::new();

    stream_reader.set_limit(5);
    stream_reader.read_line(&mut buf).unwrap();
    assert_eq!(buf, "foo\r\n");

    let res = stream_reader.read_line(&mut buf);
    assert!(matches!(res.unwrap_err(), Failure::Read(ReadError::EndOfFile(EndOfFile))));
}

#[test]
fn test_stream_reader_infinite_stream() {
    let prefix = b"Hello World!";
    let repeat = 0;
    let inf_reader = InfReader::new(prefix, repeat);
    let mut stream_reader = Fed::new(inf_reader);

    stream_reader.set_limit(1024);
    stream_reader.read_line(&mut String::new()).unwrap();
}

#[test]
fn test_line_is_capped_at_the_budget() {
    let mut reader = StreamReader::new();
    reader.feed(b"abcdefghij\nrest\n");
    reader.set_limit(4);
    let mut buf = String::new();
    reader.read_line(&mut buf).unwrap();
    assert_eq!(buf, "abcd");
    assert_eq!(reader.limit(), 0);
    assert_eq!(reader.pending_len(), 12);
    assert_eq!(reader.read_line(&mut buf), Err(ReadError::EndOfFile(EndOfFile)));
    assert_eq!(buf, "abcd");
    reader.set_limit(100);
    reader.read_line(&mut buf).unwrap();
    assert_eq!(buf, "abcdefghij\n");
    assert_eq!(reader.limit(), 93);
    reader.read_line(&mut buf).unwrap();
    assert_eq!(buf, "abcdefghij\nrest\n");
    assert_eq!(reader.limit(), 88);
}

#[test]
fn test_line_waits_for_its_end() {
    let mut reader = StreamReader::new();
    let mut buf = String::new();
    assert_eq!(reader.read_line(&mut buf), Err(ReadError::Incomplete));
    reader.feed(b"GET /");
    assert_eq!(reader.read_line(&mut buf), Err(ReadError::Incomplete));
    assert_eq!(reader.pending_len(), 5);
    assert_eq!(buf, "");
    reader.feed(b" HTTP/1.1\r\nHost");
    reader.read_line(&mut buf).unwrap();
    assert_eq!(buf, "GET / HTTP/1.1\r\n");
    assert_eq!(reader.read_line(&mut buf), Err(ReadError::Incomplete));
    assert!(!reader.is_closed());
    reader.close();
    assert!(reader.is_closed());
    reader.read_line(&mut buf).unwrap();
    assert_eq!(buf, "GET / HTTP/1.1\r\nHost");
    assert_eq!(reader.read_line(&mut buf), Err(ReadError::EndOfFile(EndOfFile)));
    assert_eq!(EndOfFile.to_string(), "end of file");
}

#[test]
fn test_line_that_is_not_text() {
    let mut reader = StreamReader::new();
    reader.feed(&[b'a', 0xff, b'\n', b'b', b'\n']);
    let mut buf = "kept".to_owned();
    assert_eq!(reader.read_line(&mut buf), Err(ReadError::InvalidData));
    assert_eq!(buf, "kept");
    assert_eq!(reader.pending_len(), 2);
    reader.read_line(&mut buf).unwrap();
    assert_eq!(buf, "keptb\n");
}

#[test]
fn test_line_beyond_ascii() {
    let mut reader = StreamReader::new();
    reader.feed("gr\u{fc}\u{df}e \u{4e16}\u{754c}\r\n".as_bytes());
    let mut buf = String::new();
    reader.read_line(&mut buf).unwrap();
    assert_eq!(buf, "gr\u{fc}\u{df}e \u{4e16}\u{754c}\r\n");
}

#[test]
fn test_read_exact() {
    let mut stream_reader = Fed::new(Cursor::new("0123456789"));
    let mut buf = vec![0; 4];
    stream_reader.read_exact(&mut buf).unwrap();
    assert_eq!(buf, b"0123");
    let mut none = vec![];
    stream_reader.read_exact(&mut none).unwrap();
    let mut buf = vec![0; 7];
    let res = stream_reader.read_exact(&mut buf);
    assert!(matches!(res.unwrap_err(), Failure::Read(ReadError::UnexpectedEof)));
    assert_eq!(buf, vec![0; 7]);
    assert_eq!(stream_reader.reader.pending_len(), 0);
}

#[test]
fn test_read_exact_within_the_budget() {
    let mut reader = StreamReader::new();
    reader.feed(b"0123456789");
    reader.set_limit(6);
    assert_eq!(reader.read_bytes(4).unwrap(), b"0123");
    assert_eq!(reader.limit(), 2);
    assert_eq!(reader.read_bytes(3), Err(ReadError::UnexpectedEof));
    assert_eq!(reader.limit(), 0);
    assert_eq!(reader.pending_len(), 4);
    reader.set_limit(10);
    assert_eq!(reader.read_bytes(5), Err(ReadError::Incomplete));
    assert_eq!(reader.pending_len(), 4);
    let copy = reader.snapshot();
    assert_eq!(reader.read_bytes(4).unwrap(), b"6789");
    assert_eq!(copy.pending_len(), 4);
    assert_eq!(copy.limit(), 10);
}
