use http_server::slice_ext::{position_pattern, split_once_mut, split_pattern_mut};

#[test]
fn test_split_pattern_mut_multi() {
    let crlf = "\r\n";
    let mut v = format!("x{0}y{0}z", crlf).into_bytes();
    let mut it = split_pattern_mut(&mut v, crlf.as_bytes());
    while let Some(part) = it.next() {
        part.make_ascii_uppercase();
    }
    assert_eq!(v, format!("X{0}Y{0}Z", crlf).into_bytes());
}

#[test]
fn test_split_pattern_mut_none() {
    let crlf = "\r\n";
    let mut v = b"xyz".to_vec();
    let mut it = split_pattern_mut(&mut v, crlf.as_bytes());
    assert_eq!(it.next().unwrap(), b"xyz");
    assert!(it.next().is_none());
}

#[test]
fn test_split_once_mut_rm_pattern() {
    let crlf = "\r\n";
    let mut v = format!("x{0}y{0}z", crlf).into_bytes();

    let (left, right) = split_once_mut(&mut v, crlf.as_bytes()).unwrap();
    assert!(!left.ends_with(crlf.as_bytes()));
    assert!(!right.starts_with(crlf.as_bytes()));
}

#[test]
fn test_split_once_mut_multi() {
    let crlf = "\r\n";
    let mut v = format!("x{0}y{0}z", crlf).into_bytes();

    let (left, _) = split_once_mut(&mut v, crlf.as_bytes()).unwrap();
    left.make_ascii_uppercase();
    assert_eq!(v, format!("X{0}y{0}z", crlf).into_bytes());

    let (_, right) = split_once_mut(&mut v, crlf.as_bytes()).unwrap();
    right.make_ascii_uppercase();
    assert_eq!(v, format!("X{0}Y{0}Z", crlf).into_bytes());
}

#[test]
fn test_split_once_mut_none() {
    let crlf = "\r\n";
    let mut v = b"xyz".to_vec();
    assert!(split_once_mut(&mut v, crlf.as_bytes()).is_none());
}

#[test]
fn test_position_pattern() {
    let crlf = "\r\n";
    let v = format!("x{0}y{0}z", crlf).into_bytes();
    assert_eq!(position_pattern(&v, crlf.as_bytes()).unwrap(), 1);
}

#[test]
fn test_position_pattern_edges() {
    assert_eq!(position_pattern(b"", b"a"), None);
    assert_eq!(position_pattern(b"a", b"ab"), None);
    assert_eq!(position_pattern(b"ab", b"ab"), Some(0));
    assert_eq!(position_pattern(b"aab", b"ab"), Some(1));
    assert_eq!(position_pattern(b"aaa", b"aa"), Some(0));
    assert_eq!(position_pattern(b"abcabc", b"c"), Some(2));
    assert_eq!(position_pattern(b"abc\r", b"\r\n"), None);
}

#[test]
fn test_split_pattern_mut_empty_parts() {
    let mut v = b"--a----b--".to_vec();
    let mut it = split_pattern_mut(&mut v, b"--");
    let mut parts: Vec<Vec<u8>> = vec![];
    while let Some(part) = it.next() {
        parts.push(part.to_vec());
    }
    assert_eq!(parts, vec![b"".to_vec(), b"a".to_vec(), b"".to_vec(), b"b".to_vec(), b"".to_vec()]);
    assert!(it.next().is_none());
}
