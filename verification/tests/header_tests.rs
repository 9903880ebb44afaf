use pgnparser::ParseError;
use pgnparser::alphanumeric_or_underscore;
use pgnparser::headers;

#[test]
fn lib_alphanumeric_or_underscore_tests() {
    let input = b"abcd_xxx";
    let end = alphanumeric_or_underscore(input, 0);
    assert_eq!(&input[..end], b"abcd_xxx");
    assert_eq!(&input[end..], b"");

    let input = b"AB_C1_56+XX_12";
    let end = alphanumeric_or_underscore(input, 0);
    assert_eq!(&input[..end], b"AB_C1_56");
    assert_eq!(&input[end..], b"+XX_12");
}

#[test]
fn main_alphanumeric_or_underscore_tests() {
    let input = b"abcd_xxx";
    let end = alphanumeric_or_underscore(input, 0);
    assert_eq!(&input[..end], b"abcd_xxx");
    assert_eq!(&input[end..], b"");

    let input = b"AB_C1_56+XX_12";
    let end = alphanumeric_or_underscore(input, 0);
    assert_eq!(&input[..end], b"AB_C1_56");
    assert_eq!(&input[end..], b"+XX_12");
}

#[test]
fn lib_headers_tests() {
    let file = b"[Event \"F/S Return Match\"]
[Site \"?\"]
[Date \"????.??.??\"]
[Round \"?\"]
[White \"Calistri, Tristan\"]
[Black \"Bauduin, Etienne\"]
[Result \"1-0\"]
";

    let res = headers(file, 0);
    match res {
        Ok((o, _)) => {
            for (k, v) in o.iter() {
                match k.as_slice() {
                    b"Event" => assert_eq!(v.as_slice(), b"F/S Return Match"),
                    b"Site" => assert_eq!(v.as_slice(), b"?"),
                    b"Date" => assert_eq!(v.as_slice(), b"????.??.??"),
                    b"Round" => assert_eq!(v.as_slice(), b"?"),
                    b"White" => assert_eq!(v.as_slice(), b"Calistri, Tristan"),
                    b"Black" => assert_eq!(v.as_slice(), b"Bauduin, Etienne"),
                    b"Result" => assert_eq!(v.as_slice(), b"1-0"),
                    _ => assert!(false, "unknown key {}", String::from_utf8_lossy(k)),
                }
            }
        },
        _ => assert!(false),
    }
}

#[test]
fn main_headers_tests() {
    let file = b"[Event \"F/S Return Match\"]
[Site \"?\"]
[Date \"????.??.??\"]
[Round \"?\"]
[White \"Calistri, Tristan\"]
[Black \"Bauduin, Etienne\"]
[Result \"1-0\"]
";

    let res = headers(file, 0);
    match res {
        Ok((o, _)) => {
            for (k, v) in o.iter() {
                match k.as_slice() {
                    b"Event" => assert_eq!(v.as_slice(), b"F/S Return Match"),
                    b"Site" => assert_eq!(v.as_slice(), b"?"),
                    b"Date" => assert_eq!(v.as_slice(), b"????.??.??"),
                    b"Round" => assert_eq!(v.as_slice(), b"?"),
                    b"White" => assert_eq!(v.as_slice(), b"Calistri, Tristan"),
                    b"Black" => assert_eq!(v.as_slice(), b"Bauduin, Etienne"),
                    b"Result" => assert_eq!(v.as_slice(), b"1-0"),
                    _ => assert!(false, "unknown key {}", String::from_utf8_lossy(k)),
                }
            }
        },
        _ => assert!(false),
    }
}

#[test]
fn header_stops_without_failing() {
    let (entries, next) = headers(b"1. e4 e5 *", 0).unwrap();
    assert!(entries.is_empty());
    assert_eq!(next, 0);
}

#[test]
fn header_wrong_character_is_malformed() {
    let err = headers(b"[Event x]", 0).unwrap_err();
    assert_eq!(err, ParseError::MalformedHeader { offset: 7 });

    let err = headers(b"[Event \"e\" x]", 0).unwrap_err();
    assert_eq!(err, ParseError::MalformedHeader { offset: 11 });
}

#[test]
fn header_ending_early_is_incomplete() {
    let err = headers(b"[Event \"unterminated", 0).unwrap_err();
    assert_eq!(err, ParseError::IncompleteInput { offset: 20 });

    let err = headers(b"[Event", 0).unwrap_err();
    assert_eq!(err, ParseError::IncompleteInput { offset: 6 });

    let err = headers(b"[Event \"e\"", 0).unwrap_err();
    assert_eq!(err, ParseError::IncompleteInput { offset: 10 });
}
