use gpm::error::ErrorKind;
use gpm::output::decode_output;
use gpm::output::trim;

#[test]
fn trim_removes_white_space_around() {
    assert_eq!(trim("  abc \n"), "abc");
    assert_eq!(trim("\t\r\n x y \u{3000}"), "x y");
    assert_eq!(trim("abc"), "abc");
}

#[test]
fn trim_keeps_white_space_inside() {
    assert_eq!(trim(" a  b\tc "), "a  b\tc");
}

#[test]
fn trim_of_white_space_is_empty() {
    assert_eq!(trim(""), "");
    assert_eq!(trim(" \n\t "), "");
}

#[test]
fn trim_agrees_with_std() {
    let samples = ["", " ", "a", " a", "a ", "  é  ", "\u{a0}x\u{2003}", " 日本 語 ", "x\n", "\n\nx y\n\n"];
    for s in samples {
        assert_eq!(trim(s), s.trim());
    }
}

#[test]
fn decode_trims_text() {
    assert_eq!(decode_output(b"  W/\"abc\"\n".to_vec()), Ok("W/\"abc\"".to_string()));
}

#[test]
fn decode_of_nothing_is_empty() {
    assert_eq!(decode_output(Vec::new()), Ok(String::new()));
    assert_eq!(decode_output(b"\n".to_vec()), Ok(String::new()));
}

#[test]
fn decode_reads_utf8() {
    assert_eq!(decode_output("é日本\n".as_bytes().to_vec()), Ok("é日本".to_string()));
}

#[test]
fn decode_rejects_what_is_no_text() {
    assert_eq!(decode_output(vec![0xff, 0xfe]), Err(ErrorKind::ProcessOutputDecodeFailure));
    assert_eq!(decode_output(vec![b'a', 0xc3]), Err(ErrorKind::ProcessOutputDecodeFailure));
}
