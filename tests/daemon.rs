use oklch_color_picker::daemon::{build_response, parse_message, MessageError};

fn parts(line: &str) -> (u32, Vec<(String, String)>) {
    let r = parse_message(line).unwrap();
    let ps = r
        .parts
        .iter()
        .map(|p| {
            (
                String::from_utf8(p.format.clone()).unwrap(),
                String::from_utf8(p.color.clone()).unwrap(),
            )
        })
        .collect();
    (r.number, ps)
}

#[test]
fn message_with_one_part() {
    assert_eq!(parts("7:hex;#aabbcc"), (7, vec![("hex".into(), "#aabbcc".into())]));
}

#[test]
fn message_with_several_parts() {
    assert_eq!(
        parts("42:auto;#fff¿¿rgb;rgb(1 2 3)¿¿raw_rgb;1;2"),
        (
            42,
            vec![
                ("auto".into(), "#fff".into()),
                ("rgb".into(), "rgb(1 2 3)".into()),
                ("raw_rgb".into(), "1;2".into()),
            ]
        )
    );
}

#[test]
fn message_number_with_plus_and_zeros() {
    assert_eq!(parts("+007:a;b").0, 7);
    assert_eq!(parts("4294967295:a;b").0, u32::MAX);
}

#[test]
fn message_errors() {
    assert_eq!(parse_message("test").unwrap_err(), MessageError::Test);
    assert_eq!(parse_message("12").unwrap_err(), MessageError::MissingColon);
    assert_eq!(parse_message("12:hex").unwrap_err(), MessageError::MissingSemicolon);
    assert_eq!(parse_message("x:hex;#fff").unwrap_err(), MessageError::InvalidNumber);
    assert_eq!(parse_message("4294967296:hex;#fff").unwrap_err(), MessageError::InvalidNumber);
    assert_eq!(parse_message(":hex;#fff").unwrap_err(), MessageError::InvalidNumber);
    assert_eq!(parse_message("x:hex").unwrap_err(), MessageError::MissingSemicolon);
    assert_eq!(parse_message("1:a;b¿¿c").unwrap_err(), MessageError::MissingSemicolon);
    assert_eq!(parse_message("x:a;b¿¿c").unwrap_err(), MessageError::InvalidNumber);
}

#[test]
fn response_lines() {
    assert_eq!(build_response(7, &vec!["#abc".to_string()]), "7:#abc\n");
    assert_eq!(
        build_response(1234, &vec!["#abc".to_string(), "ERR".to_string()]),
        "1234:#abc¿¿ERR\n"
    );
    assert_eq!(build_response(0, &vec![]), "0:\n");
}
