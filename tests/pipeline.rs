use bulk_messages::{
    automation_script, check_file_path, prepare_sends, escape_applescript_string, filter_recipients,
    process_number, read_recipients, recipients_from_rows, render_message, replace_chars,
    validate_file_path, NumberError, PathError, PathKind, Recipient, RecipientsError,
};

fn recipient(name: Option<&str>, number: &str) -> Recipient {
    Recipient { name: name.map(String::from), number: number.to_string() }
}

fn chars(s: &str) -> Vec<char> {
    s.chars().collect()
}

#[test]
fn number_with_plus_and_punctuation() {
    assert_eq!(process_number("+1 (234) 567-8910"), Ok("+12345678910".to_string()));
}

#[test]
fn number_without_plus() {
    assert_eq!(process_number("314159265"), Ok("314159265".to_string()));
}

#[test]
fn number_is_trimmed_first() {
    assert_eq!(process_number(" \t+1 234 5678\n"), Ok("+12345678".to_string()));
}

#[test]
fn number_of_seven_and_fifteen_digits() {
    assert_eq!(process_number("123-4567"), Ok("1234567".to_string()));
    assert_eq!(process_number("+123456789012345"), Ok("+123456789012345".to_string()));
}

#[test]
fn number_too_short() {
    assert_eq!(process_number("123"), Err(NumberError::TooShort));
    assert_eq!(process_number("123456"), Err(NumberError::TooShort));
    assert_eq!(process_number("+"), Err(NumberError::TooShort));
    assert_eq!(process_number(""), Err(NumberError::TooShort));
}

#[test]
fn number_too_long() {
    assert_eq!(process_number("1234567890123456"), Err(NumberError::TooLong));
}

#[test]
fn number_with_foreign_characters() {
    assert_eq!(process_number("555-CALL-NOW"), Err(NumberError::InvalidCharacters));
    assert_eq!(process_number("12+3456789"), Err(NumberError::InvalidCharacters));
    assert_eq!(process_number("++12345678"), Err(NumberError::InvalidCharacters));
    assert_eq!(process_number("123.456.7890"), Err(NumberError::InvalidCharacters));
}

#[test]
fn rows_with_names_are_trimmed() {
    let rows = vec![vec![" Ann ".to_string(), " +1 (234) 567-8910 ".to_string()]];
    let r = recipients_from_rows(&rows, true).unwrap();
    assert_eq!(r.len(), 1);
    assert_eq!(r[0].name.as_deref(), Some("Ann"));
    assert_eq!(r[0].number, "+1 (234) 567-8910");
}

#[test]
fn rows_without_names_take_first_field() {
    let rows = vec![vec!["  5551234 ".to_string()]];
    let r = recipients_from_rows(&rows, false).unwrap();
    assert_eq!(r[0].name, None);
    assert_eq!(r[0].number, "5551234");
}

#[test]
fn rows_missing_number() {
    let rows = vec![vec!["Ann".to_string(), "5551234".to_string()], vec!["Bob".to_string()]];
    assert_eq!(recipients_from_rows(&rows, true).err(), Some(RecipientsError::MissingField));
}

#[test]
fn read_two_column_file() {
    let data = b"Baron von Murderpillow,+1 (234) 567-8910\nRt. Hon. John A. Stymers,314159265\n";
    let r = read_recipients(data, true).unwrap();
    assert_eq!(r.len(), 2);
    assert_eq!(r[0].name.as_deref(), Some("Baron von Murderpillow"));
    assert_eq!(r[1].name.as_deref(), Some("Rt. Hon. John A. Stymers"));
    assert_eq!(r[1].number, "314159265");
}

#[test]
fn read_one_column_file_when_names_expected() {
    assert_eq!(read_recipients(b"5551234\n", true).err(), Some(RecipientsError::MissingField));
}

#[test]
fn read_rows_of_unequal_length() {
    let data = b"Ann,5551234\n5551235\n";
    assert_eq!(read_recipients(data, false).err(), Some(RecipientsError::Unreadable));
}

#[test]
fn read_invalid_utf8() {
    assert_eq!(read_recipients(b"\xff\xfe,5551234\n", true).err(), Some(RecipientsError::Unreadable));
}

#[test]
fn read_empty_file() {
    assert_eq!(read_recipients(b"", false).unwrap().len(), 0);
}

#[test]
fn filter_keeps_order_and_normalises() {
    let rs = vec![
        recipient(Some("A"), "+1 (234) 567-8910"),
        recipient(Some("B"), "123"),
        recipient(Some("C"), "314159265"),
        recipient(Some("D"), "call me"),
    ];
    let (kept, rejected) = filter_recipients(&rs);
    assert_eq!(kept.len(), 2);
    assert_eq!(kept[0].name.as_deref(), Some("A"));
    assert_eq!(kept[0].number, "+12345678910");
    assert_eq!(kept[1].name.as_deref(), Some("C"));
    assert_eq!(kept[1].number, "314159265");
    assert_eq!(rejected.len(), 2);
    assert_eq!(rejected[0].name.as_deref(), Some("B"));
    assert_eq!(rejected[0].error, NumberError::TooShort);
    assert_eq!(rejected[1].error, NumberError::InvalidCharacters);
}

#[test]
fn example_named_recipient_gets_personal_message() {
    let rs = read_recipients(b"Ann,+1 (234) 567-8910", true).unwrap();
    let (kept, _) = filter_recipients(&rs);
    assert_eq!(kept.len(), 1);
    assert_eq!(kept[0].number, "+12345678910");
    let msg = render_message("Hi {name}!", Some("{name}"), kept[0].name.as_deref());
    assert_eq!(msg, "Hi Ann!");
}

#[test]
fn example_six_digit_number_is_skipped() {
    let rs = read_recipients(b"123", false).unwrap();
    let (kept, rejected) = filter_recipients(&rs);
    assert!(kept.is_empty());
    assert_eq!(rejected.len(), 1);
    assert_eq!(rejected[0].error, NumberError::TooShort);
}

#[test]
fn no_valid_recipient_leaves_nothing_to_send() {
    let rs = read_recipients(b"123\nabc\n1234567890123456\n", false).unwrap();
    let (kept, rejected) = filter_recipients(&rs);
    assert!(kept.is_empty());
    assert_eq!(rejected.len(), 3);
}

#[test]
fn render_replaces_every_occurrence() {
    let msg = render_message("{n}, hello {n}! {x}", Some("{n}"), Some("Bo"));
    assert_eq!(msg, "Bo, hello Bo! {x}");
}

#[test]
fn render_without_placeholder_is_verbatim() {
    assert_eq!(render_message("Hi {name}!", None, Some("Ann")), "Hi {name}!");
    assert_eq!(render_message("Hi {name}!", Some("{name}"), None), "Hi {name}!");
}

#[test]
fn render_template_without_occurrence() {
    assert_eq!(render_message("Hello there", Some("{name}"), Some("Ann")), "Hello there");
}

#[test]
fn render_agrees_with_str_replace() {
    let cases = [
        ("aaaa", "aa", "b"),
        ("abcabc", "bc", "XY"),
        ("abc", "", "-"),
        ("", "", "-"),
        ("x{n}{n}y", "{n}", ""),
        ("short", "longer pattern", "z"),
    ];
    for (t, p, n) in cases {
        assert_eq!(render_message(t, Some(p), Some(n)), t.replace(p, n));
    }
}

#[test]
fn replace_on_characters() {
    let r = replace_chars(&chars("a-b-c"), &chars("-"), &chars("+="));
    assert_eq!(r.into_iter().collect::<String>(), "a+=b+=c");
}

#[test]
fn escape_backslash_quote_newline() {
    assert_eq!(escape_applescript_string("a\\b\"c\nd"), "a\\\\b\\\"c\\nd");
    assert_eq!(escape_applescript_string("plain"), "plain");
}

#[test]
fn script_embeds_service_number_and_message() {
    let s = automation_script("Say \"hi\"", "+12345678910", "iMessage");
    let expected = "\n        tell application \"Messages\"\n            activate\n            set targetService to 1st service whose service type = iMessage\n            set targetBuddy to buddy \"+12345678910\" of targetService\n            send \"Say \\\"hi\\\"\" to targetBuddy\n        end tell\n        ";
    assert_eq!(s, expected);
}

#[test]
fn path_checks() {
    assert_eq!(validate_file_path("people.csv", "csv", PathKind::File), Ok(()));
    assert_eq!(validate_file_path("dir/message.txt", "txt", PathKind::File), Ok(()));
    assert_eq!(validate_file_path("people.csv", "csv", PathKind::Missing), Err(PathError::NotFound));
    assert_eq!(validate_file_path("people.csv", "csv", PathKind::NotAFile), Err(PathError::NotAFile));
    assert_eq!(validate_file_path("people.txt", "csv", PathKind::File), Err(PathError::WrongExtension));
    assert_eq!(validate_file_path("people.CSV", "csv", PathKind::File), Err(PathError::WrongExtension));
    assert_eq!(validate_file_path("people", "csv", PathKind::File), Err(PathError::WrongExtension));
    assert_eq!(validate_file_path("dir/.csv", "csv", PathKind::File), Err(PathError::WrongExtension));
}

#[test]
fn path_check_on_found_extension() {
    assert_eq!(check_file_path(PathKind::File, Some("csv"), "csv"), Ok(()));
    assert_eq!(check_file_path(PathKind::File, Some("cs"), "csv"), Err(PathError::WrongExtension));
    assert_eq!(check_file_path(PathKind::File, None, "csv"), Err(PathError::WrongExtension));
    assert_eq!(check_file_path(PathKind::Missing, Some("csv"), "csv"), Err(PathError::NotFound));
}

#[test]
fn sends_follow_recipients_in_order() {
    let rs = vec![recipient(Some("Ann"), "+12345678910"), recipient(Some("Bo"), "5551234")];
    let sends = prepare_sends(&rs, "Hi {name}!", Some("{name}"), "SMS");
    assert_eq!(sends.len(), 2);
    assert_eq!(sends[0].name.as_deref(), Some("Ann"));
    assert_eq!(sends[0].number, "+12345678910");
    assert_eq!(sends[0].script, automation_script("Hi Ann!", "+12345678910", "SMS"));
    assert_eq!(sends[1].script, automation_script("Hi Bo!", "5551234", "SMS"));
}

#[test]
fn sends_without_placeholder_use_template() {
    let rs = vec![recipient(None, "5551234")];
    let sends = prepare_sends(&rs, "Hi {name}!", None, "iMessage");
    assert_eq!(sends[0].name, None);
    assert_eq!(sends[0].script, automation_script("Hi {name}!", "5551234", "iMessage"));
}

#[test]
fn no_recipients_no_sends() {
    let rs = read_recipients(b"123\n", false).unwrap();
    let (kept, _) = filter_recipients(&rs);
    assert!(prepare_sends(&kept, "Hello", None, "iMessage").is_empty());
}
