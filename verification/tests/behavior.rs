use irc_parser::Command;
use irc_parser::ErrorKind;
use irc_parser::Prefix;
use irc_parser::parse_message;
use irc_parser::parse_prefix;
use irc_parser::parse_user_prefix;

#[test]
fn user_prefix_line_decodes_fully() {
    let msg = parse_message(":user!host@example.com PRIVMSG #channel :message\r\n").unwrap();
    assert_eq!(
        msg.prefix,
        Some(Prefix::User(
            String::from("user"),
            String::from("host"),
            String::from("example.com")
        ))
    );
    assert_eq!(msg.command, Command::Named(String::from("PRIVMSG")));
    assert_eq!(
        msg.params,
        vec![String::from("#channel"), String::from("message")]
    );
}

#[test]
fn missing_terminator_is_incomplete() {
    let err = parse_message("PING").unwrap_err();
    assert_eq!(err.kind, ErrorKind::Incomplete);
    assert!(err.description().len() > 0);
}

#[test]
fn empty_input_is_incomplete() {
    let err = parse_message("").unwrap_err();
    assert_eq!(err.kind, ErrorKind::Incomplete);
}

#[test]
fn terminator_alone_is_malformed() {
    let err = parse_message("\r").unwrap_err();
    assert_eq!(err.kind, ErrorKind::Malformed);
}

#[test]
fn prefix_without_space_is_malformed() {
    let err = parse_message(":server.example.com").unwrap_err();
    assert_eq!(err.kind, ErrorKind::Malformed);
}

#[test]
fn bare_command_line_decodes() {
    let msg = parse_message("PING\r").unwrap();
    assert_eq!(msg.prefix, None);
    assert_eq!(msg.command, Command::Named(String::from("PING")));
    assert_eq!(msg.params, Vec::<String>::new());
}

#[test]
fn numeric_range_boundary() {
    let msg = parse_message("65535 x\r").unwrap();
    assert_eq!(msg.command, Command::Numeric(65535));
    let msg = parse_message("65536 x\r").unwrap();
    assert_eq!(msg.command, Command::Named(String::from("65536")));
}

#[test]
fn numeric_leading_zeros() {
    let msg = parse_message(":s.example.org 004 x\r").unwrap();
    assert_eq!(msg.command, Command::Numeric(4));
}

#[test]
fn signed_token_is_named() {
    let msg = parse_message("+123 x\r").unwrap();
    assert_eq!(msg.command, Command::Named(String::from("+123")));
}

#[test]
fn mixed_token_is_named() {
    let msg = parse_message("12a3 x\r").unwrap();
    assert_eq!(msg.command, Command::Named(String::from("12a3")));
}

#[test]
fn very_long_digit_token_is_named() {
    let msg = parse_message("184467440737095516150 x\r").unwrap();
    assert_eq!(
        msg.command,
        Command::Named(String::from("184467440737095516150"))
    );
}

#[test]
fn consecutive_spaces_drop_empty_middles() {
    let msg = parse_message("CMD a  b :t\r").unwrap();
    assert_eq!(
        msg.params,
        vec![String::from("a"), String::from("b"), String::from("t")]
    );
}

#[test]
fn trailing_keeps_internal_spaces() {
    let msg = parse_message("CMD one :two  three \r").unwrap();
    assert_eq!(
        msg.params,
        vec![String::from("one"), String::from("two  three ")]
    );
}

#[test]
fn colon_inside_word_starts_trailing() {
    let msg = parse_message("CMD a:b c\r").unwrap();
    assert_eq!(msg.params, vec![String::from("a"), String::from("b c")]);
}

#[test]
fn user_prefix_renders_back() {
    match parse_prefix(":a!b@c rest") {
        Ok((Some(p), _)) => assert_eq!(p.to_text(), "a!b@c"),
        _ => panic!("prefix expected"),
    }
}

#[test]
fn server_prefix_renders_back() {
    match parse_prefix(":host.name rest") {
        Ok((Some(p), _)) => assert_eq!(p.to_text(), "host.name"),
        _ => panic!("prefix expected"),
    }
}

#[test]
fn prefix_absent_passes_line_through() {
    match parse_prefix("PING :x\r") {
        Ok((None, rest)) => assert_eq!(rest, "PING :x\r"),
        _ => panic!("no prefix expected"),
    }
}

#[test]
fn missing_at_falls_back_to_server() {
    match parse_prefix(":nick!user.host rest") {
        Ok((Some(p), _)) => assert_eq!(p, Prefix::Server(String::from("nick!user.host"))),
        _ => panic!("prefix expected"),
    }
}

#[test]
fn user_prefix_parse_rejects_server_word() {
    let err = parse_user_prefix("server.name ").unwrap_err();
    assert_eq!(err.kind, ErrorKind::Malformed);
}

#[test]
fn numeric_command_renders_digits() {
    assert_eq!(Command::Numeric(0).to_text(), "0");
    assert_eq!(Command::Numeric(4).to_text(), "4");
    assert_eq!(Command::Numeric(1234).to_text(), "1234");
    assert_eq!(Command::Numeric(65535).to_text(), "65535");
}

#[test]
fn near_wire_rendering() {
    let msg = parse_message(":a!b@c CMD one :two three\r").unwrap();
    assert_eq!(msg.to_line(), ":a!b@c CMD one two three ");
}

#[test]
fn compact_rendering_without_prefix_keeps_both_separators() {
    let msg = parse_message("NOTICE AUTH :hi\r").unwrap();
    assert_eq!(msg.to_whitespace_separated(), "NOTICE  AUTH hi");
}
