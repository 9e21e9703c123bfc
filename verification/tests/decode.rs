use irc_parser::Command;
use irc_parser::Prefix;
use irc_parser::parse_message;
use irc_parser::parse_prefix;
use irc_parser::parse_user_prefix;

#[test]
fn test_parsing_host() {
    match parse_user_prefix("user!host@example.com ") {
        Ok((nick, user, host)) => {
            assert_eq!(nick, "user");
            assert_eq!(user, "host");
            assert_eq!(host, "example.com");
        }
        Err(_) => panic!("Error while parsing host"),
    }
}

#[test]
fn test_parsing_line() {
    match parse_message("NOTICE AUTH :*** Looking up your hostname\r") {
        Ok(msg) => {
            assert_eq!(msg.prefix, None);
            assert_eq!(msg.command, Command::Named(String::from("NOTICE")));
            assert_eq!(
                msg.params,
                vec![
                    String::from("AUTH"),
                    String::from("*** Looking up your hostname")
                ]
            );
        }
        Err(_) => panic!("Error while parsing auth message"),
    }
}

#[test]
fn test_parsing_line_without_trailing() {
    match parse_message(":port80a.se.quakenet.org 004 RustBot port80a.se.quakenet.org u2.10.12.10+snircd(1.3.4a) dioswkgxRXInP biklmnopstvrDcCNuMT bklov\r\n") {
        Ok(msg) => {
            assert_eq!(
                msg.prefix,
                Some(Prefix::Server(String::from("port80a.se.quakenet.org")))
            );
            assert_eq!(msg.command, Command::Numeric(4));
            assert_eq!(
                msg.params,
                vec![
                    String::from("RustBot"),
                    String::from("port80a.se.quakenet.org"),
                    String::from("u2.10.12.10+snircd(1.3.4a)"),
                    String::from("dioswkgxRXInP"),
                    String::from("biklmnopstvrDcCNuMT"),
                    String::from("bklov")
                ]
            );
        }
        Err(_) => panic!("Error while parsing a message without trailing stuff"),
    }
}

#[test]
fn test_parsing_prefix() {
    match parse_prefix(":this.represents.a.server.prefix ") {
        Ok((Some(Prefix::Server(server)), rest)) => {
            assert_eq!(server, "this.represents.a.server.prefix");
            assert_eq!(rest.len(), 0);
        }
        _ => panic!("Error while parsing prefix"),
    }
}

#[test]
fn test_parsing_message_using_parse_message() {
    let msg = "NOTICE AUTH :*** Looking up your hostname\r\nNOTICE AUTH :*** Checking Ident\r\nNOTICE AUTH :*** Found your hostname\r\n";
    for m in msg.split("\n") {
        if m.len() <= 1 {
            continue;
        }
        match parse_message(m) {
            Ok(_) => {}
            Err(_) => panic!("Could not parse line {:?} from message.", m),
        };
    }
}

#[test]
fn test_whitespace_separated() {
    let parsed = parse_message(":user!host@example.com PRIVMSG #channel :message\r\n").unwrap();
    assert_eq!(
        parsed.to_whitespace_separated(),
        "PRIVMSG user!host@example.com #channel message"
    );
}

#[test]
fn test_inline_host() {
    parse_message(":server.example.com 333 RustBot #channel user!host@example.com 123456789\r\n")
        .unwrap();
}
