use pirelay::cli::{
    arguments_well_formed, command_line_fault, option_fault_of, ArgsOutcome, Command, OptionFault,
    CLI,
};
use pirelay::connection::Connection;

fn args(words: &[&str]) -> Vec<String> {
    words.iter().map(|w| w.to_string()).collect()
}

fn strings(words: &[&str]) -> Vec<String> {
    args(words)
}

#[test]
fn new_has_defaults() {
    let c = CLI::new();
    assert!(!c.dbg);
    assert_eq!(c.method, "RECEIVE");
    assert_eq!(c.send.len(), 0);
    assert!(c.receive.is_empty());
    assert_eq!(c.srcdir, None);
    assert_eq!(c.config, None);
    assert_eq!(c.connection.port, 5623);
    assert_eq!(c.connection.url, "");
    assert_eq!(c.connection.ip, "");
    assert_eq!(c.connection.hostname, "");
}

#[test]
fn connection_default_port() {
    let c = Connection::default();
    assert_eq!(c.port, 5623);
    assert_eq!(c.url, "");
}

#[test]
fn parse_full_command_line() {
    let a = args(&[
        "send",
        "-d",
        "--send=alice=(file1.txt, doc.pdf )",
        "--receive=(bob, carol)",
        "-s=./downloads",
        "-conf=config.json",
        "-c=( https://relay.example.com ,192.168.1.100, 5623,relay-server)",
    ]);
    assert!(arguments_well_formed(&a));
    let mut c = CLI::new();
    assert_eq!(c.Parse_Args(&a), ArgsOutcome::Parsed);
    assert_eq!(c.method, "SEND");
    assert!(c.dbg);
    assert_eq!(c.send.len(), 1);
    assert_eq!(c.send.get(&"alice".to_string()), Some(&strings(&["file1.txt", "doc.pdf"])));
    assert_eq!(c.receive, strings(&["bob", "carol"]));
    assert_eq!(c.srcdir, Some("./downloads".to_string()));
    assert_eq!(c.config, Some("config.json".to_string()));
    assert_eq!(c.connection.url, "https://relay.example.com");
    assert_eq!(c.connection.ip, "192.168.1.100");
    assert_eq!(c.connection.port, 5623);
    assert_eq!(c.connection.hostname, "relay-server");
}

#[test]
fn empty_command_line_asks_for_help() {
    let mut c = CLI::new();
    assert!(arguments_well_formed(&Vec::new()));
    assert_eq!(c.Parse_Args(&Vec::new()), ArgsOutcome::Help);
    assert_eq!(c.method, "RECEIVE");
}

#[test]
fn method_only() {
    let mut c = CLI::new();
    assert_eq!(c.Parse_Args(&args(&["Receive"])), ArgsOutcome::Parsed);
    assert_eq!(c.method, "RECEIVE");
    let mut c = CLI::new();
    assert_eq!(c.Parse_Args(&args(&["frobnicate-ä"])), ArgsOutcome::Parsed);
    assert_eq!(c.method, "FROBNICATE-ä");
}

#[test]
fn unknown_option_stops_reading() {
    let mut c = CLI::new();
    let a = args(&["SEND", "-d", "--bogus", "-s=/never"]);
    assert_eq!(c.Parse_Args(&a), ArgsOutcome::Help);
    assert!(c.dbg);
    assert_eq!(c.srcdir, None);
}

#[test]
fn debug_spellings() {
    for flag in ["-d", "-D", "--debug", "--Debug"] {
        let mut c = CLI::new();
        assert_eq!(c.Parse_Args(&args(&["SEND", flag])), ArgsOutcome::Parsed);
        assert!(c.dbg);
    }
    let mut c = CLI::new();
    assert_eq!(c.Parse_Args(&args(&["SEND", "-dx"])), ArgsOutcome::Help);
    let mut c = CLI::new();
    assert_eq!(c.Parse_Args(&args(&["SEND", "--DEBUG"])), ArgsOutcome::Help);
}

#[test]
fn later_values_replace_earlier_ones() {
    let mut c = CLI::new();
    let a = args(&["SEND", "--src=one", "-s=two", "--config=a.json", "-conf=b.json"]);
    assert_eq!(c.Parse_Args(&a), ArgsOutcome::Parsed);
    assert_eq!(c.srcdir, Some("two".to_string()));
    assert_eq!(c.config, Some("b.json".to_string()));
}

#[test]
fn value_keeps_later_equal_signs() {
    let mut c = CLI::new();
    assert_eq!(c.Parse_Args(&args(&["SEND", "--src=a=b"])), ArgsOutcome::Parsed);
    assert_eq!(c.srcdir, Some("a=b".to_string()));
}

#[test]
fn send_same_recipient_keeps_last_list() {
    let mut c = CLI::new();
    let a = args(&[
        "SEND",
        "--send=alice=(a.txt)",
        "--send=bob=(b.txt)",
        "--send=alice=(c.txt,d.txt)",
    ]);
    assert_eq!(c.Parse_Args(&a), ArgsOutcome::Parsed);
    assert_eq!(c.send.len(), 2);
    assert_eq!(c.send.get(&"alice".to_string()), Some(&strings(&["c.txt", "d.txt"])));
    assert_eq!(c.send.get(&"bob".to_string()), Some(&strings(&["b.txt"])));
    assert_eq!(c.send.get(&"carol".to_string()), None);
}

#[test]
fn send_prefix_without_equals_after_send() {
    let mut c = CLI::new();
    let a = args(&["SEND", "--sendto=bob=(x, y,)"]);
    assert!(arguments_well_formed(&a));
    assert_eq!(c.Parse_Args(&a), ArgsOutcome::Parsed);
    assert_eq!(c.send.get(&"bob".to_string()), Some(&strings(&["x", "y", ""])));
    let mut c = CLI::new();
    assert_eq!(c.Parse_Args(&args(&["SEND", "--send=carol(z)"])), ArgsOutcome::Parsed);
    assert_eq!(c.send.get(&"carol".to_string()), Some(&strings(&["z"])));
}

#[test]
fn send_with_empty_recipient() {
    let mut c = CLI::new();
    let a = args(&["SEND", "--send=(f)"]);
    assert!(arguments_well_formed(&a));
    assert_eq!(c.Parse_Args(&a), ArgsOutcome::Parsed);
    assert_eq!(c.send.get(&"".to_string()), Some(&strings(&["f"])));
}

#[test]
fn receive_lists_accumulate() {
    let mut c = CLI::new();
    let a = args(&["RECEIVE", "--receive=(alice)", "--receive=( bob ,carol)"]);
    assert_eq!(c.Parse_Args(&a), ArgsOutcome::Parsed);
    assert_eq!(c.receive, strings(&["alice", "bob", "carol"]));
}

#[test]
fn connection_with_plus_sign_and_extra_items() {
    let mut c = CLI::new();
    let a = args(&["SEND", "--conn=(u,i,+80,h,extra)"]);
    assert!(arguments_well_formed(&a));
    assert_eq!(c.Parse_Args(&a), ArgsOutcome::Parsed);
    assert_eq!(c.connection.port, 80);
    assert_eq!(c.connection.hostname, "h");
}

#[test]
fn malformed_options_are_detected() {
    assert!(!arguments_well_formed(&args(&["SEND", "--conn=(a,b,5623)"])));
    assert!(!arguments_well_formed(&args(&["SEND", "--conn=(a,b,port,d)"])));
    assert!(!arguments_well_formed(&args(&["SEND", "--conn=(a,b,4294967296,d)"])));
    assert!(!arguments_well_formed(&args(&["SEND", "-c=a,b,1,d"])));
    assert!(!arguments_well_formed(&args(&["SEND", "--send=alice=(x"])));
    assert!(!arguments_well_formed(&args(&["SEND", "--send(x)"])));
    assert!(!arguments_well_formed(&args(&["SEND", "--send=a)(b"])));
    assert!(!arguments_well_formed(&args(&["SEND", "--send(=x)"])));
    assert!(!arguments_well_formed(&args(&["RECEIVE", "--receive=alice"])));
    assert!(!arguments_well_formed(&args(&["RECEIVE", "-d", "--receive=)("])));
    assert!(arguments_well_formed(&args(&["RECEIVE", "--bogus", "--receive=alice"])));
    assert!(arguments_well_formed(&args(&["RECEIVE", "--conn=(a,b,4294967295,d)"])));
}

#[test]
fn parse_reads_options_in_order() {
    let mut whole = CLI::new();
    let mut stepwise = CLI::new();
    let a = args(&["SEND", "--receive=(a)", "-d", "--receive=(b)"]);
    assert_eq!(whole.Parse_Args(&a), ArgsOutcome::Parsed);
    assert_eq!(stepwise.Parse_Args(&args(&["SEND", "--receive=(a)", "-d"])), ArgsOutcome::Parsed);
    assert_eq!(stepwise.Parse_Args(&args(&["SEND", "--receive=(b)"])), ArgsOutcome::Parsed);
    assert_eq!(whole.receive, stepwise.receive);
    assert_eq!(whole.dbg, stepwise.dbg);
    assert_eq!(whole.method, stepwise.method);
}

#[test]
fn documented_examples() {
    let mut c = CLI::new();
    assert_eq!(c.Parse_Args(&args(&["SEND", "--send=alice=(file.txt,doc.pdf)"])), ArgsOutcome::Parsed);
    assert_eq!(c.send.get(&"alice".to_string()), Some(&strings(&["file.txt", "doc.pdf"])));

    let mut c = CLI::new();
    let a = args(&["SEND", "--send=alice=(file.txt)", "--send=bob=(document.pdf)"]);
    assert_eq!(c.Parse_Args(&a), ArgsOutcome::Parsed);
    assert_eq!(c.send.get(&"alice".to_string()), Some(&strings(&["file.txt"])));
    assert_eq!(c.send.get(&"bob".to_string()), Some(&strings(&["document.pdf"])));

    let mut c = CLI::new();
    assert_eq!(c.Parse_Args(&args(&["RECEIVE", "--receive=(alice,bob)"])), ArgsOutcome::Parsed);
    assert_eq!(c.method, "RECEIVE");
    assert_eq!(c.receive, strings(&["alice", "bob"]));

    let mut c = CLI::new();
    assert_eq!(c.Parse_Args(&args(&["RECEIVE", "-s=./downloads"])), ArgsOutcome::Parsed);
    assert_eq!(c.srcdir, Some("./downloads".to_string()));

    let mut c = CLI::new();
    let a = args(&["SEND", "--send=alice=(file.txt)", "-c=(https://relay.example.com,192.168.1.100,5623,relay-server)"]);
    assert_eq!(c.Parse_Args(&a), ArgsOutcome::Parsed);
    assert_eq!(c.connection.ip, "192.168.1.100");

    let mut c = CLI::new();
    let a = args(&["SEND", "-conf=config.json", "--send=alice=(file.txt)"]);
    assert_eq!(c.Parse_Args(&a), ArgsOutcome::Parsed);
    assert_eq!(c.config, Some("config.json".to_string()));
}

#[test]
fn cli_clone_keeps_settings() {
    let mut c = CLI::new();
    assert_eq!(c.Parse_Args(&args(&["SEND", "--send=a=(x,y)", "-d"])), ArgsOutcome::Parsed);
    let d = c.clone();
    assert_eq!(d.send.get(&"a".to_string()), Some(&strings(&["x", "y"])));
    assert_eq!(d.send.len(), 1);
    assert!(d.dbg);
}

#[test]
fn commands() {
    let mut c = CLI::new();
    assert_eq!(c.command(), Command::Receive);
    assert_eq!(c.Parse_Args(&args(&["send"])), ArgsOutcome::Parsed);
    assert_eq!(c.command(), Command::Send);
    assert_eq!(c.Parse_Args(&args(&["list"])), ArgsOutcome::Parsed);
    assert_eq!(c.command(), Command::Unknown);
}

#[test]
fn option_faults_name_the_first_problem() {
    let fault = |words: &[&str]| command_line_fault(&args(words));
    assert_eq!(fault(&["SEND", "--conn=(a,b)"]), Some(OptionFault::MissingItem));
    assert_eq!(fault(&["SEND", "--conn=(a,b,5623)"]), Some(OptionFault::MissingItem));
    assert_eq!(fault(&["SEND", "--conn=(a,b,x,d)"]), Some(OptionFault::BadPort));
    assert_eq!(fault(&["SEND", "--conn=(a,b,port)"]), Some(OptionFault::BadPort));
    assert_eq!(fault(&["SEND", "-c=a,b,1,d"]), Some(OptionFault::MissingParen));
    assert_eq!(fault(&["SEND", "--send=alice=(x"]), Some(OptionFault::MissingParen));
    assert_eq!(fault(&["SEND", "--send(x)"]), Some(OptionFault::MissingEquals));
    assert_eq!(fault(&["SEND", "--send(=x)"]), Some(OptionFault::NameAfterParen));
    assert_eq!(fault(&["SEND", "--send=a)(b"]), Some(OptionFault::ParenOrder));
    assert_eq!(fault(&["RECEIVE", "-d", "--receive=)("]), Some(OptionFault::ParenOrder));
    assert_eq!(fault(&["RECEIVE", "--bogus", "--receive=alice"]), None);
    assert_eq!(fault(&["SEND", "--conn=(a,b,1,d)", "--send=a)(b", "--send(x)"]), Some(OptionFault::ParenOrder));
    assert_eq!(fault(&["SEND", "--conn=(a,b,4294967295,d)"]), None);
    assert_eq!(fault(&[]), None);
    let chars: Vec<char> = "--receive=alice".chars().collect();
    assert_eq!(option_fault_of(&chars), Some(OptionFault::MissingParen));
    let chars: Vec<char> = "-s=out".chars().collect();
    assert_eq!(option_fault_of(&chars), None);
}

#[test]
fn short_and_long_spellings_read_alike() {
    let mut short = CLI::new();
    let mut long = CLI::new();
    let a = args(&["send", "-s=out", "-conf=c.json", "-c=(u, 10.0.0.1, 7, h)", "-d"]);
    let b = args(&["send", "--src=out", "--config=c.json", "--conn=(u, 10.0.0.1, 7, h)", "--debug"]);
    assert_eq!(short.Parse_Args(&a), ArgsOutcome::Parsed);
    assert_eq!(long.Parse_Args(&b), ArgsOutcome::Parsed);
    assert_eq!(short.method, long.method);
    assert_eq!(short.dbg, long.dbg);
    assert_eq!(short.srcdir, long.srcdir);
    assert_eq!(short.config, long.config);
    assert_eq!(short.connection.url, long.connection.url);
    assert_eq!(short.connection.ip, long.connection.ip);
    assert_eq!(short.connection.port, long.connection.port);
    assert_eq!(short.connection.hostname, long.connection.hostname);
    assert_eq!(short.srcdir, Some("out".to_string()));
    assert_eq!(short.connection.port, 7);
}

#[test]
fn settings_not_named_keep_their_values() {
    let mut c = CLI::new();
    assert_eq!(
        c.Parse_Args(&args(&["send", "-s=keep", "-conf=k.json", "--send=bob=(b.txt)", "--receive=(x)"])),
        ArgsOutcome::Parsed
    );
    assert_eq!(
        c.Parse_Args(&args(&["Receive", "--receive=( y , z )", "--send=alice=(a.txt)"])),
        ArgsOutcome::Parsed
    );
    assert_eq!(c.method, "RECEIVE");
    assert_eq!(c.receive, strings(&["x", "y", "z"]));
    assert_eq!(c.srcdir, Some("keep".to_string()));
    assert_eq!(c.config, Some("k.json".to_string()));
    assert!(!c.dbg);
    assert_eq!(c.send.len(), 2);
    assert_eq!(c.send.get(&"bob".to_string()), Some(&strings(&["b.txt"])));
    assert_eq!(c.send.get(&"alice".to_string()), Some(&strings(&["a.txt"])));
}
