use singsing_rs::ports_from_services;
use singsing_rs::services::is_whitespace;

#[test]
fn parses_tcp_services_and_ignores_other_entries() {
    let ports = ports_from_services(
        "\
# comment
ssh             22/tcp
domain          53/udp
http            80/tcp  www # inline comment
http-alt        80/tcp
malformed
invalid         nope/tcp
zero            0/tcp
",
    )
    .unwrap();

    assert_eq!(ports, [22, 80]);
}

#[test]
fn rejects_services_file_without_tcp_ports() {
    ports_from_services("domain 53/udp\n# comment\nmalformed\n").unwrap_err();
}

#[test]
fn names_the_file_without_tcp_ports() {
    let error = ports_from_services("").unwrap_err();
    assert_eq!(error.message("/etc/services"), "/etc/services contains no TCP services");
}

#[test]
fn white_space_is_that_of_unicode() {
    for n in 0..=0x10_ffff {
        if let Some(c) = char::from_u32(n) {
            assert_eq!(is_whitespace(c), c.is_whitespace(), "{n:#x}");
        }
    }
}

#[test]
fn lines_may_end_in_a_carriage_return() {
    assert_eq!(ports_from_services("ssh 22/tcp\r\nhttp\t80/tcp\r\n").unwrap(), [22, 80]);
    assert_eq!(ports_from_services("ssh\u{3000}22/tcp").unwrap(), [22]);
}

#[test]
fn only_the_second_word_names_a_port() {
    ports_from_services("22/tcp").unwrap_err();
    ports_from_services("a b 22/tcp").unwrap_err();
    ports_from_services("ssh 22/tcp/x").unwrap_err();
    ports_from_services("ssh 22/TCP").unwrap_err();
    ports_from_services("ssh 22").unwrap_err();
    assert_eq!(ports_from_services("  ssh  +22/tcp").unwrap(), [22]);
}

#[test]
fn comments_are_ignored() {
    ports_from_services("ssh #22/tcp").unwrap_err();
    ports_from_services("ssh 22#/tcp").unwrap_err();
    assert_eq!(ports_from_services("ssh 22/tcp# x # 80/tcp").unwrap(), [22]);
}

#[test]
fn joined_files_offer_the_ports_of_both() {
    assert_eq!(ports_from_services("http 80/tcp\nssh 22/tcp").unwrap(), [22, 80]);
    assert_eq!(ports_from_services("domain 53/udp\nssh 22/tcp").unwrap(), [22]);
}
