use astral_wfp::hops::{get_all_interfaces_metrics, set_interface_metric, split_words};
use astral_wfp::text::{chars_of, string_of};
use astral_wfp::utils::{relaunch_arguments, AUTOSTART_ARG};

fn row(name: &str, metric: u32) -> (String, u32) {
    (name.to_string(), metric)
}

const TABLE: &str = "\r\nIdx     Met         MTU          State                Name\r\n---  ----------  ----------  ------------  ---------------------------\r\n  1          75  4294967295  connected     Loopback Pseudo-Interface 1\r\n 12          25        1500  connected     Ethernet\r\n\r\n  7          35        1500  disconnected  Wi-Fi   2\r\n";

#[test]
fn table_rows_after_three_header_lines() {
    assert_eq!(
        get_all_interfaces_metrics(TABLE),
        vec![row("Loopback Pseudo-Interface 1", 75), row("Ethernet", 25), row("Wi-Fi 2", 35)]
    );
}

#[test]
fn table_without_body() {
    assert_eq!(get_all_interfaces_metrics(""), vec![]);
    assert_eq!(get_all_interfaces_metrics("a b c d e"), vec![]);
    assert_eq!(get_all_interfaces_metrics("1 2 3 4 5\n1 2 3 4 5\n1 2 3 4 5"), vec![]);
    assert_eq!(get_all_interfaces_metrics("1 2 3 4 5\n1 2 3 4 5\n1 2 3 4 5\n"), vec![]);
    assert_eq!(get_all_interfaces_metrics("\n\n\n\n\n"), vec![]);
}

#[test]
fn table_rows_need_five_columns() {
    assert_eq!(get_all_interfaces_metrics("\n\n\n1 2 3 4"), vec![]);
    assert_eq!(get_all_interfaces_metrics("\n\n\n1 2 3 4 e"), vec![row("e", 2)]);
    assert_eq!(get_all_interfaces_metrics("\n\n\n1 2 3 4 e f\tg"), vec![row("e f g", 2)]);
    assert_eq!(get_all_interfaces_metrics("h\nh\nh\n  \n1 2 3 4 e\n\t\n"), vec![row("e", 2)]);
}

#[test]
fn table_metric_that_is_no_number_counts_as_zero() {
    assert_eq!(get_all_interfaces_metrics("\n\n\n1 x 3 4 e"), vec![row("e", 0)]);
    assert_eq!(get_all_interfaces_metrics("\n\n\n1 -5 3 4 e"), vec![row("e", 0)]);
    assert_eq!(get_all_interfaces_metrics("\n\n\n1 4294967296 3 4 e"), vec![row("e", 0)]);
    assert_eq!(get_all_interfaces_metrics("\n\n\n1 4294967295 3 4 e"), vec![row("e", u32::MAX)]);
    assert_eq!(get_all_interfaces_metrics("\n\n\n1 +7 3 4 e"), vec![row("e", 7)]);
    assert_eq!(get_all_interfaces_metrics("\n\n\n1 007 3 4 e"), vec![row("e", 7)]);
}

#[test]
fn table_agrees_with_line_and_word_splitting() {
    let mut expected = Vec::new();
    for line in TABLE.lines().skip(3) {
        if line.trim().is_empty() {
            continue;
        }
        let parts: Vec<&str> = line.split_whitespace().collect();
        if parts.len() >= 5 {
            expected.push((parts[4..].join(" "), parts[1].parse::<u32>().unwrap_or(0)));
        }
    }
    assert_eq!(get_all_interfaces_metrics(TABLE), expected);
}

#[test]
fn words_are_runs_without_white_space() {
    let words = |s: &str| -> Vec<String> {
        split_words(&chars_of(s)).iter().map(|w| string_of(w)).collect()
    };
    assert_eq!(words(""), Vec::<String>::new());
    assert_eq!(words("   "), Vec::<String>::new());
    assert_eq!(words("a"), vec!["a"]);
    assert_eq!(words("  ab \t cd\r\n"), vec!["ab", "cd"]);
    assert_eq!(words("a\u{A0}b\u{3000}c\u{2003}d\u{85}e"), vec!["a", "b", "c", "d", "e"]);
    assert_eq!(words("a\u{200B}b"), vec!["a\u{200B}b"]);
    let text = " x\u{1680}y\u{2028}z\u{2029}w\u{202F}v\u{205F}u\u{0B}t\u{0C}s ";
    let expected: Vec<String> = text.split_whitespace().map(|w| w.to_string()).collect();
    assert_eq!(words(text), expected);
}

#[test]
fn metric_commands() {
    let c = set_interface_metric("Ethernet", 25);
    assert_eq!(
        c.ipv4,
        "chcp 65001 >nul && netsh interface ipv4 set interface \"Ethernet\" metric=25"
    );
    assert_eq!(
        c.ipv6,
        "chcp 65001 >nul && netsh interface ipv6 set interface \"Ethernet\" metric=25"
    );
    let c = set_interface_metric("Wi-Fi 2", 0);
    assert_eq!(c.ipv4, "chcp 65001 >nul && netsh interface ipv4 set interface \"Wi-Fi 2\" metric=0");
    let c = set_interface_metric("以太网", 4294967295);
    assert_eq!(
        c.ipv6,
        "chcp 65001 >nul && netsh interface ipv6 set interface \"以太网\" metric=4294967295"
    );
    let c = set_interface_metric("", 1090);
    assert_eq!(c.ipv4, "chcp 65001 >nul && netsh interface ipv4 set interface \"\" metric=1090");
}

#[test]
fn relaunch_keeps_only_the_autostart_argument() {
    assert_eq!(AUTOSTART_ARG, "--autostart");
    let args = |v: &[&str]| -> Vec<String> { v.iter().map(|s| s.to_string()).collect() };
    assert_eq!(relaunch_arguments(true, &args(&["app", "--autostart"])), None);
    assert_eq!(relaunch_arguments(true, &args(&[])), None);
    assert_eq!(relaunch_arguments(false, &args(&["app", "--autostart", "-v"])), Some(args(&["--autostart"])));
    assert_eq!(relaunch_arguments(false, &args(&["app", "-v"])), Some(args(&[])));
    assert_eq!(relaunch_arguments(false, &args(&["app", "--autostart=1"])), Some(args(&[])));
    assert_eq!(relaunch_arguments(false, &args(&[])), Some(args(&[])));
}
