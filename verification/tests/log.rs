use gpiojsonsvc::gpio::mock::log::parse_write_log_blocks;
use gpiojsonsvc::gpio::mock::log::write_dump_block;

#[test]
fn dump_block_format_matches_plan() {
    let text = write_dump_block(1710000000123, "<gpiochip id=\"gpiochip0\"/>\n");
    assert_eq!(
        text,
        "----\ntimestamp: 1710000000123\n\n<gpiochip id=\"gpiochip0\"/>\n\n"
    );
}

#[test]
fn logged_blocks_are_read_back() {
    let first = write_dump_block(100, "<gpiochip id=\"a\"/>\n");
    let second = write_dump_block(200, "<gpiochip id=\"b\"/>");
    assert_eq!(
        second,
        "----\ntimestamp: 200\n\n<gpiochip id=\"b\"/>\n\n"
    );
    let blocks = parse_write_log_blocks(&format!("{first}{second}")).expect("log");
    assert_eq!(
        blocks,
        vec![
            (100, "<gpiochip id=\"a\"/>\n\n".to_owned()),
            (200, "<gpiochip id=\"b\"/>\n\n".to_owned()),
        ]
    );
}

#[test]
fn malformed_log_is_refused() {
    assert_eq!(parse_write_log_blocks("----\nno timestamp\n"), None);
    assert_eq!(parse_write_log_blocks("----\ntimestamp: x\n\n"), None);
    assert_eq!(parse_write_log_blocks(""), Some(vec![]));
}
