use parkour_api::log::{error, info, message_line, warn};

#[test]
fn a_line_is_stamp_level_and_message() {
    assert_eq!(
        message_line("[2024-03-01 12:00:00]", "info", "Saved scores to local file."),
        "[2024-03-01 12:00:00][info] Saved scores to local file."
    );
    assert_eq!(message_line("", "", ""), "[] ");
}

fn is_stamp(text: &str) -> bool {
    let bytes = text.as_bytes();
    bytes.len() == 21
        && bytes[0] == b'['
        && bytes[20] == b']'
        && bytes[5] == b'-'
        && bytes[8] == b'-'
        && bytes[11] == b' '
        && bytes[14] == b':'
        && bytes[17] == b':'
        && [1, 2, 3, 4, 6, 7, 9, 10, 12, 13, 15, 16, 18, 19].iter().all(|&i| bytes[i].is_ascii_digit())
}

#[test]
fn info_lines_carry_a_timestamp_and_the_level() {
    let line = info("Loaded scores list.");
    assert!(line.ends_with("[info] Loaded scores list."));
    assert!(is_stamp(&line[..line.len() - "[info] Loaded scores list.".len()]));
}

#[test]
fn warn_lines_carry_a_timestamp_and_the_level() {
    let line = warn("Not serving scoreboard.");
    assert!(line.ends_with("[warn] Not serving scoreboard."));
    assert!(is_stamp(&line[..line.len() - "[warn] Not serving scoreboard.".len()]));
}

#[test]
fn error_lines_carry_a_timestamp_and_the_level() {
    let line = error("No secret was found.");
    assert!(line.ends_with("[error] No secret was found."));
    assert!(is_stamp(&line[..line.len() - "[error] No secret was found.".len()]));
}
