use pixel_says::{
    frame_lines, frame_message, line_widths, longest_line, max_width, merge_white_spaces, say,
    split_lines, wrap_lines, MASCOT,
};
use unicode_width::UnicodeWidthStr;

fn strings(v: &[&str]) -> Vec<String> {
    v.iter().map(|s| s.to_string()).collect()
}

#[test]
fn wrapped_lines_fit_the_width() {
    let lines = wrap_lines("The quick brown fox jumps over the lazy dog", 10);
    assert_eq!(lines, strings(&["The quick", "brown fox", "jumps over", "the lazy", "dog"]));
    for line in &lines {
        assert!(UnicodeWidthStr::width(line.as_str()) <= 10);
    }
    let lines = wrap_lines("a supercalifragilistic b c", 5);
    assert_eq!(lines, strings(&["a", "supercalifragilistic", "b c"]));
    for line in &lines {
        let fits = UnicodeWidthStr::width(line.as_str()) <= 5;
        assert!(fits || !line.contains(' '));
    }
    let lines = wrap_lines("well-known co-operation", 10);
    assert_eq!(lines, strings(&["well-known", "co-operation"]));
}

#[test]
fn single_line_bubble() {
    let out = say("Hello, world!", 24).unwrap();
    let expected = format!(" _______________\n< Hello, world! >\n ---------------{}", MASCOT);
    assert_eq!(out, expected);
    assert!(MASCOT.starts_with("\n        \\\n         \\\n"));
}

#[test]
fn multi_line_bubble_delimiters() {
    let out = frame_message("aaa bbb ccc", 3).unwrap();
    assert_eq!(out, " _____\n/ aaa \\\n| bbb |\n\\ ccc /\n -----");
    let out = frame_message("aaa bbb", 3).unwrap();
    assert_eq!(out, " _____\n/ aaa \\\n\\ bbb /\n -----");
}

#[test]
fn lines_padded_to_widest() {
    let out = frame_message("hello wonderful world", 10).unwrap();
    assert_eq!(
        out,
        " ___________\n/ hello     \\\n| wonderful |\n\\ world     /\n -----------"
    );
}

#[test]
fn borders_match_width() {
    for (msg, w) in [("x", 5), ("two words here", 6), ("", 4), ("漢字 ab", 40)] {
        let out = frame_message(msg, w).unwrap();
        let lines: Vec<&str> = out.split('\n').collect();
        let top = lines[0];
        let bottom = lines[lines.len() - 1];
        assert_eq!(top.chars().count(), bottom.chars().count());
        assert!(top[1..].chars().all(|c| c == '_'));
        assert!(bottom[1..].chars().all(|c| c == '-'));
        let widest = wrap_lines(msg, w).iter().map(|l| UnicodeWidthStr::width(l.as_str())).max();
        assert_eq!(top.len(), widest.unwrap_or(0) + 3);
    }
}

#[test]
fn empty_message_bubble() {
    assert_eq!(frame_message("", 10).unwrap(), " __\n --");
    assert_eq!(say("", 10).unwrap(), format!(" __\n --{}", MASCOT));
}

#[test]
fn framing_twice_gives_same_text() {
    let a = say("Some   text\twith  blanks and a fairly long line to wrap", 12).unwrap();
    let b = say("Some   text\twith  blanks and a fairly long line to wrap", 12).unwrap();
    assert_eq!(a.as_bytes(), b.as_bytes());
}

#[test]
fn blank_runs_are_merged() {
    assert_eq!(merge_white_spaces("a  \t b\n  c").unwrap(), "a b\n c");
    assert_eq!(merge_white_spaces("x\r\ny").unwrap(), "x\r\ny");
    assert_eq!(merge_white_spaces("").unwrap(), "");
}

#[test]
fn splitting_lines() {
    assert_eq!(split_lines("a\r\nb\n\nc\n"), strings(&["a", "b", "", "c"]));
    assert_eq!(split_lines("x\r"), strings(&["x\r"]));
    assert_eq!(split_lines(""), strings(&[]));
    assert_eq!(split_lines("\n"), strings(&[""]));
    assert_eq!(split_lines("p\r\r\nq"), strings(&["p\r", "q"]));
}

#[test]
fn display_widths_of_lines() {
    let lines = strings(&["漢字", "ab", ""]);
    assert_eq!(line_widths(&lines), vec![4, 2, 0]);
    assert_eq!(longest_line(&lines), 4);
    assert_eq!(longest_line(&strings(&[])), 0);
    assert_eq!(max_width(&vec![3, 9, 2]), 9);
}

#[test]
fn framing_given_lines_and_widths() {
    let lines = strings(&["漢字", "ab"]);
    let out = frame_lines(&lines, &vec![4, 2]);
    assert_eq!(out, " ______\n/ 漢字 \\\n\\ ab   /\n ------");
    let out = frame_lines(&strings(&["one"]), &vec![5]);
    assert_eq!(out, " _______\n< one >\n -------");
}
