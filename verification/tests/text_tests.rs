use myssh::line_buffer::LineBuffer;
use myssh::terminal::{get_default_terminal_size, get_terminal_size, WindowSize};

#[test]
fn line_buffer_hands_out_complete_lines() {
    let mut b = LineBuffer::new("node1");
    assert_eq!(b.feed("a\nb", false), vec!["a".to_string()]);
    assert_eq!(b.feed("c\n\nd", true), vec!["[node1] bc".to_string(), "[node1] ".to_string()]);
    assert_eq!(b.flush(true), Some("[node1] d".to_string()));
    assert_eq!(b.flush(true), None);
}

#[test]
fn line_buffer_loses_nothing() {
    let input = ["ab", "c\r\nde\n", "", "f\n\n", "gh"];
    let mut b = LineBuffer::new("n");
    let mut out = String::new();
    for chunk in input {
        for line in b.feed(chunk, false) {
            out.push_str(&line);
            out.push('\n');
        }
    }
    if let Some(rest) = b.flush(false) {
        out.push_str(&rest);
    }
    assert_eq!(out, input.concat());
}

#[test]
fn terminal_size_falls_back() {
    let d = get_default_terminal_size();
    assert_eq!((d.cols, d.rows), (200, 60));
    let t = get_terminal_size(Some(WindowSize { ws_col: 120, ws_row: 40 }));
    assert_eq!((t.cols, t.rows), (120, 40));
    let n = get_terminal_size(None);
    assert_eq!((n.cols, n.rows), (200, 60));
}

#[test]
fn two_feeds_match_one_feed() {
    let mut twice = LineBuffer::new("n");
    let mut lines = twice.feed("one\ntw", false);
    lines.extend(twice.feed("o\nthree", false));
    let mut once = LineBuffer::new("n");
    assert_eq!(lines, once.feed("one\ntwo\nthree", false));
    assert_eq!(twice.flush(false), once.flush(false));
}

#[test]
fn feed_then_flush_gives_the_split_pieces() {
    let text = "a\r\n\nb\nc";
    let mut b = LineBuffer::new("n");
    let mut shown = b.feed(text, false);
    shown.extend(b.flush(false));
    let pieces: Vec<String> = text.split('\n').map(|s| s.to_string()).collect();
    assert_eq!(shown, pieces);
    let mut b = LineBuffer::new("n");
    let mut shown = b.feed("x\ny\n", false);
    shown.extend(b.flush(false));
    assert_eq!(shown, vec!["x".to_string(), "y".to_string()]);
}
