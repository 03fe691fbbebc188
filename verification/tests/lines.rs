use rustex::lines::LineAccumulator;

fn text(lines: &[&str]) -> Vec<Vec<u8>> {
    lines.iter().map(|line| line.as_bytes().to_vec()).collect()
}

#[test]
fn feed_returns_complete_lines_in_order() {
    let mut acc = LineAccumulator::new();
    let lines = acc.feed(b"alpha\nbeta\ngamma\n");
    assert_eq!(lines, text(&["alpha", "beta", "gamma"]));
    assert_eq!(acc.pending(), b"");
}

#[test]
fn empty_chunk_changes_nothing() {
    let mut acc = LineAccumulator::new();
    assert!(acc.feed(b"").is_empty());
    assert_eq!(acc.pending(), b"");
    assert!(acc.feed(b"part").is_empty());
    assert!(acc.feed(b"").is_empty());
    assert_eq!(acc.pending(), b"part");
}

#[test]
fn partial_data_grows_the_fragment() {
    let mut acc = LineAccumulator::new();
    assert!(acc.feed(b"ERR").is_empty());
    assert_eq!(acc.pending(), b"ERR");
    assert!(acc.feed(b"OR: bo").is_empty());
    assert_eq!(acc.pending(), b"ERROR: bo");
    assert_eq!(acc.feed(b"om\n"), text(&["ERROR: boom"]));
    assert_eq!(acc.pending(), b"");
}

#[test]
fn unterminated_tail_is_not_a_line() {
    let mut acc = LineAccumulator::new();
    assert_eq!(acc.feed(b"one\ntwo"), text(&["one"]));
    assert_eq!(acc.pending(), b"two");
    assert_eq!(acc.feed(b"\n"), text(&["two"]));
    assert_eq!(acc.pending(), b"");
}

#[test]
fn line_is_not_emitted_twice() {
    let mut acc = LineAccumulator::new();
    assert_eq!(acc.feed(b"one\n"), text(&["one"]));
    assert!(acc.feed(b"").is_empty());
    assert_eq!(acc.feed(b"two\n"), text(&["two"]));
}

#[test]
fn empty_lines_are_lines() {
    let mut acc = LineAccumulator::new();
    assert_eq!(acc.feed(b"\n\nx\n\n"), text(&["", "", "x", ""]));
}

#[test]
fn carriage_return_before_newline_is_dropped() {
    let mut acc = LineAccumulator::new();
    assert_eq!(acc.feed(b"one\r\ntwo\r"), text(&["one"]));
    assert_eq!(acc.pending(), b"two\r");
    assert_eq!(acc.feed(b"\nthr\ree\n\r\r\n"), text(&["two", "thr\ree", "\r"]));
}

#[test]
fn every_split_in_two_gives_the_lines_of_the_whole() {
    let whole: &[u8] = b"first\nsecond line\r\n\nfourth\nrest without end";
    let mut all_at_once = LineAccumulator::new();
    let expected = all_at_once.feed(whole);
    assert_eq!(expected, text(&["first", "second line", "", "fourth"]));
    for cut in 0..=whole.len() {
        let mut acc = LineAccumulator::new();
        let mut lines = acc.feed(&whole[..cut]);
        lines.extend(acc.feed(&whole[cut..]));
        assert_eq!(lines, expected);
        assert_eq!(acc.pending(), b"rest without end");
    }
}

#[test]
fn byte_by_byte_gives_the_lines_of_the_whole() {
    let whole: &[u8] = b"a\nbb\r\nccc\n\ndddd";
    let mut acc = LineAccumulator::new();
    let mut lines: Vec<Vec<u8>> = Vec::new();
    for byte in whole {
        lines.extend(acc.feed(&[*byte]));
    }
    assert_eq!(lines, text(&["a", "bb", "ccc", ""]));
    assert_eq!(acc.pending(), b"dddd");
}

#[test]
fn every_split_in_three_gives_the_lines_of_the_whole() {
    let whole: &[u8] = b"x\nyy\nzzz\nw";
    for first in 0..=whole.len() {
        for second in first..=whole.len() {
            let mut acc = LineAccumulator::new();
            let mut lines = acc.feed(&whole[..first]);
            lines.extend(acc.feed(&whole[first..second]));
            lines.extend(acc.feed(&whole[second..]));
            assert_eq!(lines, text(&["x", "yy", "zzz"]));
            assert_eq!(acc.pending(), b"w");
        }
    }
}
