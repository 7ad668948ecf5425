use zar::buffer::Buffer;
use zar::text::text_lines;

fn all_text(b: &Buffer) -> String {
    b.get_lines(0, b.get_lines_count())
}

#[test]
fn new_splits_after_each_newline() {
    let b = Buffer::new("ab\ncd\n");
    assert_eq!(b.get_lines_count(), 3);
    assert_eq!(b.get_lines(0, 1), "ab\n");
    assert_eq!(b.get_lines(1, 2), "cd\n");
    assert_eq!(b.get_lines(2, 3), "");
    assert_eq!(b.line_len(0), 3);
    assert_eq!(b.line_len(2), 0);
}

#[test]
fn empty_text_has_one_empty_line() {
    let b = Buffer::new("");
    assert_eq!(b.get_lines_count(), 1);
    assert_eq!(b.line_len(0), 0);
    assert_eq!(all_text(&b), "");
}

#[test]
fn text_without_final_newline_keeps_its_last_line() {
    let b = Buffer::new("one\ntwo");
    assert_eq!(b.get_lines_count(), 2);
    assert_eq!(b.line_len(1), 3);
}

#[test]
fn line_len_counts_characters_not_bytes() {
    let b = Buffer::new("héé\n");
    assert_eq!(b.line_len(0), 4);
}

#[test]
fn line_len_out_of_range_is_zero() {
    let b = Buffer::new("a\n");
    assert_eq!(b.line_len(7), 0);
}

#[test]
fn get_lines_clamps_both_bounds() {
    let b = Buffer::new("a\nb\nc");
    assert_eq!(b.get_lines(1, 100), "b\nc");
    assert_eq!(b.get_lines(5, 9), "");
    assert_eq!(b.get_lines(2, 1), "");
}

#[test]
fn whole_text_reads_back() {
    let text = "first\nsecond\n\nfourth";
    let b = Buffer::new(text);
    assert_eq!(all_text(&b), text);
    let again = Buffer::new(&all_text(&b));
    assert_eq!(again.get_lines_count(), b.get_lines_count());
    assert_eq!(all_text(&again), text);
}

#[test]
fn insert_char_in_line() {
    let mut b = Buffer::new("ac\nd\n");
    b.insert_char(0, 1, 'b');
    assert_eq!(all_text(&b), "abc\nd\n");
    b.insert_char(1, 1, 'e');
    assert_eq!(all_text(&b), "abc\nde\n");
}

#[test]
fn insert_line_break_splits_the_line() {
    let mut b = Buffer::new("abcd\n");
    b.insert_char(0, 2, '\n');
    assert_eq!(b.get_lines_count(), 3);
    assert_eq!(all_text(&b), "ab\ncd\n");
}

#[test]
fn insert_carriage_return_starts_a_new_line() {
    let mut b = Buffer::new("abcd");
    b.insert_char(0, 1, '\r');
    assert_eq!(all_text(&b), "a\nbcd");
    assert_eq!(b.get_lines_count(), 2);
}

#[test]
fn insert_outside_the_text_changes_nothing() {
    let mut b = Buffer::new("ab\n");
    b.insert_char(5, 0, 'x');
    b.insert_char(0, 3, 'x');
    b.insert_char(0, usize::MAX, 'x');
    assert_eq!(all_text(&b), "ab\n");
}

#[test]
fn remove_char_deletes_before_position() {
    let mut b = Buffer::new("abc\n");
    b.remove_char(0, 2);
    assert_eq!(all_text(&b), "ac\n");
}

#[test]
fn remove_at_line_start_joins_lines() {
    let mut b = Buffer::new("ab\ncd\n");
    b.remove_char(1, 0);
    assert_eq!(all_text(&b), "abcd\n");
    assert_eq!(b.get_lines_count(), 2);
}

#[test]
fn remove_at_text_start_changes_nothing() {
    let mut b = Buffer::new("ab\n");
    b.remove_char(0, 0);
    b.remove_char(9, 1);
    b.remove_char(0, 3);
    assert_eq!(all_text(&b), "ab\n");
}

#[test]
fn remove_undoes_insert() {
    let mut b = Buffer::new("hello\nworld");
    b.insert_char(1, 2, 'x');
    b.remove_char(1, 3);
    assert_eq!(all_text(&b), "hello\nworld");
    b.insert_char(0, 3, '\n');
    assert_eq!(all_text(&b), "hel\nlo\nworld");
    b.remove_char(1, 0);
    assert_eq!(all_text(&b), "hello\nworld");
}

#[test]
fn text_lines_agree_with_std_lines() {
    let samples = ["", "a", "a\n", "a\r\nb", "a\n\nb\n", "x\ry\n", "\n\n", "tail\r", "é\nü\r\n"];
    for s in samples.iter() {
        let ours = text_lines(s);
        let std: Vec<String> = s.lines().map(|l| l.to_string()).collect();
        assert_eq!(ours, std, "for {:?}", s);
    }
}
