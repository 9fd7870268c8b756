use qiish::lookahead::Lookahead;

#[test]
fn new_cursor_reads_the_first_item() {
    let mut cursor = Lookahead::new(vec![10u32, 20, 30]);
    assert_eq!(cursor.current(), Some(10));
    assert_eq!(cursor.current(), Some(10));
}

#[test]
fn forward_and_backward_move_only_the_peek() {
    let mut cursor = Lookahead::new(vec![10u32, 20, 30]);
    cursor.forward(2);
    assert_eq!(cursor.current(), Some(30));
    cursor.backward(1);
    assert_eq!(cursor.current(), Some(20));
    cursor.reset_cursor();
    assert_eq!(cursor.current(), Some(10));
}

#[test]
fn past_the_end_there_is_no_item() {
    let mut cursor = Lookahead::new(vec![10u32, 20, 30]);
    cursor.forward(3);
    assert_eq!(cursor.current(), None);
    cursor.forward(usize::MAX);
    assert_eq!(cursor.current(), None);
    cursor.backward(usize::MAX);
    cursor.backward(1);
    assert_eq!(cursor.current(), Some(30));
}

#[test]
fn before_the_start_there_is_no_item() {
    let mut cursor = Lookahead::new(vec![10u32, 20, 30]);
    cursor.backward(2);
    assert_eq!(cursor.current(), None);
    cursor.forward(1);
    assert_eq!(cursor.current(), None);
    cursor.forward(1);
    assert_eq!(cursor.current(), Some(10));
}

#[test]
fn next_walks_the_items_and_commits() {
    let mut cursor = Lookahead::new(vec![10u32, 20, 30]);
    assert_eq!(cursor.next(), Some(10));
    cursor.forward(1);
    assert_eq!(cursor.current(), Some(30));
    cursor.reset_cursor();
    assert_eq!(cursor.current(), Some(20));
    assert_eq!(cursor.next(), Some(20));
    assert_eq!(cursor.next(), Some(30));
    assert_eq!(cursor.next(), None);
    assert_eq!(cursor.next(), None);
}

#[test]
fn next_after_forward_skips_what_was_looked_at() {
    let mut cursor = Lookahead::new(vec![10u32, 20, 30]);
    assert_eq!(cursor.next(), Some(10));
    assert_eq!(cursor.current(), Some(20));
    cursor.forward(1);
    assert_eq!(cursor.next(), Some(30));
}

#[test]
fn empty_cursor_has_nothing() {
    let mut cursor: Lookahead<u8> = Lookahead::new(Vec::new());
    assert_eq!(cursor.current(), None);
    assert_eq!(cursor.next(), None);
}

#[test]
fn conversions_keep_the_items() {
    let mut cursor: Lookahead<u32> = Lookahead::from(vec![1u32, 2, 3]);
    assert_eq!(cursor.next(), Some(1));
    let items: Vec<u32> = Vec::from(cursor);
    assert_eq!(items, vec![1, 2, 3]);
}

#[test]
fn saturated_cursor_stays_without_item() {
    let mut cursor = Lookahead::new(vec![7u8]);
    let mut i = 0;
    while i < 4 {
        cursor.forward(usize::MAX);
        i += 1;
    }
    assert_eq!(cursor.current(), None);
    let mut j = 0;
    while j < 4 {
        cursor.backward(usize::MAX);
        j += 1;
    }
    assert_eq!(cursor.current(), Some(7));
}
