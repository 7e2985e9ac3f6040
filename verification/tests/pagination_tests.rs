use homepage_core::messages::{read_page, read_page_with_cursor, split_page, Message};
use homepage_core::pagination::Paginatable;

fn msg(id: i64) -> Message {
    Message {
        id,
        author: format!("author{id}"),
        content: format!("content{id}"),
        timestamp_millis: id * 1000,
    }
}

#[test]
fn pages_slice_in_order() {
    let v: Vec<u32> = vec![10, 20, 30, 40, 50, 60, 70];
    let (page, next) = v.get_page(0, 3);
    assert_eq!(page, &[10, 20, 30]);
    assert_eq!(next, Some(3));
    let (page, next) = v.get_page(3, 3);
    assert_eq!(page, &[40, 50, 60]);
    assert_eq!(next, Some(6));
    let (page, next) = v.get_page(6, 3);
    assert_eq!(page, &[70]);
    assert_eq!(next, None);
}

#[test]
fn paging_to_the_end_visits_every_item_once() {
    // Coverage: any positive page size walks the whole collection exactly
    // once, in order.
    let v: Vec<u32> = (0..23).collect();
    for limit in 1..=24usize {
        let mut seen: Vec<u32> = Vec::new();
        let mut cursor = Some(0usize);
        while let Some(start) = cursor {
            let (page, next) = v.get_page(start, limit);
            seen.extend_from_slice(page);
            cursor = next;
        }
        assert_eq!(seen, (0..23).collect::<Vec<u32>>());
    }
}

#[test]
fn out_of_range_cursor_yields_empty_page() {
    let v: Vec<u32> = vec![1, 2, 3];
    let (page, next) = v.get_page(3, 5);
    assert!(page.is_empty());
    assert_eq!(next, None);
    let (page, next) = v.get_page(100, 5);
    assert!(page.is_empty());
    assert_eq!(next, None);
}

#[test]
fn limit_past_the_end_returns_rest_without_cursor() {
    let v: Vec<u32> = vec![1, 2, 3];
    let (page, next) = v.get_page(1, 10);
    assert_eq!(page, &[2, 3]);
    assert_eq!(next, None);
}

#[test]
fn log_read_starts_from_newest() {
    let log = vec![msg(9), msg(7), msg(5), msg(3), msg(1)];
    let (page, next) = read_page_with_cursor(&log, None, 2);
    let ids: Vec<i64> = page.iter().map(|m| m.id).collect();
    assert_eq!(ids, vec![9, 7]);
    assert_eq!(next, Some(7));
}

#[test]
fn log_read_resumes_strictly_after_cursor() {
    let log = vec![msg(9), msg(7), msg(5), msg(3), msg(1)];
    let page = read_page(&log, Some(7), 2);
    let ids: Vec<i64> = page.iter().map(|m| m.id).collect();
    assert_eq!(ids, vec![5, 3]);
}

#[test]
fn log_read_past_the_end_is_empty_not_an_error() {
    let log = vec![msg(9), msg(7)];
    let (page, next) = read_page_with_cursor(&log, Some(1), 2);
    assert!(page.is_empty());
    assert_eq!(next, None);
}

#[test]
fn a_full_final_page_carries_no_cursor() {
    // When the remaining records number an exact multiple of the limit,
    // the last full page must not offer a cursor to an empty page.
    let log = vec![msg(9)];
    let (page, next) = read_page_with_cursor(&log, None, 1);
    assert_eq!(page.len(), 1);
    assert_eq!(next, None);

    let log = vec![msg(9), msg(7), msg(5), msg(3)];
    let (page, next) = read_page_with_cursor(&log, None, 2);
    assert_eq!(page.len(), 2);
    assert_eq!(next, Some(7));
    let (page, next) = read_page_with_cursor(&log, Some(7), 2);
    assert_eq!(page.len(), 2);
    assert_eq!(next, None);
}

#[test]
fn split_page_reports_a_cursor_only_with_proof_of_more() {
    let rows = vec![msg(9), msg(7), msg(5)];
    let (page, next) = split_page(rows, 2);
    assert_eq!(page.len(), 2);
    assert_eq!(next, Some(7));
    let rows = vec![msg(9), msg(7)];
    let (page, next) = split_page(rows, 2);
    assert_eq!(page.len(), 2);
    assert_eq!(next, None);
}

#[test]
fn log_paging_until_no_cursor_visits_every_record_once() {
    let log: Vec<Message> = (0..11).rev().map(|i| msg(i * 2)).collect();
    for limit in 1..=12usize {
        let mut seen: Vec<i64> = Vec::new();
        let mut cursor: Option<i64> = None;
        loop {
            let (page, next) = read_page_with_cursor(&log, cursor, limit);
            seen.extend(page.iter().map(|m| m.id));
            match next {
                Some(c) => cursor = Some(c),
                None => break,
            }
        }
        let expected: Vec<i64> = (0..11).rev().map(|i| i * 2).collect();
        assert_eq!(seen, expected);
    }
}

#[test]
fn short_page_reports_no_cursor() {
    let log = vec![msg(5), msg(3)];
    let (page, next) = read_page_with_cursor(&log, None, 5);
    assert_eq!(page.len(), 2);
    assert_eq!(next, None);
}
