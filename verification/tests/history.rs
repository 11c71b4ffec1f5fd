use lkjscript_platform::history::select_history;

#[test]
fn history_pages_walk_from_the_head_and_resume_below_the_last_listed() {
    let chain = vec![5u64, 4, 3, 2, 1];
    let first = select_history(&chain, 5, None, 2).expect("first page");
    assert_eq!(first.positions, vec![0, 1]);
    assert_eq!(first.next_before, Some(4));
    let second = select_history(&chain, 5, Some(4), 2).expect("second page");
    assert_eq!(second.positions, vec![2, 3]);
    assert_eq!(second.next_before, Some(2));
    let last = select_history(&chain, 5, Some(2), 2).expect("last page");
    assert_eq!(last.positions, vec![4]);
    assert_eq!(last.next_before, None);
    assert_eq!(select_history(&chain, 5, None, 0).unwrap_err().code, "source_history_limit");
    assert_eq!(select_history(&chain, 5, None, 1001).unwrap_err().code, "source_history_limit");
}
