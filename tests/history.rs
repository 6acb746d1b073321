use fractal_generator::history::History;

#[test]
fn newest_first_and_bounded() {
    let mut h: History<u32> = History::new(3);
    for i in 1..=5 {
        h.push(i);
    }
    assert_eq!(h.len(), 3);
    assert_eq!(h.pop(), Some(5));
    assert_eq!(h.pop(), Some(4));
    assert_eq!(h.pop(), Some(3));
    assert_eq!(h.pop(), None);
    assert!(h.is_empty());
}
