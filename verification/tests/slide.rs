use iterslide::{Slide, SlideIterator};

#[test]
fn test_slide() {
    // NB: Although the window is a VecDeque, we can still compare it to slices, since VecDeque
    // implements PartialEq for a ton of types
    let mut slide_iter = vec![1i8, 2, 3, 4, 5].slide(3);
    assert_eq!(slide_iter.next().unwrap(), &[1, 2, 3]);
    assert_eq!(slide_iter.next().unwrap(), &[2, 3, 4]);
    assert_eq!(slide_iter.next().unwrap(), &[3, 4, 5]);
    assert!(slide_iter.next().is_none());
}

#[test]
fn test_slide_equal_window() {
    let mut slide_iter = vec![1i8, 2, 3, 4, 5].slide(5);
    assert_eq!(slide_iter.next().unwrap(), &[1, 2, 3, 4, 5]);
    assert!(slide_iter.next().is_none());
}

#[test]
fn test_slide_zero_window() {
    let mut slide_iter = vec![1i8, 2, 3, 4, 5].slide(0);
    assert!(slide_iter.next().is_none());
}

#[test]
fn test_slide_overlong_window() {
    let mut slide_iter = vec![1i8, 2, 3, 4, 5].slide(7);
    assert!(slide_iter.next().is_none());
}

#[test]
fn test_slide_empty_source() {
    let mut slide_iter = Vec::<i8>::new().slide(1);
    assert!(slide_iter.next().is_none());
}

#[test]
fn test_slide_single_element() {
    let mut slide_iter = vec![1i8].slide(1);
    assert_eq!(slide_iter.next().unwrap(), &[1]);
    assert!(slide_iter.next().is_none());
}

#[test]
fn test_window_count_matches_formula() {
    // L = 6, n = 2: exactly L - n + 1 = 5 windows.
    let mut slide_iter = vec![10u32, 20, 30, 40, 50, 60].slide(2);
    let mut count = 0usize;
    while let Some(window) = slide_iter.next() {
        assert_eq!(window.len(), 2);
        count += 1;
    }
    assert_eq!(count, 5);
}

#[test]
fn test_exhaustion_is_permanent() {
    let mut slide_iter = vec![1i8, 2, 3].slide(2);
    assert_eq!(slide_iter.next().unwrap(), &[1, 2]);
    assert_eq!(slide_iter.next().unwrap(), &[2, 3]);
    for _ in 0..5 {
        assert!(slide_iter.next().is_none());
    }
}

#[test]
fn test_zero_window_stays_exhausted() {
    let mut slide_iter = vec![1i8, 2, 3].slide(0);
    for _ in 0..5 {
        assert!(slide_iter.next().is_none());
    }
}

#[test]
fn test_windows_are_independent_copies() {
    let mut slide_iter = vec![1i8, 2, 3, 4].slide(2);
    let mut first = slide_iter.next().unwrap();
    // Mutating a returned window must not disturb later production...
    first.push_back(99);
    first[0] = -1;
    assert_eq!(slide_iter.next().unwrap(), &[2, 3]);
    // ...and later production must not disturb a previously returned window.
    assert_eq!(first, &[-1, 2, 99]);
    assert_eq!(slide_iter.next().unwrap(), &[3, 4]);
}

#[test]
fn test_push_window_pulls_single_elements() {
    let mut adapter = Slide::new(vec![7u8, 8], 5);
    assert!(adapter.push_window());
    assert!(adapter.push_window());
    assert!(!adapter.push_window());
    assert!(!adapter.push_window());
}

#[test]
fn test_new_matches_slide() {
    let mut adapter = Slide::new(vec![4i64, 5, 6], 2);
    assert_eq!(adapter.next().unwrap(), &[4, 5]);
    assert_eq!(adapter.next().unwrap(), &[5, 6]);
    assert!(adapter.next().is_none());
}
