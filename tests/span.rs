use scuffed::span::Span;

#[test]
fn span_concat_and_slice() {
    let a = Span::from_vec(vec![1, 2, 3]);
    let b = Span::from_vec(vec![4, 5]);
    let c = a.concat(&b);
    assert_eq!(c.len(), 5);
    assert_eq!(c.to_vec(), vec![1, 2, 3, 4, 5]);
    assert_eq!(c.chunks().len(), 2);
    assert_eq!(c.slice(2, 4).to_vec(), vec![3, 4]);
    assert!(Span::new().is_empty());
    assert!(!c.is_empty());
}

#[test]
fn span_slice_empty_range() {
    let a = Span::from_vec(vec![9, 8, 7]);
    assert!(a.slice(1, 1).is_empty());
}

#[test]
fn span_slice_across_chunks_shares_inner_chunks() {
    let s = Span::from_vec(vec![1, 2, 3]).concat(&Span::from_vec(vec![4, 5])).concat(&Span::from_vec(vec![6, 7, 8]));
    let mid = s.slice(2, 7);
    assert_eq!(mid.to_vec(), vec![3, 4, 5, 6, 7]);
    assert_eq!(mid.chunks().len(), 3);
    assert!(std::sync::Arc::ptr_eq(&mid.chunks()[1], &s.chunks()[1]));
    assert_eq!(s.slice(3, 5).to_vec(), vec![4, 5]);
    assert_eq!(s.slice(0, 8).to_vec(), (1..=8).collect::<Vec<u8>>());
    assert!(s.slice(8, 8).is_empty());
}
