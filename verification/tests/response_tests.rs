use skrapy::response::flatten_selections;

#[test]
fn flatten_selections_keeps_order() {
    let lists = vec![vec![1, 2], vec![], vec![3], vec![4, 5]];
    assert_eq!(flatten_selections(lists), vec![1, 2, 3, 4, 5]);
    assert_eq!(flatten_selections::<u8>(Vec::new()), Vec::<u8>::new());
}
