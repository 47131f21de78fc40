use frenderer::concat_layers;

#[test]
fn equal_sized_layers_pack_densely_in_order() {
    let layers = vec![vec![1u8, 2, 3, 4], vec![5, 6, 7, 8], vec![9, 10, 11, 12]];
    let staged = concat_layers(&layers);
    assert_eq!(staged, Some(vec![1, 2, 3, 4, 5, 6, 7, 8, 9, 10, 11, 12]));
}

#[test]
fn a_layer_of_different_size_is_rejected() {
    let layers = vec![vec![1u8, 2, 3, 4], vec![5, 6, 7]];
    assert_eq!(concat_layers(&layers), None);
    let layers = vec![vec![1u8, 2], vec![3, 4], vec![5]];
    assert_eq!(concat_layers(&layers), None);
}

#[test]
fn single_and_empty_layer_lists() {
    let one = vec![vec![7u8, 8]];
    assert_eq!(concat_layers(&one), Some(vec![7, 8]));
    let none: Vec<Vec<u8>> = Vec::new();
    assert_eq!(concat_layers(&none), Some(Vec::new()));
    let empties = vec![Vec::new(), Vec::new()];
    assert_eq!(concat_layers(&empties), Some(Vec::new()));
}
