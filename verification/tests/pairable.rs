use linestring2d::pairable::Pairable;

#[test]
fn test_pairable_on_single_item_for_loop() {
    let v = vec![1];
    for (_a, _b) in v.pairwise() {
        panic!("pairwise should not work on single item")
    }
}

#[test]
fn test_pairable_as_iter_on_single_item() {
    let v = vec![1];
    let j: Vec<(i32, i32)> = v.pairwise();
    assert_eq!(j.len(), 0);

    let v = vec![1, 2];
    let j: Vec<(i32, i32)> = v.pairwise();
    assert_eq!(j.len(), 1);
    assert_eq!(j, vec![(1, 2)]);
}

#[test]
fn test_pairable_on_longer_vector() {
    let v = vec![1, 2, 3, 4];
    let j: Vec<(i32, i32)> = v.pairwise();
    assert_eq!(j, vec![(1, 2), (2, 3), (3, 4)]);
}

#[test]
fn test_pairable_on_empty_vector() {
    let v: Vec<i32> = vec![];
    let j: Vec<(i32, i32)> = v.pairwise();
    assert_eq!(j.len(), 0);
}
