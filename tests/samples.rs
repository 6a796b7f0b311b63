use lala_bar::samples::{Matrix, MatrixFixed};

fn window(m: &MatrixFixed<i32>, c: usize) -> Vec<i32> {
    m.data()[c].iter().copied().collect()
}

#[test]
fn new_windows_are_filled() {
    let m = MatrixFixed::new(3, 2, 0);
    assert_eq!(m.channel(), 2);
    assert_eq!(m.len(), 3);
    assert_eq!(window(&m, 0), vec![0, 0, 0]);
    assert_eq!(window(&m, 1), vec![0, 0, 0]);
}

#[test]
fn append_keeps_the_newest_samples() {
    let mut m = MatrixFixed::new(3, 2, 0);
    m.append(&Matrix::init(vec![vec![1, 2], vec![10, 20]]));
    assert_eq!(window(&m, 0), vec![0, 1, 2]);
    assert_eq!(window(&m, 1), vec![0, 10, 20]);
    m.append(&Matrix::init(vec![vec![3, 4, 5, 6], vec![30, 40, 50, 60]]));
    assert_eq!(window(&m, 0), vec![4, 5, 6]);
    assert_eq!(window(&m, 1), vec![40, 50, 60]);
    assert_eq!(m.len(), 3);
}

#[test]
fn append_stops_at_the_shortest_channel() {
    let mut m = MatrixFixed::new(2, 2, 0);
    let block = Matrix::init(vec![vec![1, 2, 3], vec![7]]);
    assert_eq!(block.channel(), 2);
    assert_eq!(block.frame_count(), 1);
    m.append(&block);
    assert_eq!(window(&m, 0), vec![0, 1]);
    assert_eq!(window(&m, 1), vec![0, 7]);
}

#[test]
fn no_channels_is_a_no_op() {
    let mut m: MatrixFixed<i32> = MatrixFixed::new(4, 0, 0);
    m.append(&Matrix::init(vec![]));
    assert_eq!(m.channel(), 0);
    assert_eq!(m.len(), 4);
}
