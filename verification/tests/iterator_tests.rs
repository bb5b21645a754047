use melba_stt::nn::iterator::{load_mel_filters, mel_shape, pad_and_cut, transpose, OverlappingWindows, PaddingIterator};

fn windows(items: &[u32], step: usize, size: usize) -> Vec<Vec<u32>> {
    let mut cutter = OverlappingWindows::new(step, size);
    items.iter().filter_map(|i| cutter.next(*i)).collect()
}

#[test]
fn windows_overlap() {
    let items: Vec<u32> = (0..7).collect();
    assert_eq!(windows(&items, 2, 3), vec![vec![0, 1, 2], vec![2, 3, 4], vec![4, 5, 6]]);
    assert_eq!(windows(&items, 3, 3), vec![vec![0, 1, 2], vec![3, 4, 5]]);
    assert_eq!(windows(&items, 1, 8), Vec::<Vec<u32>>::new());
    assert_eq!(windows(&items[..2], 0, 1), vec![vec![0], vec![0]]);
    assert_eq!(windows(&items[..2], 1, 0), vec![Vec::<u32>::new(), vec![]]);
}

#[test]
fn windows_are_counted() {
    let items: Vec<u32> = (0..100).collect();
    for size in 1..20usize {
        for step in 1..=size {
            for n in 0..60usize {
                let cut = windows(&items[..n], step, size);
                let expected = if n < size { 0 } else { (n - size) / step + 1 };
                assert_eq!(cut.len(), expected);
                for (k, window) in cut.iter().enumerate() {
                    assert_eq!(window[..], items[k * step..k * step + size]);
                }
            }
        }
    }
}

fn padded(items: &[u32], size: usize) -> Vec<u32> {
    let mut padding = PaddingIterator::new(size, 99);
    let mut found = items.iter().copied();
    let mut out = vec![];
    loop {
        match padding.next(found.next()) {
            Some(item) => out.push(item),
            None => return out,
        }
    }
}

#[test]
fn padding_stops_one_short_of_a_multiple() {
    assert_eq!(padded(&[], 4), vec![99, 99, 99]);
    assert_eq!(padded(&[1], 4), vec![1, 99, 99]);
    assert_eq!(padded(&[1, 2, 3], 4), vec![1, 2, 3]);
    assert_eq!(padded(&[1, 2, 3, 4], 4), vec![1, 2, 3, 4, 99, 99, 99]);
    assert_eq!(padded(&[1, 2], 1), vec![1, 2]);
}

#[test]
fn padded_samples_are_cut_into_full_pieces() {
    assert_eq!(pad_and_cut(&vec![1, 2, 3], 6, 2, 0), vec![vec![1, 2], vec![3, 0], vec![0, 0]]);
    assert_eq!(pad_and_cut(&vec![1, 2, 3], 4, 2, 0), vec![vec![1, 2], vec![3, 0]]);
    assert_eq!(pad_and_cut(&Vec::<u8>::new(), 1, 2, 0), Vec::<Vec<u8>>::new());
}

#[test]
fn rows_become_columns() {
    let data = vec![vec![1, 2, 3], vec![4, 5, 6]];
    assert_eq!(transpose(&data), vec![1, 4, 2, 5, 3, 6]);
    assert_eq!(transpose(&vec![vec![1], vec![4, 5]]), vec![1, 4]);
    assert_eq!(transpose(&vec![Vec::<u8>::new()]), Vec::<u8>::new());
}

#[test]
fn shapes_count_rows_of_bins() {
    assert_eq!(mel_shape(240_000, 80), (1, 80, 3000));
    assert_eq!(mel_shape(161, 80), (1, 80, 2));
}

#[test]
fn words_begin_with_their_lowest_byte() {
    assert_eq!(load_mel_filters(&vec![1, 2, 3, 4, 255, 255, 255, 255, 9]), vec![0x0403_0201, u32::MAX]);
}
