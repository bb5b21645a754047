use melba_stt::ieee::{last_greatest, rank_of, Double};

fn doubles() -> Vec<f64> {
    vec![
        0.0, -0.0, 1.0, -1.0, 0.6, 2.4, -1.5, f64::MIN_POSITIVE, 5e-324, -5e-324, f64::MAX, f64::MIN,
        f64::INFINITY, f64::NEG_INFINITY, f64::NAN, -f64::NAN, 0.1 + 0.2, 0.3,
    ]
}

#[test]
fn doubles_compare_as_floats_do() {
    for a in doubles() {
        for b in doubles() {
            let x = Double { bits: a.to_bits() };
            let y = Double { bits: b.to_bits() };
            assert_eq!(x.gt(&y), a > b, "{a} > {b}");
        }
    }
}

fn singles() -> Vec<f32> {
    vec![
        0.0, -0.0, 1.0, -1.0, f32::MIN_POSITIVE, 1e-45, -1e-45, f32::MAX, f32::MIN, f32::INFINITY,
        f32::NEG_INFINITY, f32::NAN, -f32::NAN,
    ]
}

#[test]
fn ranks_follow_the_total_order() {
    for a in singles() {
        for b in singles() {
            let ranks = rank_of(a.to_bits()).cmp(&rank_of(b.to_bits()));
            assert_eq!(ranks, a.total_cmp(&b), "{a} {b}");
        }
    }
}

#[test]
fn the_last_of_the_greatest_is_found() {
    let lists: Vec<Vec<f32>> = vec![
        vec![],
        vec![3.5],
        vec![1.0, 3.0, 2.0],
        vec![2.0, 3.0, 3.0, 1.0],
        vec![f32::NEG_INFINITY, f32::NEG_INFINITY],
        vec![0.0, -0.0],
        vec![-0.0, 0.0],
        vec![1.0, f32::NAN, f32::INFINITY],
        singles(),
    ];
    for list in lists {
        let expected = list
            .iter()
            .enumerate()
            .max_by(|(_, u), (_, v)| u.total_cmp(v))
            .map(|(i, _)| i);
        let bits: Vec<u32> = list.iter().map(|v| v.to_bits()).collect();
        assert_eq!(last_greatest(&bits), expected);
    }
}
