use quiz_board::layout::{band_anchor, layout};

#[test]
fn anchors_match_hand_computed_values() {
    // (count - 0.35 - i) * (dim / count), in integers:
    // width 1422, 6 columns: (6 - 0.35) * 237 = 1339.05 -> 1339, and so on.
    assert_eq!(band_anchor(1422, 6, 0), 1339);
    assert_eq!(band_anchor(1422, 6, 1), 1102);
    assert_eq!(band_anchor(1422, 6, 5), 154);
    assert_eq!(band_anchor(800, 7, 0), 760);
    assert_eq!(band_anchor(800, 7, 6), 74);
}

#[test]
fn layout_fills_every_band() {
    let lo = layout(1422, 800, 6, 7);
    assert_eq!(lo.col_x, vec![1339, 1102, 865, 628, 391, 154]);
    assert_eq!(lo.row_y, vec![760, 645, 531, 417, 302, 188, 74]);
    assert_eq!(lo.title_x, 711);
    assert_eq!(lo.title_y, 760);
}

#[test]
fn anchors_strictly_decrease_and_stay_inside_the_window() {
    for n in 1..40u64 {
        let lo = layout(1422, 800, n, 1);
        assert_eq!(lo.col_x.len() as u64, n);
        for i in 0..(n as usize) {
            assert!(lo.col_x[i] <= 1422);
            if i + 1 < n as usize {
                assert!(lo.col_x[i + 1] < lo.col_x[i]);
            }
        }
    }
}

#[test]
fn single_band_anchor_sits_near_the_far_edge() {
    // One band: anchor at 0.65 * dim.
    assert_eq!(band_anchor(1000, 1, 0), 650);
    let lo = layout(1000, 1000, 1, 1);
    assert_eq!(lo.col_x, vec![650]);
    assert_eq!(lo.row_y, vec![650]);
}
