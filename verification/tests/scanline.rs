use png_rgba::error::DecodeError;
use png_rgba::scanline::{lookup, paeth_predictor, predict, reconstruct};

#[test]
fn sub_filter_wraps_around() {
    let out = reconstruct(&[1, 250, 10], 1, 2, 1).unwrap();
    assert_eq!(out, vec![250, 4]);
}

#[test]
fn paeth_picks_the_nearest() {
    assert_eq!(paeth_predictor(10, 20, 5), 20);
    assert_eq!(paeth_predictor(20, 10, 5), 20);
    assert_eq!(paeth_predictor(100, 100, 50), 100);
    assert_eq!(paeth_predictor(50, 60, 200), 50);
    assert_eq!(paeth_predictor(10, 20, 15), 15);
}

#[test]
fn paeth_ties_go_left_then_up() {
    // p = 1: left and up-left are both 1 away, up is 2 away.
    assert_eq!(paeth_predictor(0, 3, 2), 0);
    // p = 1: up and up-left are both 1 away, left is 2 away.
    assert_eq!(paeth_predictor(3, 0, 2), 0);
    // p = 4: up-left is 0 away and wins over left and up, both 1 away.
    assert_eq!(paeth_predictor(3, 5, 4), 4);
    assert_eq!(paeth_predictor(5, 3, 4), 4);
    // all three equally near
    assert_eq!(paeth_predictor(7, 7, 7), 7);
    assert_eq!(paeth_predictor(0, 0, 0), 0);
    // p = 8: left and up are 2 away, up-left is 4 away
    assert_eq!(paeth_predictor(6, 6, 4), 6);
    // p = 255: left is 255 away, up is 0 away
    assert_eq!(paeth_predictor(0, 255, 0), 255);
}

#[test]
fn paeth_takes_any_integers() {
    assert_eq!(paeth_predictor(i32::MAX, i32::MAX, i32::MIN), i32::MAX);
    assert_eq!(paeth_predictor(i32::MIN, i32::MIN, i32::MAX), i32::MIN);
    assert_eq!(paeth_predictor(-5, 5, 0), 0);
    assert_eq!(paeth_predictor(-5, -7, 0), -7);
}

#[test]
fn prediction_of_each_filter() {
    assert_eq!(predict(0, 11, 22, 33), 0);
    assert_eq!(predict(1, 11, 22, 33), 11);
    assert_eq!(predict(2, 11, 22, 33), 22);
    assert_eq!(predict(3, 11, 22, 33), 16);
    assert_eq!(predict(3, 255, 255, 0), 255);
    assert_eq!(predict(3, 255, 254, 0), 254);
    assert_eq!(predict(3, 0, 1, 0), 0);
    assert_eq!(predict(4, 10, 20, 5), 20);
    assert_eq!(predict(4, 0, 3, 2), 0);
    assert_eq!(predict(9, 11, 22, 33), 0);
}

#[test]
fn lookup_outside_is_zero() {
    let v: [u8; 6] = [9, 8, 7, 6, 5, 4];
    assert_eq!(lookup(&v, 1, 3, -1, 0, 0), 0);
    assert_eq!(lookup(&v, 1, 3, 0, -1, 0), 0);
    assert_eq!(lookup(&v, 1, 3, -1, -1, 0), 0);
    assert_eq!(lookup(&v, 3, 1, -1, 1, 2), 0);
    assert_eq!(lookup(&[], 4, 100, -1, 50, 3), 0);
    assert_eq!(lookup(&[], 4, 100, 50, -1, 3), 0);
}

#[test]
fn lookup_without_channels_reads_by_component() {
    assert_eq!(lookup(&[5, 6], 0, 3, 7, 9, 1), 6);
    assert_eq!(lookup(&[5, 6], 0, 3, -1, 9, 1), 0);
}

#[test]
fn lookup_is_row_major() {
    let v: [u8; 12] = [0, 1, 2, 3, 4, 5, 6, 7, 8, 9, 10, 11];
    assert_eq!(lookup(&v, 1, 4, 0, 0, 0), 0);
    assert_eq!(lookup(&v, 1, 4, 3, 2, 0), 11);
    assert_eq!(lookup(&v, 1, 4, 1, 1, 0), 5);
    assert_eq!(lookup(&v, 2, 3, 1, 1, 1), 9);
    assert_eq!(lookup(&v, 3, 2, 1, 0, 2), 5);
    assert_eq!(lookup(&v, 3, 2, 0, 1, 0), 6);
}

#[test]
fn sub_at_first_column_predicts_zero() {
    // Two rows under Sub: the first byte of each row is taken as it stands,
    // whatever the row above holds.
    let out = reconstruct(&[1, 200, 1, 1, 77, 1], 1, 2, 2).unwrap();
    assert_eq!(out, vec![200, 201, 77, 78]);
}

#[test]
fn up_at_first_row_predicts_zero() {
    let out = reconstruct(&[2, 5, 250, 2, 1, 10], 1, 2, 2).unwrap();
    assert_eq!(out, vec![5, 250, 6, 4]);
}

#[test]
fn none_filter_copies() {
    let out = reconstruct(&[0, 1, 2, 3, 0, 4, 5, 6], 3, 1, 2).unwrap();
    assert_eq!(out, vec![1, 2, 3, 4, 5, 6]);
}

#[test]
fn average_takes_the_floor_of_the_mean() {
    // row 0: raw 10, 21; row 1 under Average:
    //   x = 0: left 0, up 10 -> 5; 5 + 1 = 6
    //   x = 1: left 6, up 21 -> 13; 13 + 250 = 263 -> 7
    let out = reconstruct(&[0, 10, 21, 3, 1, 250], 1, 2, 2).unwrap();
    assert_eq!(out, vec![10, 21, 6, 7]);
}

#[test]
fn average_at_the_first_row_halves_the_left() {
    let out = reconstruct(&[3, 9, 1, 1], 1, 3, 1).unwrap();
    assert_eq!(out, vec![9, 5, 3]);
}

#[test]
fn paeth_row() {
    // row 0: raw 5, 20; row 1 under Paeth:
    //   x = 0: left 0, up 5, up-left 0 -> 5; 5 + 5 = 10
    //   x = 1: left 10, up 20, up-left 5 -> 20; 20 + 240 = 260 -> 4
    let out = reconstruct(&[0, 5, 20, 4, 5, 240], 1, 2, 2).unwrap();
    assert_eq!(out, vec![5, 20, 10, 4]);
}

#[test]
fn paeth_at_the_first_row_is_sub() {
    let out = reconstruct(&[4, 3, 4, 5], 1, 3, 1).unwrap();
    assert_eq!(out, vec![3, 7, 12]);
}

#[test]
fn neighbours_are_taken_channel_by_channel() {
    // two pixels of three channels under Sub
    let out = reconstruct(&[1, 10, 20, 30, 1, 2, 3], 3, 2, 1).unwrap();
    assert_eq!(out, vec![10, 20, 30, 11, 22, 33]);
    // two rows of one pixel of two channels under Up
    let out = reconstruct(&[0, 100, 200, 2, 100, 100], 2, 1, 2).unwrap();
    assert_eq!(out, vec![100, 200, 200, 44]);
}

#[test]
fn short_data_is_a_truncated_scanline() {
    assert_eq!(reconstruct(&[], 1, 1, 1).unwrap_err(), DecodeError::TruncatedScanline);
    assert_eq!(reconstruct(&[0], 1, 1, 1).unwrap_err(), DecodeError::TruncatedScanline);
    assert_eq!(
        reconstruct(&[0, 1, 2, 0, 3], 1, 2, 2).unwrap_err(),
        DecodeError::TruncatedScanline
    );
    // short data is reported before a filter type is looked at
    assert_eq!(reconstruct(&[9, 1, 2, 9, 3], 1, 2, 2).unwrap_err(), DecodeError::TruncatedScanline);
}

#[test]
fn geometry_beyond_the_address_space_is_a_truncated_scanline() {
    assert_eq!(
        reconstruct(&[0, 1, 2], usize::MAX, 2, 1).unwrap_err(),
        DecodeError::TruncatedScanline
    );
    assert_eq!(
        reconstruct(&[0, 1, 2], usize::MAX, 1, 1).unwrap_err(),
        DecodeError::TruncatedScanline
    );
    assert_eq!(
        reconstruct(&[0, 1, 2], 4, u32::MAX, u32::MAX).unwrap_err(),
        DecodeError::TruncatedScanline
    );
    assert_eq!(
        reconstruct(&[0, 1, 2], usize::MAX / 2, 2, 3).unwrap_err(),
        DecodeError::TruncatedScanline
    );
}

#[test]
fn filter_type_above_four_is_refused() {
    assert_eq!(
        reconstruct(&[5, 1], 1, 1, 1).unwrap_err(),
        DecodeError::InvalidFilterType { filter: 5 }
    );
    assert_eq!(
        reconstruct(&[0, 1, 255, 1], 1, 1, 2).unwrap_err(),
        DecodeError::InvalidFilterType { filter: 255 }
    );
    // the first offending row is the one that is named
    assert_eq!(
        reconstruct(&[0, 1, 7, 1, 9, 1], 1, 1, 3).unwrap_err(),
        DecodeError::InvalidFilterType { filter: 7 }
    );
}

#[test]
fn bytes_after_the_last_row_are_ignored() {
    let out = reconstruct(&[0, 1, 2, 99, 98, 97], 1, 2, 1).unwrap();
    assert_eq!(out, vec![1, 2]);
}

#[test]
fn no_rows_give_no_bytes() {
    assert_eq!(reconstruct(&[], 3, 5, 0).unwrap(), Vec::<u8>::new());
    assert_eq!(reconstruct(&[1, 2, 3], usize::MAX, u32::MAX, 0).unwrap(), Vec::<u8>::new());
}

#[test]
fn rows_without_samples_still_have_a_filter_type() {
    assert_eq!(reconstruct(&[0, 4], 0, 3, 2).unwrap(), Vec::<u8>::new());
    assert_eq!(reconstruct(&[0, 4], 3, 0, 2).unwrap(), Vec::<u8>::new());
    assert_eq!(reconstruct(&[0], 3, 0, 2).unwrap_err(), DecodeError::TruncatedScanline);
    assert_eq!(
        reconstruct(&[0, 6], 3, 0, 2).unwrap_err(),
        DecodeError::InvalidFilterType { filter: 6 }
    );
}

#[test]
fn all_filters_in_one_image() {
    // 3 columns, 1 channel, 5 rows: None, Sub, Up, Average, Paeth.
    let data: [u8; 20] = [
        0, 10, 20, 30, //
        1, 1, 1, 1, //
        2, 1, 1, 1, //
        3, 1, 1, 1, //
        4, 1, 1, 1,
    ];
    let out = reconstruct(&data, 1, 3, 5).unwrap();
    assert_eq!(
        out,
        vec![
            10, 20, 30, //
            1, 2, 3, //
            2, 3, 4, //
            2, 3, 4, // (0+2)/2+1, (2+3)/2+1, (3+4)/2+1
            3, 4, 5, // up 2, then paeth(3, 3, 2) = 3, paeth(4, 4, 3) = 4
        ]
    );
}
