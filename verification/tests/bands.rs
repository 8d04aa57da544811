use mandelbrot::bands::{
    checked_rows_per_band, rows_per_band, rows_per_band_for_machine, split_bands, Band,
};

fn band(top: usize, height: usize) -> Band {
    Band { top, height }
}

#[test]
fn height_a_multiple_of_the_band() {
    assert_eq!(split_bands(2, 6), vec![band(0, 2), band(2, 2), band(4, 2)]);
}

#[test]
fn last_band_takes_the_rest() {
    assert_eq!(split_bands(3, 7), vec![band(0, 3), band(3, 3), band(6, 1)]);
    assert_eq!(split_bands(4, 7), vec![band(0, 4), band(4, 3)]);
}

#[test]
fn one_row_per_band() {
    let bands = split_bands(1, 5);
    assert_eq!(bands.len(), 5);
    for (index, b) in bands.iter().enumerate() {
        assert_eq!(*b, band(index, 1));
    }
}

#[test]
fn a_band_as_high_as_the_picture_or_higher() {
    assert_eq!(split_bands(5, 5), vec![band(0, 5)]);
    assert_eq!(split_bands(6, 5), vec![band(0, 5)]);
    assert_eq!(split_bands(usize::MAX, 5), vec![band(0, 5)]);
    assert_eq!(split_bands(usize::MAX, usize::MAX), vec![band(0, usize::MAX)]);
}

#[test]
fn a_large_picture_near_the_machine_limit() {
    let bands = split_bands(usize::MAX - 1, usize::MAX);
    assert_eq!(bands, vec![band(0, usize::MAX - 1), band(usize::MAX - 1, 1)]);
}

#[test]
fn an_empty_picture_has_no_bands() {
    assert_eq!(split_bands(3, 0), vec![]);
}

#[test]
fn bands_follow_one_another_and_fill_the_picture() {
    for height in 0..40usize {
        for rows in 1..45usize {
            let bands = split_bands(rows, height);
            assert_eq!(bands.len(), (height + rows - 1) / rows);
            let mut next = 0;
            for (index, b) in bands.iter().enumerate() {
                assert_eq!(b.top, next);
                assert_eq!(b.top, index * rows);
                assert!(b.height >= 1 && b.height <= rows);
                if index + 1 < bands.len() {
                    assert_eq!(b.height, rows);
                }
                next = b.top + b.height;
            }
            assert_eq!(next, height);
        }
    }
}

#[test]
fn every_row_lies_in_the_band_of_its_quotient() {
    for height in 1..30usize {
        for rows in 1..35usize {
            let bands = split_bands(rows, height);
            for row in 0..height {
                let home = bands[row / rows];
                assert!(home.top <= row && row < home.top + home.height);
                let holders = bands.iter().filter(|b| b.top <= row && row < b.top + b.height);
                assert_eq!(holders.count(), 1);
            }
        }
    }
}

#[test]
fn a_band_is_a_chunk_of_whole_rows() {
    let (width, height, rows) = (5usize, 11usize, 4usize);
    let buffer = vec![0u8; width * height * 3];
    let bands = split_bands(rows, height);
    let chunks: Vec<&[u8]> = buffer.chunks(rows * width * 3).collect();
    assert_eq!(chunks.len(), bands.len());
    for (index, (chunk, b)) in chunks.iter().zip(bands.iter()).enumerate() {
        assert_eq!(b.top, rows * index);
        assert_eq!(b.height, chunk.len() / (width * 3));
        assert_eq!(b.byte_len(width), chunk.len());
    }
}

#[test]
fn band_corners_and_bounds() {
    let b = band(6, 3);
    assert_eq!(b.bounds(10), (10, 3));
    assert_eq!(b.upper_left_pixel(), (0, 6));
    assert_eq!(b.lower_right_pixel(10), (10, 9));
    assert_eq!(b.byte_len(10), 90);
}

#[test]
fn a_single_band_has_the_corners_of_the_picture() {
    let bands = split_bands(100, 100);
    assert_eq!(bands.len(), 1);
    assert_eq!(bands[0].upper_left_pixel(), (0, 0));
    assert_eq!(bands[0].lower_right_pixel(80), (80, 100));
    assert_eq!(bands[0].bounds(80), (80, 100));
}

#[test]
fn rows_per_band_for_workers() {
    assert_eq!(rows_per_band(750, 8), 94);
    assert_eq!(rows_per_band(750, 1), 751);
    assert_eq!(rows_per_band(7, 8), 1);
    assert_eq!(rows_per_band(0, 4), 1);
    assert_eq!(rows_per_band(100, 100), 2);
    assert_eq!(rows_per_band(usize::MAX, 2), usize::MAX / 2 + 1);
}

#[test]
fn no_more_bands_than_workers() {
    for height in 0..60usize {
        for workers in 1..20usize {
            let rows = rows_per_band(height, workers);
            assert!(split_bands(rows, height).len() <= workers);
        }
    }
}

#[test]
fn rows_per_band_on_this_machine() {
    let workers = num_cpus::get();
    assert!(workers >= 1);
    for height in [0usize, 1, 7, 750, 1_000_000] {
        let rows = rows_per_band_for_machine(height);
        assert_eq!(rows, Some(height / workers + 1));
        assert_eq!(rows, Some(rows_per_band(height, workers)));
    }
    if workers > 1 {
        assert_eq!(rows_per_band_for_machine(usize::MAX), Some(usize::MAX / workers + 1));
    } else {
        assert_eq!(rows_per_band_for_machine(usize::MAX), None);
    }
}

#[test]
fn checked_rows_per_band_for_any_workers() {
    assert_eq!(checked_rows_per_band(750, 8), Some(94));
    assert_eq!(checked_rows_per_band(750, 1), Some(751));
    assert_eq!(checked_rows_per_band(0, 4), Some(1));
    assert_eq!(checked_rows_per_band(7, usize::MAX), Some(1));
    assert_eq!(checked_rows_per_band(usize::MAX - 1, 1), Some(usize::MAX));
    assert_eq!(checked_rows_per_band(usize::MAX, 2), Some(usize::MAX / 2 + 1));
}

#[test]
fn checked_rows_per_band_without_an_answer() {
    assert_eq!(checked_rows_per_band(750, 0), None);
    assert_eq!(checked_rows_per_band(0, 0), None);
    assert_eq!(checked_rows_per_band(usize::MAX, 0), None);
    assert_eq!(checked_rows_per_band(usize::MAX, 1), None);
}

#[test]
fn rows_on_this_machine_follow_the_checked_rule() {
    let workers = num_cpus::get();
    for height in [0usize, 3, 4096, usize::MAX - 1, usize::MAX] {
        assert_eq!(rows_per_band_for_machine(height), checked_rows_per_band(height, workers));
    }
}
