use bench_suite::matrix::{copy_band, row_band, rows_per_worker, worker_count};

#[test]
fn worker_count_is_at_least_one() {
    assert_eq!(worker_count(0), 1);
    assert_eq!(worker_count(1), 1);
    assert_eq!(worker_count(4), 4);
}

#[test]
fn rows_per_worker_rounds_up() {
    assert_eq!(rows_per_worker(256, 4), 64);
    assert_eq!(rows_per_worker(5, 4), 2);
    assert_eq!(rows_per_worker(0, 3), 0);
    assert_eq!(rows_per_worker(7, 1), 7);
    assert_eq!(rows_per_worker(3, 8), 1);
    assert_eq!(rows_per_worker(usize::MAX, 2), usize::MAX / 2 + 1);
}

#[test]
fn row_band_of_even_split() {
    assert_eq!(row_band(0, 4, 256), (0, 64));
    assert_eq!(row_band(1, 4, 256), (64, 128));
    assert_eq!(row_band(3, 4, 256), (192, 256));
}

#[test]
fn row_band_cuts_the_last_band_and_leaves_late_workers_idle() {
    assert_eq!(row_band(0, 4, 5), (0, 2));
    assert_eq!(row_band(1, 4, 5), (2, 4));
    assert_eq!(row_band(2, 4, 5), (4, 5));
    // Start past the end: an empty range.
    assert_eq!(row_band(3, 4, 5), (6, 5));
}

#[test]
fn row_bands_tile_the_rows() {
    for n in 0..40usize {
        for workers in 1..9usize {
            let mut owner = vec![0usize; n];
            for w in 0..workers {
                let (start, end) = row_band(w, workers, n);
                for row in start..end {
                    owner[row] += 1;
                }
            }
            assert!(owner.iter().all(|&c| c == 1));
        }
    }
}

#[test]
fn copy_band_takes_the_rows_of_the_band() {
    let mut shared = vec![vec![0.0f64; 3]; 4];
    let local: Vec<Vec<f64>> = (0..4)
        .map(|i| (0..3).map(|j| (i * 10 + j) as f64).collect())
        .collect();
    copy_band(&mut shared, &local, 1, 3, 3);
    assert_eq!(shared[0], vec![0.0, 0.0, 0.0]);
    assert_eq!(shared[1], vec![10.0, 11.0, 12.0]);
    assert_eq!(shared[2], vec![20.0, 21.0, 22.0]);
    assert_eq!(shared[3], vec![0.0, 0.0, 0.0]);
}

#[test]
fn copy_band_of_an_empty_range_changes_nothing() {
    let mut shared = vec![vec![1u8; 2]; 5];
    let local = vec![vec![9u8; 2]; 5];
    copy_band(&mut shared, &local, 6, 5, 2);
    assert_eq!(shared, vec![vec![1u8; 2]; 5]);
    copy_band(&mut shared, &local, 2, 2, 2);
    assert_eq!(shared, vec![vec![1u8; 2]; 5]);
}

#[test]
fn copy_band_copies_the_leading_columns_only() {
    let mut shared = vec![vec![1u8; 4]; 2];
    let local = vec![vec![9u8; 4]; 2];
    copy_band(&mut shared, &local, 0, 1, 3);
    assert_eq!(shared[0], vec![9, 9, 9, 1]);
    assert_eq!(shared[1], vec![1, 1, 1, 1]);
}

#[test]
fn merging_every_band_fills_the_result() {
    let n = 7;
    let workers = 3;
    let mut shared = vec![vec![0usize; n]; n];
    for w in 0..workers {
        // Each worker holds its own rows only.
        let (start, end) = row_band(w, workers, n);
        let mut local = vec![vec![0usize; n]; n];
        for i in start..end {
            for j in 0..n {
                local[i][j] = i * n + j + 1;
            }
        }
        copy_band(&mut shared, &local, start, end, n);
    }
    for i in 0..n {
        for j in 0..n {
            assert_eq!(shared[i][j], i * n + j + 1);
        }
    }
}
