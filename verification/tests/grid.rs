use l3bin::errors::ConfigError;
use l3bin::errors::IsinError;
use l3bin::grid::GridTable;
use l3bin::satellites::Satellite;

/// The bin count of each row of an ISIN grid with `num_rows` latitude rows:
/// the round-half-up of the ideal equal-area column count, proportional to
/// the cosine of the row's center latitude.
fn isin_bin_counts(num_rows: usize) -> Vec<usize> {
    let mut counts: Vec<usize> = Vec::with_capacity(num_rows);
    for row in 0..num_rows {
        let lat = ((row as f64 + 0.5) * 180.0 / num_rows as f64) - 90.0;
        let cos_lat = f64::cos(lat * std::f64::consts::PI / 180.0);
        counts.push((2.0 * num_rows as f64 * cos_lat + 0.5) as usize);
    }
    counts
}

fn modis_table() -> GridTable {
    let num_rows = Satellite::Modis.num_latitude_rows();
    GridTable::build(isin_bin_counts(num_rows)).unwrap()
}

#[test]
fn test_modis_total_bins() {
    let table = modis_table();
    assert_eq!(table.num_rows(), 4320);
    assert_eq!(table.total_bins(), 23761676);
}

#[test]
fn test_build_no_rows() {
    assert_eq!(GridTable::build(Vec::new()).unwrap_err(), ConfigError::NoRows);
}

#[test]
fn test_build_empty_row() {
    assert_eq!(
        GridTable::build(vec![3, 0, 3]).unwrap_err(),
        ConfigError::EmptyRow
    );
}

#[test]
fn test_build_too_many_bins() {
    assert_eq!(
        GridTable::build(vec![usize::MAX, 2]).unwrap_err(),
        ConfigError::TooManyBins
    );
}

#[test]
fn test_row_partition() {
    let table = GridTable::build(isin_bin_counts(360)).unwrap();
    let num_rows = table.num_rows();
    assert_eq!(num_rows, 360);
    assert_eq!(table.base_bin(0), 1);
    let mut sum: usize = 0;
    for row in 0..num_rows {
        assert!(table.bin_count(row) >= 1);
        if row + 1 < num_rows {
            // contiguous and strictly increasing: each row starts right
            // after the previous one
            assert_eq!(
                table.base_bin(row) + table.bin_count(row),
                table.base_bin(row + 1)
            );
            assert!(table.base_bin(row) < table.base_bin(row + 1));
        }
        sum += table.bin_count(row);
    }
    assert_eq!(
        table.base_bin(num_rows - 1) + table.bin_count(num_rows - 1) - 1,
        table.total_bins()
    );
    assert_eq!(sum, table.total_bins());
}

#[test]
fn test_bin_boundary_rejection() {
    let table = modis_table();
    let max_bin = table.total_bins();
    assert_eq!(
        table.row_of_bin(0),
        Err(IsinError::InvalidBinRange { max_bin })
    );
    assert_eq!(
        table.row_of_bin(max_bin + 1),
        Err(IsinError::InvalidBinRange { max_bin })
    );
    assert!(table.row_of_bin(1).is_ok());
    assert!(table.row_of_bin(max_bin).is_ok());
    // one bad id rejects the whole batch; nothing partial comes back
    assert_eq!(
        table.locate_bins(&[5, max_bin + 1, 7]),
        Err(IsinError::InvalidBinRange { max_bin })
    );
    assert_eq!(
        table.validate_bins(&[0]),
        Err(IsinError::InvalidBinRange { max_bin })
    );
    assert_eq!(table.validate_bins(&[1, max_bin]), Ok(()));
}

#[test]
fn test_row_of_bin_matches_linear_scan() {
    let table = GridTable::build(isin_bin_counts(72)).unwrap();
    for bin in 1..=table.total_bins() {
        let row = table.row_of_bin(bin).unwrap();
        let mut expected: Option<usize> = None;
        for r in 0..table.num_rows() {
            let base = table.base_bin(r);
            if base <= bin && bin < base + table.bin_count(r) {
                expected = Some(r);
            }
        }
        assert_eq!(Some(row), expected);
    }
}

#[test]
fn test_row_of_bin_first_and_last() {
    let table = modis_table();
    assert_eq!(table.row_of_bin(1).unwrap(), 0);
    assert_eq!(table.row_of_bin(table.total_bins()).unwrap(), 4319);
    let base = table.base_bin(2160);
    assert_eq!(table.row_of_bin(base).unwrap(), 2160);
    assert_eq!(table.row_of_bin(base - 1).unwrap(), 2159);
}

#[test]
fn test_cell_bin_round_trip() {
    let table = GridTable::build(isin_bin_counts(18)).unwrap();
    for row in 0..table.num_rows() {
        for col in 0..table.bin_count(row) {
            let bin = table.bin_at(row, col);
            assert_eq!(bin, table.base_bin(row) + col);
            let cells = table.locate_bins(&[bin]).unwrap();
            assert_eq!(cells, vec![(row, col)]);
        }
    }
}

#[test]
fn test_bin_at_clamps_column() {
    let table = modis_table();
    let row = 1488;
    let count = table.bin_count(row);
    let last = table.base_bin(row) + count - 1;
    assert_eq!(table.bin_at(row, count - 1), last);
    assert_eq!(table.bin_at(row, count), last);
    assert_eq!(table.bin_at(row, usize::MAX), last);
}

#[test]
fn test_locate_bins_deterministic() {
    let table = modis_table();
    let bins = vec![1, 6308931, 23761676];
    let first = table.locate_bins(&bins).unwrap();
    let second = table.locate_bins(&bins).unwrap();
    assert_eq!(first, second);
}

#[test]
fn test_bin_center_regression() {
    // Bin centers of the Modis grid: latitude is the row's center latitude,
    // longitude the column's center within the row.
    let table = modis_table();
    let bins: Vec<usize> = vec![6308931, 8842288, 1468146];
    let expected: Vec<(f64, f64)> = vec![
        (94.38794233289644, -27.979166666666664),
        (-48.701065485454336, -14.8125),
        (128.35497835497836, -61.22916666666667),
    ];
    let cells = table.locate_bins(&bins).unwrap();
    for (&(row, col), &(exp_lon, exp_lat)) in cells.iter().zip(expected.iter()) {
        let lat = ((row as f64 + 0.5) * 180.0 / 4320.0) - 90.0;
        let lon = 360.0 * (col as f64 + 0.5) / table.bin_count(row) as f64 - 180.0;
        assert!(
            (lat - exp_lat).abs() < 1e-6,
            "latitude {} != {}",
            lat,
            exp_lat
        );
        assert!(
            (lon - exp_lon).abs() < 1e-6,
            "longitude {} != {}",
            lon,
            exp_lon
        );
    }
}
