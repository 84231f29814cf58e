use kinship::error::{CapabilityError, ConfigError, FormatError, ProcessingError};
use kinship::geno::GenoParser;
use kinship::kinship::{calc_partial_kinship, merge_partial_kinship, mirror_and_scale_kinship};
use kinship::mapping::SnpMapper;
use kinship::pool::{pool_size, pool_size_from_probes, GPU_POOL_CAP};

fn mapper() -> SnpMapper {
    SnpMapper::new(vec![('A', 1), ('B', 2), ('C', 4), ('D', 5), ('H', 0)]).unwrap()
}

fn parser_2_markers() -> GenoParser {
    let lines: Vec<String> = vec![
        String::from("# a genotype panel"),
        String::from("marker\tm1\tm2"),
    ];
    GenoParser::new(&lines, mapper()).unwrap()
}

#[test]
fn kernel_closed_form_two_rows() {
    // Two rows [1, 2] and [4, 5] over D = 2: the unnormalized accumulator is
    // [[1*1+4*4, 1*2+4*5], [_, 2*2+5*5]] = [[17, 22], [_, 29]].
    let snps: Vec<i64> = vec![1, 2, 4, 5];
    let mut partial: Vec<i128> = vec![0; 4];
    calc_partial_kinship(&snps, &mut partial, 2);
    assert_eq!(partial, vec![17, 22, 0, 29]);
}

#[test]
fn kernel_adds_to_existing_cells() {
    let snps: Vec<i64> = vec![1, 2];
    let mut partial: Vec<i128> = vec![100, 200, 300, 400];
    calc_partial_kinship(&snps, &mut partial, 2);
    // Upper triangle gains the products; the lower cell is untouched.
    assert_eq!(partial, vec![101, 202, 300, 404]);
}

#[test]
fn merge_zeroes_partial_buffer() {
    let mut common: Vec<i128> = vec![1, 2, 3];
    let mut partial: Vec<i128> = vec![10, 20, 30];
    merge_partial_kinship(&mut common, &mut partial);
    assert_eq!(common, vec![11, 22, 33]);
    assert_eq!(partial, vec![0, 0, 0]);
}

#[test]
fn merge_order_does_not_matter() {
    let p1: Vec<i128> = vec![1, 5, -3, 2];
    let p2: Vec<i128> = vec![7, 0, 4, -1];
    let mut acc_a: Vec<i128> = vec![0, 0, 0, 0];
    let mut x = p1.clone();
    let mut y = p2.clone();
    merge_partial_kinship(&mut acc_a, &mut x);
    merge_partial_kinship(&mut acc_a, &mut y);
    let mut acc_b: Vec<i128> = vec![0, 0, 0, 0];
    let mut x2 = p2.clone();
    let mut y2 = p1.clone();
    merge_partial_kinship(&mut acc_b, &mut x2);
    merge_partial_kinship(&mut acc_b, &mut y2);
    assert_eq!(acc_a, acc_b);
}

#[test]
fn mirror_fills_lower_triangle() {
    let mut m: Vec<i128> = vec![17, 22, 0, 29];
    mirror_and_scale_kinship(&mut m, 2, 1);
    assert_eq!(m, vec![17, 22, 22, 29]);
}

#[test]
fn mirror_twice_equals_mirror_once() {
    let mut once: Vec<i128> = vec![3, -1, 0, 8, 0, 0, 5, 2, 7];
    mirror_and_scale_kinship(&mut once, 3, 1);
    let mut twice = once.clone();
    mirror_and_scale_kinship(&mut twice, 3, 1);
    assert_eq!(once, twice);
}

#[test]
fn mirror_scales_both_triangles() {
    let mut m: Vec<i128> = vec![1, 2, 0, 3];
    mirror_and_scale_kinship(&mut m, 2, 10);
    assert_eq!(m, vec![10, 20, 20, 30]);
}

#[test]
fn calc_kinship_closed_form() {
    // Rows [1, 2] ("AB") and [4, 5] ("CD").
    let parser = parser_2_markers();
    let data: Vec<String> = vec![String::from("r1\tAB"), String::from("r2\tCD")];
    let m = parser.calc_kinship(&data, 1).unwrap();
    assert_eq!(m.ids_num, 2);
    assert_eq!(m.total_rows, 2);
    assert_eq!(m.values, vec![17, 22, 22, 29]);
    // The matrix is symmetric after mirroring.
    assert_eq!(m.values[1 * 2 + 0], m.values[0 * 2 + 1]);
    // Normalizing by total_rows = 2 gives 17 / 2 = 8.5 in the (0, 0) cell.
    let normalized = m.values[0] as f64 / m.total_rows as f64;
    assert_eq!(normalized, 8.5);
}

#[test]
fn calc_kinship_batch_boundary_partial_batch() {
    // Five rows with batch_size = 2: the final batch holds exactly one row,
    // and no stale values from a previous batch may leak into the result.
    let parser = parser_2_markers();
    let data: Vec<String> = vec![
        String::from("r1\tAB"),
        String::from("r2\tCD"),
        String::from("r3\tAA"),
        String::from("r4\tBH"),
        String::from("r5\tHD"),
    ];
    // Rows: [1,2], [4,5], [1,1], [2,0], [0,5].
    // cell(0,0) = 1 + 16 + 1 + 4 + 0 = 22
    // cell(0,1) = 2 + 20 + 1 + 0 + 0 = 23
    // cell(1,1) = 4 + 25 + 1 + 0 + 25 = 55
    let expected: Vec<i128> = vec![22, 23, 23, 55];
    let m2 = parser.calc_kinship(&data, 2).unwrap();
    assert_eq!(m2.values, expected);
    assert_eq!(m2.total_rows, 5);
}

#[test]
fn calc_kinship_same_result_for_every_batch_size() {
    let parser = parser_2_markers();
    let data: Vec<String> = vec![
        String::from("r1\tAB"),
        String::from("r2\tCD"),
        String::from("r3\tAA"),
        String::from("r4\tBH"),
        String::from("r5\tHD"),
    ];
    let m1 = parser.calc_kinship(&data, 1).unwrap();
    let m3 = parser.calc_kinship(&data, 3).unwrap();
    let m7 = parser.calc_kinship(&data, 7).unwrap();
    assert_eq!(m1.values, m3.values);
    assert_eq!(m3.values, m7.values);
    assert_eq!(m1.total_rows, m7.total_rows);
}

#[test]
fn calc_kinship_rejects_zero_batch_size() {
    let parser = parser_2_markers();
    let data: Vec<String> = vec![String::from("r1\tAB"), String::from("r2\tCD")];
    let r = parser.calc_kinship(&data, 0);
    assert_eq!(r, Err(ProcessingError::Config(ConfigError::BatchSizeZero)));
}

#[test]
fn calc_kinship_rejects_too_few_rows() {
    let parser = parser_2_markers();
    let data: Vec<String> = vec![String::from("r1\tAB")];
    let r = parser.calc_kinship(&data, 2);
    assert_eq!(
        r,
        Err(ProcessingError::Config(ConfigError::NotEnoughRows { rows: 1, ids: 2 }))
    );
}

#[test]
fn calc_kinship_reports_unmapped_char_and_row() {
    let parser = parser_2_markers();
    let data: Vec<String> = vec![
        String::from("r1\tAB"),
        String::from("r2\tAZ"),
        String::from("r3\tCD"),
    ];
    let r = parser.calc_kinship(&data, 2);
    assert_eq!(
        r,
        Err(ProcessingError::Format { row: 1, error: FormatError::UnmappedChar { ch: 'Z' } })
    );
}

#[test]
fn calc_kinship_reports_length_mismatch() {
    let parser = parser_2_markers();
    let data: Vec<String> = vec![String::from("r1\tABC")];
    let r = parser.calc_kinship(&data, 4);
    assert_eq!(
        r,
        Err(ProcessingError::Format {
            row: 0,
            error: FormatError::LengthMismatch { expected: 2, found: 3 },
        })
    );
}

#[test]
fn calc_kinship_reports_missing_separator() {
    let parser = parser_2_markers();
    let data: Vec<String> = vec![String::from("r1 AB")];
    let r = parser.calc_kinship(&data, 1);
    assert_eq!(
        r,
        Err(ProcessingError::Format { row: 0, error: FormatError::MissingSeparator })
    );
}

#[test]
fn calc_kinship_rejects_header_without_markers() {
    let lines: Vec<String> = vec![String::from("marker")];
    let parser = GenoParser::new(&lines, mapper()).unwrap();
    let data: Vec<String> = vec![String::from("r1\tAB")];
    let r = parser.calc_kinship(&data, 1);
    assert_eq!(
        r,
        Err(ProcessingError::Format { row: 0, error: FormatError::MalformedHeader })
    );
}

#[test]
fn pool_size_gates_on_missing_library() {
    let r = pool_size_from_probes(true, false, true, true, 4);
    assert_eq!(
        r,
        Err(ProcessingError::Capability(CapabilityError::LibraryMissing))
    );
    let r2 = pool_size_from_probes(true, true, false, true, 4);
    assert_eq!(
        r2,
        Err(ProcessingError::Capability(CapabilityError::LibraryMissing))
    );
}

#[test]
fn pool_size_gates_on_missing_device() {
    let r = pool_size_from_probes(true, true, true, false, 4);
    assert_eq!(r, Err(ProcessingError::Capability(CapabilityError::NoDevice)));
}

#[test]
fn pool_size_caps_accelerator_contexts() {
    assert_eq!(pool_size_from_probes(true, true, true, true, 32), Ok(GPU_POOL_CAP));
    assert_eq!(pool_size_from_probes(true, true, true, true, 4), Ok(4));
}

#[test]
fn pool_size_without_accelerator_uses_every_cpu() {
    assert_eq!(pool_size_from_probes(false, false, false, false, 6), Ok(6));
    let n = pool_size(false, false).unwrap();
    assert!(n >= 1);
}

#[test]
fn pool_size_with_accelerator_and_no_device_errs() {
    let r = pool_size(true, false);
    assert!(matches!(r, Err(ProcessingError::Capability(_))));
}

#[test]
fn mapper_rejects_out_of_range_value() {
    let big: i64 = 1_048_577;
    match SnpMapper::new(vec![('A', 0), ('B', big)]) {
        Ok(_) => panic!("a value beyond the dosage range must be rejected"),
        Err(e) => assert_eq!(
            e,
            ProcessingError::Config(ConfigError::ValueOutOfRange { ch: 'B', value: big })
        ),
    }
}
