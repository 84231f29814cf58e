use kinship::error::{FormatError, ProcessingError};
use kinship::geno::{parse_comments, parse_geno, parse_markers, GenoParser};
use kinship::kinship::VAL_LIMIT;
use kinship::mapping::SnpMapper;
use kinship::{consume_comments2, consume_markers, fill_buffer, parse_into, parse_snp_rec, read_geno};

fn mapper() -> SnpMapper {
    SnpMapper::new(vec![('A', 0), ('H', 1), ('B', 2)]).unwrap()
}

fn panel() -> Vec<String> {
    vec![
        String::from("# first comment"),
        String::from("# second comment"),
        String::from("marker\t10\t12\t38"),
        String::from("rs1\tABH"),
        String::from("rs2\tHHB"),
    ]
}

#[test]
fn comments_are_collected_and_stripped() {
    let (comments, header_idx) = consume_comments2(&panel()).unwrap();
    assert_eq!(comments, vec![String::from(" first comment"), String::from(" second comment")]);
    assert_eq!(header_idx, 2);
}

#[test]
fn empty_input_is_a_format_error() {
    // A stream that ends before the header is even found is rejected, not
    // answered with an empty matrix.
    let no_lines: Vec<String> = Vec::new();
    let r = consume_comments2(&no_lines);
    assert_eq!(
        r,
        Err(ProcessingError::Format { row: 0, error: FormatError::EmptyInput })
    );
    let only_comments: Vec<String> = vec![String::from("# nothing else")];
    let r2 = GenoParser::new(&only_comments, mapper());
    match r2 {
        Ok(_) => panic!("an all-comment panel has no header"),
        Err(e) => assert_eq!(
            e,
            ProcessingError::Format { row: 0, error: FormatError::EmptyInput }
        ),
    }
}

#[test]
fn markers_come_from_the_header_line() {
    let markers = consume_markers(&String::from("marker\t10\t12\t38"));
    assert_eq!(markers, vec![String::from("10"), String::from("12"), String::from("38")]);
    let none = consume_markers(&String::from("marker"));
    assert_eq!(none, Vec::<String>::new());
}

#[test]
fn parser_holds_comments_markers_and_record_start() {
    let parser = GenoParser::new(&panel(), mapper()).unwrap();
    assert_eq!(parser.get_comments().len(), 2);
    assert_eq!(parser.markers.len(), 3);
    assert_eq!(parser.snp_pos_start, 3);
}

#[test]
fn snp_record_parses_to_id_and_values() {
    let (id, vals) = parse_snp_rec(String::from("rs41245\tABH"), &mapper()).unwrap();
    assert_eq!(id, String::from("rs41245"));
    assert_eq!(vals, vec![0, 2, 1]);
}

#[test]
fn snp_record_takes_only_the_second_field() {
    let (id, vals) = parse_snp_rec(String::from("rs1\tAB\ttrailing"), &mapper()).unwrap();
    assert_eq!(id, String::from("rs1"));
    assert_eq!(vals, vec![0, 2]);
}

#[test]
fn snp_record_without_tab_is_rejected() {
    let r = parse_snp_rec(String::from("rs1 ABH"), &mapper());
    assert_eq!(r, Err(FormatError::MissingSeparator));
}

#[test]
fn snp_record_with_unknown_char_names_it() {
    let r = parse_snp_rec(String::from("rs1\tAXB"), &mapper());
    assert_eq!(r, Err(FormatError::UnmappedChar { ch: 'X' }));
}

#[test]
fn read_geno_parses_every_record() {
    let data: Vec<String> = vec![String::from("rs1\tABH"), String::from("rs2\tHHB")];
    let rows = read_geno(&data, &mapper()).unwrap();
    assert_eq!(rows.len(), 2);
    assert_eq!(rows[0].0, String::from("rs1"));
    assert_eq!(rows[0].1, vec![0, 2, 1]);
    assert_eq!(rows[1].1, vec![1, 1, 2]);
}

#[test]
fn read_geno_reports_first_bad_row() {
    let data: Vec<String> = vec![String::from("rs1\tABH"), String::from("broken")];
    let r = read_geno(&data, &mapper());
    assert_eq!(
        r,
        Err(ProcessingError::Format { row: 1, error: FormatError::MissingSeparator })
    );
}

#[test]
fn read_all_skips_nothing_of_the_records() {
    let parser = GenoParser::new(&panel(), mapper()).unwrap();
    let lines = panel();
    let data: Vec<String> = lines[parser.snp_pos_start..].to_vec();
    let rows = parser.read_all(&data).unwrap();
    assert_eq!(rows.len(), 2);
    assert_eq!(rows[1].0, String::from("rs2"));
}

#[test]
fn parse_geno_runs_the_whole_pipeline() {
    let rows = parse_geno(&panel(), &mapper()).unwrap();
    assert_eq!(rows.len(), 2);
    assert_eq!(rows[0].0, String::from("rs1"));
}

#[test]
fn parse_markers_skips_comments() {
    let markers = parse_markers(&panel()).unwrap();
    assert_eq!(markers, vec![String::from("10"), String::from("12"), String::from("38")]);
}

#[test]
fn parse_comments_returns_the_block() {
    let comments = parse_comments(&panel()).unwrap();
    assert_eq!(comments.len(), 2);
    assert_eq!(comments[0], String::from(" first comment"));
}

#[test]
fn parse_into_writes_only_its_region() {
    let mut buf: Vec<i64> = vec![7; 9];
    parse_into(&mut buf, 3, &String::from("rs1\tABH"), &mapper(), 3).unwrap();
    assert_eq!(buf, vec![7, 7, 7, 0, 2, 1, 7, 7, 7]);
}

#[test]
fn parse_into_checks_the_marker_count() {
    let mut buf: Vec<i64> = vec![0; 4];
    let r = parse_into(&mut buf, 0, &String::from("rs1\tAB"), &mapper(), 4);
    assert_eq!(r, Err(FormatError::LengthMismatch { expected: 4, found: 2 }));
}

#[test]
fn fill_buffer_reads_a_partial_final_batch() {
    // Room for two rows of three values, but only one record is left: exactly
    // one row is read and the rest of the buffer keeps its old content.
    let mut buf: Vec<i64> = vec![9; 6];
    let data: Vec<String> = vec![String::from("rs1\tABH")];
    let n = fill_buffer(&mut buf, &data, 0, 3, &mapper()).unwrap();
    assert_eq!(n, 1);
    assert_eq!(buf, vec![0, 2, 1, 9, 9, 9]);
}

#[test]
fn fill_buffer_tags_the_failing_record() {
    let mut buf: Vec<i64> = vec![9; 6];
    let data: Vec<String> = vec![
        String::from("rs0\tAAA"),
        String::from("rs1\tABH"),
        String::from("rs2\tAQA"),
    ];
    let r = fill_buffer(&mut buf, &data, 1, 3, &mapper());
    assert_eq!(
        r,
        Err(ProcessingError::Format { row: 2, error: FormatError::UnmappedChar { ch: 'Q' } })
    );
    // The record before the failing one is already in place; the failing
    // record's region and everything after it are untouched.
    assert_eq!(buf, vec![0, 2, 1, 9, 9, 9]);
}

#[test]
fn parse_into_leaves_buffer_untouched_on_error() {
    let mut buf: Vec<i64> = vec![7; 3];
    let r = parse_into(&mut buf, 0, &String::from("rs1\tAQH"), &mapper(), 3);
    assert_eq!(r, Err(FormatError::UnmappedChar { ch: 'Q' }));
    assert_eq!(buf, vec![7, 7, 7]);
}

#[test]
fn mapper_lookup_takes_the_first_match() {
    let m = SnpMapper::new(vec![('A', 1), ('A', 2)]).unwrap();
    assert_eq!(m.lookup('A'), Some(1));
    assert_eq!(m.lookup('B'), None);
}

#[test]
fn mapper_accepts_the_extreme_dosage_values() {
    let m = SnpMapper::new(vec![('A', VAL_LIMIT), ('B', -VAL_LIMIT)]).unwrap();
    assert_eq!(m.lookup('A'), Some(VAL_LIMIT));
    assert_eq!(m.lookup('B'), Some(-VAL_LIMIT));
}
