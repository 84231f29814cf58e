//! The genotype panel parser: record lines of the form
//! `<row_id><TAB><genotype string>`, a header line of tab-separated marker
//! names, and the batched kinship engine over the record lines.

use vstd::prelude::*;

use crate::error::{ConfigError, FormatError, ProcessingError};
use crate::kinship::{
    batch_dot, calc_partial_kinship, cells_bounded, flat_idx, lemma_batch_dot_bound,
    lemma_cell_decompose, lemma_flat_decompose, lemma_flat_idx_bounds, merge_partial_kinship,
    mirror_and_scale_kinship, spec_mirrored, vals_bounded, KinshipMatrix, CELL_LIMIT,
    KINSHIP_LIMIT, VAL_LIMIT,
};
use vstd::arithmetic::div_mod::{lemma_fundamental_div_mod, lemma_fundamental_div_mod_converse};
use crate::mapping::{spec_lookup, SnpMapper};
use crate::reader::{consume_comments2, is_comment};

verus! {

/// Index of the first occurrence of `c` in `s`, or -1 when `c` does not occur.
pub open spec fn spec_find(s: Seq<char>, c: char) -> int
    decreases s.len(),
{
    if s.len() == 0 {
        -1
    } else if s[0] == c {
        0
    } else {
        let r = spec_find(s.skip(1), c);
        if r < 0 {
            -1
        } else {
            r + 1
        }
    }
}

/// If every character before `x` differs from `c` and `s[x] == c`, then `x`
/// is the first occurrence of `c`.
pub proof fn lemma_spec_find_at(s: Seq<char>, c: char, x: int)
    requires
        0 <= x < s.len(),
        s[x] == c,
        forall|k: int| 0 <= k < x ==> s[k] != c,
    ensures
        spec_find(s, c) == x,
    decreases x,
{
    if x > 0 {
        assert(forall|k: int| 0 <= k < x - 1 ==> s.skip(1)[k] != c);
        assert(s.skip(1)[x - 1] == s[x]);
        lemma_spec_find_at(s.skip(1), c, x - 1);
    }
}

/// If `c` occurs nowhere in `s`, there is no first occurrence.
pub proof fn lemma_spec_find_none(s: Seq<char>, c: char)
    requires
        forall|k: int| 0 <= k < s.len() ==> s[k] != c,
    ensures
        spec_find(s, c) < 0,
    decreases s.len(),
{
    if s.len() > 0 {
        assert(forall|k: int| 0 <= k < s.skip(1).len() ==> s.skip(1)[k] != c);
        lemma_spec_find_none(s.skip(1), c);
    }
}

/// The record line has a tab between the row id and the genotype string.
pub open spec fn has_separator(line: Seq<char>) -> bool {
    spec_find(line, '\t') >= 0
}

/// The row id of a record line: everything before the first tab.
pub open spec fn record_id(line: Seq<char>) -> Seq<char> {
    line.take(spec_find(line, '\t'))
}

/// The genotype string of a record line: everything between the first tab and
/// the following tab (or the end of the line).
pub open spec fn snp_field(line: Seq<char>) -> Seq<char> {
    let t = spec_find(line, '\t');
    let rest = line.skip(t + 1);
    let t2 = spec_find(rest, '\t');
    if t2 < 0 {
        rest
    } else {
        rest.take(t2)
    }
}

/// Every character of `s` is present in the mapping table.
pub open spec fn all_mapped(s: Seq<char>, table: Seq<(char, i64)>) -> bool {
    forall|k: int| 0 <= k < s.len() ==> spec_lookup(table, #[trigger] s[k]) is Some
}

/// Index of the first character of `s` absent from the mapping table, or -1
/// when every character is mapped.
pub open spec fn first_unmapped(s: Seq<char>, table: Seq<(char, i64)>) -> int
    decreases s.len(),
{
    if s.len() == 0 {
        -1
    } else if spec_lookup(table, s[0]) is None {
        0
    } else {
        let r = first_unmapped(s.skip(1), table);
        if r < 0 {
            -1
        } else {
            r + 1
        }
    }
}

/// If every character before `x` is mapped and `s[x]` is not, then `x` is the
/// first unmapped character.
pub proof fn lemma_first_unmapped_at(s: Seq<char>, table: Seq<(char, i64)>, x: int)
    requires
        0 <= x < s.len(),
        spec_lookup(table, s[x]) is None,
        forall|k: int| 0 <= k < x ==> spec_lookup(table, #[trigger] s[k]) is Some,
    ensures
        first_unmapped(s, table) == x,
    decreases x,
{
    if x > 0 {
        assert(forall|k: int|
            0 <= k < x - 1 ==> spec_lookup(table, #[trigger] s.skip(1)[k]) is Some);
        assert(s.skip(1)[x - 1] == s[x]);
        lemma_first_unmapped_at(s.skip(1), table, x - 1);
    }
}

/// If every character is mapped, there is no first unmapped character.
pub proof fn lemma_first_unmapped_none(s: Seq<char>, table: Seq<(char, i64)>)
    requires
        all_mapped(s, table),
    ensures
        first_unmapped(s, table) < 0,
    decreases s.len(),
{
    if s.len() > 0 {
        assert(forall|k: int|
            0 <= k < s.skip(1).len() ==> spec_lookup(table, #[trigger] s.skip(1)[k]) is Some);
        lemma_first_unmapped_none(s.skip(1), table);
    }
}

/// The dosage values of a fully mapped genotype string.
pub open spec fn decoded(s: Seq<char>, table: Seq<(char, i64)>) -> Seq<i64> {
    Seq::new(s.len(), |k: int| spec_lookup(table, s[k]).unwrap())
}

/// The record line parses against the mapping table, with no constraint on
/// its length.
pub open spec fn rec_ok(line: Seq<char>, table: Seq<(char, i64)>) -> bool {
    has_separator(line) && all_mapped(snp_field(line), table)
}

/// The fault of a record line that does not parse against the table alone.
pub open spec fn rec_error(line: Seq<char>, table: Seq<(char, i64)>) -> FormatError {
    if !has_separator(line) {
        FormatError::MissingSeparator
    } else {
        FormatError::UnmappedChar {
            ch: snp_field(line)[first_unmapped(snp_field(line), table)],
        }
    }
}

/// The record line parses and its genotype string has one character per
/// marker.
pub open spec fn line_ok(line: Seq<char>, d: int, table: Seq<(char, i64)>) -> bool {
    has_separator(line) && snp_field(line).len() == d && all_mapped(snp_field(line), table)
}

/// The fault of a record line that does not satisfy `line_ok`.
pub open spec fn line_error(line: Seq<char>, d: int, table: Seq<(char, i64)>) -> FormatError {
    if !has_separator(line) {
        FormatError::MissingSeparator
    } else if snp_field(line).len() != d {
        FormatError::LengthMismatch { expected: d as usize, found: snp_field(line).len() as usize }
    } else {
        FormatError::UnmappedChar {
            ch: snp_field(line)[first_unmapped(snp_field(line), table)],
        }
    }
}

/// The character sequences of a sequence of lines.
pub open spec fn line_views(lines: Seq<String>) -> Seq<Seq<char>> {
    lines.map_values(|l: String| l@)
}

/// First occurrence of `c` in `s`, scanning left to right.
#[verifier::loop_isolation(false)]
fn find_char(s: &str, c: char) -> (r: Option<usize>)
    ensures
        r matches Some(i) ==> i < s@.len() && s@[i as int] == c && spec_find(s@, c) == i,
        r is None ==> spec_find(s@, c) < 0,
{
    let n = s.unicode_len();
    let mut x: usize = 0;
    while x < n
        invariant
            x <= n,
            n == s@.len(),
            forall|k: int| 0 <= k < x ==> s@[k] != c,
        decreases n - x,
    {
        if s.get_char(x) == c {
            proof {
                lemma_spec_find_at(s@, c, x as int);
            }
            return Some(x);
        }
        x = x + 1;
    }
    proof {
        lemma_spec_find_none(s@, c);
    }
    None
}

/// Splitting a line at every tab.
pub open spec fn tab_split(s: Seq<char>) -> Seq<Seq<char>>
    decreases s.len(),
{
    let t = spec_find(s, '\t');
    if t < 0 || t >= s.len() {
        seq![s]
    } else {
        seq![s.take(t)] + tab_split(s.skip(t + 1))
    }
}

/// Splits the header line at tabs and drops the leading row-label
/// placeholder, returning the marker names. Their count fixes the row length
/// of the whole run.
pub fn consume_markers(line: &String) -> (markers: Vec<String>)
    ensures
        line_views(markers@) == tab_split(line@).skip(1),
{
    let mut markers: Vec<String> = Vec::new();
    let first_tab = match find_char(line.as_str(), '\t') {
        Some(t) => t,
        None => {
            proof {
                assert(line_views(markers@) =~= tab_split(line@).skip(1));
            }
            return markers;
        },
    };
    let llen = line.as_str().unicode_len();
    let mut cur: &str = line.as_str().substring_char(first_tab + 1, llen);
    proof {
        assert(cur@ =~= line@.skip(first_tab as int + 1));
        assert(tab_split(line@) == seq![line@.take(first_tab as int)] + tab_split(cur@));
    }
    let ghost whole = tab_split(line@);
    loop
        invariant_except_break
            whole == seq![line@.take(spec_find(line@, '\t'))] + line_views(markers@) + tab_split(
                cur@,
            ),
        ensures
            line_views(markers@) == whole.skip(1),
        decreases cur@.len(),
    {
        match find_char(cur, '\t') {
            None => {
                markers.push(cur.to_owned());
                proof {
                    assert(tab_split(cur@) =~= seq![cur@]);
                    assert(line_views(markers@) =~= whole.skip(1));
                }
                break ;
            },
            Some(t) => {
                let tok = cur.substring_char(0, t);
                markers.push(tok.to_owned());
                let clen = cur.unicode_len();
                let next: &str = cur.substring_char(t + 1, clen);
                proof {
                    assert(next@ =~= cur@.skip(t as int + 1));
                    assert(tok@ =~= cur@.take(t as int));
                    assert(tab_split(cur@) == seq![cur@.take(t as int)] + tab_split(next@));
                    assert(whole == seq![line@.take(spec_find(line@, '\t'))] + line_views(markers@)
                        + tab_split(next@));
                }
                cur = next;
            },
        }
    }
    markers
}

/// Parses one record line into its row id and dosage values. The genotype
/// string may have any length; the length check against the marker count
/// belongs to the batch engine.
#[verifier::loop_isolation(false)]
pub fn parse_snp_rec(line: String, hab_mapper: &SnpMapper) -> (r: Result<
    (String, Vec<i64>),
    FormatError,
>)
    ensures
        !has_separator(line@) ==> r == Err::<(String, Vec<i64>), FormatError>(
            FormatError::MissingSeparator,
        ),
        has_separator(line@) && !all_mapped(snp_field(line@), hab_mapper@) ==> r == Err::<
            (String, Vec<i64>),
            FormatError,
        >(rec_error(line@, hab_mapper@)),
        has_separator(line@) && all_mapped(snp_field(line@), hab_mapper@) ==> (r matches Ok(p) && {
            &&& p.0@ == record_id(line@)
            &&& p.1@ == decoded(snp_field(line@), hab_mapper@)
            &&& vals_bounded(p.1@)
        }),
{
    let t = match find_char(line.as_str(), '\t') {
        Some(t) => t,
        None => {
            return Err(FormatError::MissingSeparator);
        },
    };
    let llen = line.as_str().unicode_len();
    let id = line.as_str().substring_char(0, t);
    let rest = line.as_str().substring_char(t + 1, llen);
    proof {
        assert(rest@ =~= line@.skip(t as int + 1));
        assert(id@ =~= record_id(line@));
    }
    let field = match find_char(rest, '\t') {
        Some(t2) => rest.substring_char(0, t2),
        None => rest,
    };
    proof {
        assert(field@ =~= snp_field(line@));
    }
    let flen = field.unicode_len();
    let mut vals: Vec<i64> = Vec::new();
    let mut x: usize = 0;
    while x < flen
        invariant
            x <= flen,
            flen == field@.len(),
            vals@.len() == x,
            forall|k: int| 0 <= k < x ==> spec_lookup(hab_mapper@, #[trigger] field@[k]) is Some,
            forall|k: int| 0 <= k < x ==> vals@[k] == decoded(field@, hab_mapper@)[k],
            forall|k: int| 0 <= k < x ==> -VAL_LIMIT <= #[trigger] vals@[k] <= VAL_LIMIT,
        decreases flen - x,
    {
        let ch = field.get_char(x);
        match hab_mapper.lookup(ch) {
            Some(v) => {
                vals.push(v);
            },
            None => {
                proof {
                    lemma_first_unmapped_at(field@, hab_mapper@, x as int);
                }
                return Err(FormatError::UnmappedChar { ch });
            },
        }
        x = x + 1;
    }
    proof {
        lemma_first_unmapped_none(field@, hab_mapper@);
        assert(vals@ =~= decoded(field@, hab_mapper@));
    }
    Ok((id.to_owned(), vals))
}

/// Parses one record line into the region `[start, start + ids_num)` of a
/// preallocated flat batch buffer, checking that the genotype string has one
/// character per marker. The whole line is decoded before anything is
/// written, so a rejected line leaves the buffer untouched — no cell outside
/// the region is touched in any case.
#[verifier::loop_isolation(false)]
pub fn parse_into(
    parsed_snp_buf: &mut Vec<i64>,
    start: usize,
    snp_line: &String,
    hab_mapper: &SnpMapper,
    ids_num: usize,
) -> (r: Result<(), FormatError>)
    requires
        start + ids_num <= old(parsed_snp_buf)@.len(),
    ensures
        final(parsed_snp_buf)@.len() == old(parsed_snp_buf)@.len(),
        forall|x: int|
            0 <= x < old(parsed_snp_buf)@.len() && !(start <= x < start + ids_num)
                ==> final(parsed_snp_buf)@[x] == old(parsed_snp_buf)@[x],
        line_ok(snp_line@, ids_num as int, hab_mapper@) <==> r is Ok,
        r is Ok ==> forall|x: int|
            start <= x < start + ids_num ==> final(parsed_snp_buf)@[x] == decoded(
                snp_field(snp_line@),
                hab_mapper@,
            )[x - start] && -VAL_LIMIT <= #[trigger] final(parsed_snp_buf)@[x] <= VAL_LIMIT,
        r is Err ==> final(parsed_snp_buf)@ == old(parsed_snp_buf)@,
        r matches Err(e) ==> e == line_error(snp_line@, ids_num as int, hab_mapper@),
{
    let blen = parsed_snp_buf.len();
    let t = match find_char(snp_line.as_str(), '\t') {
        Some(t) => t,
        None => {
            return Err(FormatError::MissingSeparator);
        },
    };
    let llen = snp_line.as_str().unicode_len();
    let rest = snp_line.as_str().substring_char(t + 1, llen);
    proof {
        assert(rest@ =~= snp_line@.skip(t as int + 1));
    }
    let field = match find_char(rest, '\t') {
        Some(t2) => rest.substring_char(0, t2),
        None => rest,
    };
    proof {
        assert(field@ =~= snp_field(snp_line@));
    }
    let flen = field.unicode_len();
    if flen != ids_num {
        return Err(FormatError::LengthMismatch { expected: ids_num, found: flen });
    }
    let mut vals: Vec<i64> = Vec::new();
    let mut x: usize = 0;
    while x < flen
        invariant
            x <= flen,
            flen == field@.len(),
            vals@.len() == x,
            forall|k: int| 0 <= k < x ==> spec_lookup(hab_mapper@, #[trigger] field@[k]) is Some,
            forall|k: int| 0 <= k < x ==> vals@[k] == decoded(field@, hab_mapper@)[k],
            forall|k: int| 0 <= k < x ==> -VAL_LIMIT <= #[trigger] vals@[k] <= VAL_LIMIT,
        decreases flen - x,
    {
        let ch = field.get_char(x);
        match hab_mapper.lookup(ch) {
            Some(v) => {
                vals.push(v);
            },
            None => {
                proof {
                    lemma_first_unmapped_at(field@, hab_mapper@, x as int);
                }
                return Err(FormatError::UnmappedChar { ch });
            },
        }
        x = x + 1;
    }
    proof {
        lemma_first_unmapped_none(field@, hab_mapper@);
    }
    let mut y: usize = 0;
    while y < ids_num
        invariant
            y <= ids_num,
            vals@.len() == ids_num,
            flen == field@.len(),
            parsed_snp_buf@.len() == blen,
            forall|k: int| 0 <= k < vals@.len() ==> vals@[k] == decoded(field@, hab_mapper@)[k],
            forall|k: int| 0 <= k < vals@.len() ==> -VAL_LIMIT <= #[trigger] vals@[k] <= VAL_LIMIT,
            forall|k: int|
                0 <= k < blen && !(start <= k < start + y) ==> parsed_snp_buf@[k] == old(
                    parsed_snp_buf,
                )@[k],
            forall|k: int|
                start <= k < start + y ==> parsed_snp_buf@[k] == decoded(field@, hab_mapper@)[k
                    - start] && -VAL_LIMIT <= #[trigger] parsed_snp_buf@[k] <= VAL_LIMIT,
        decreases ids_num - y,
    {
        parsed_snp_buf[start + y] = vals[y];
        y = y + 1;
    }
    Ok(())
}

/// Fills a flat batch buffer with as many parsed records as it has room for,
/// starting at record `from_line`: up to `buffer length / ids_num` rows, fewer
/// when the stream has fewer left (the final, partial batch). Returns how many
/// rows were read; a row that does not parse is fatal and is reported with its
/// record index. On that error the rows before the failing one are already in
/// place, and every cell from the failing row's region on is untouched.
#[verifier::loop_isolation(false)]
pub fn fill_buffer(
    fill_buf: &mut Vec<i64>,
    lines: &Vec<String>,
    from_line: usize,
    ids_num: usize,
    hab_mapper: &SnpMapper,
) -> (r: Result<usize, ProcessingError>)
    requires
        ids_num >= 1,
        old(fill_buf)@.len() as int % (ids_num as int) == 0,
        from_line <= lines@.len(),
    ensures
        final(fill_buf)@.len() == old(fill_buf)@.len(),
        ({
            let d = ids_num as int;
            let cap = old(fill_buf)@.len() as int / d;
            let avail = lines@.len() - from_line;
            let k = if cap <= avail {
                cap
            } else {
                avail
            };
            &&& ((forall|rr: int|
                0 <= rr < k ==> line_ok(#[trigger] lines@[from_line + rr]@, d, hab_mapper@)) <==> r
                is Ok)
            &&& (r matches Ok(n) ==> {
                &&& n == k
                &&& forall|rr: int, c: int|
                    0 <= rr < k && 0 <= c < d ==> final(fill_buf)@[flat_idx(d, rr, c)] == decoded(
                        snp_field(lines@[from_line + rr]@),
                        hab_mapper@,
                    )[c]
                &&& forall|x: int|
                    k * d <= x < old(fill_buf)@.len() ==> final(fill_buf)@[x] == old(fill_buf)@[x]
                &&& forall|x: int|
                    0 <= x < k * d ==> -VAL_LIMIT <= #[trigger] final(fill_buf)@[x] <= VAL_LIMIT
            })
            &&& (r matches Err(e) ==> (e matches ProcessingError::Format { row, error } && {
                &&& from_line <= row < from_line + k
                &&& !line_ok(lines@[row as int]@, d, hab_mapper@)
                &&& forall|rr: int|
                    from_line <= rr < row ==> line_ok(#[trigger] lines@[rr]@, d, hab_mapper@)
                &&& error == line_error(lines@[row as int]@, d, hab_mapper@)
                &&& forall|rr: int, c: int|
                    0 <= rr < row - from_line && 0 <= c < d ==> final(fill_buf)@[flat_idx(d, rr, c)]
                        == decoded(snp_field(lines@[from_line + rr]@), hab_mapper@)[c]
                &&& forall|x: int|
                    (row - from_line) * d <= x < old(fill_buf)@.len() ==> final(fill_buf)@[x]
                        == old(fill_buf)@[x]
            }))
        }),
{
    let blen = fill_buf.len();
    let cap = blen / ids_num;
    proof {
        let len = blen as int;
        let q = len / (ids_num as int);
        let rm = len % (ids_num as int);
        lemma_fundamental_div_mod(len, ids_num as int);
        assert(cap as int * (ids_num as int) == len) by (nonlinear_arith)
            requires
                len == (ids_num as int) * q + rm,
                rm == 0,
                cap as int == q,
        ;
    }
    let remaining = lines.len() - from_line;
    let k = if cap <= remaining {
        cap
    } else {
        remaining
    };
    let ghost dd = ids_num as int;
    let mut rr: usize = 0;
    while rr < k
        invariant
            rr <= k,
            k <= cap,
            fill_buf@.len() == blen,
            forall|r2: int|
                0 <= r2 < rr ==> line_ok(#[trigger] lines@[from_line + r2]@, dd, hab_mapper@),
            forall|r2: int, c: int|
                0 <= r2 < rr && 0 <= c < dd ==> fill_buf@[flat_idx(dd, r2, c)] == decoded(
                    snp_field(lines@[from_line + r2]@),
                    hab_mapper@,
                )[c],
            forall|x: int| rr * dd <= x < blen ==> fill_buf@[x] == old(fill_buf)@[x],
            forall|x: int| 0 <= x < rr * dd ==> -VAL_LIMIT <= #[trigger] fill_buf@[x] <= VAL_LIMIT,
        decreases k - rr,
    {
        proof {
            assert(rr * dd + dd <= cap as int * dd && 0 <= rr * dd && (rr as int + 1) * dd == rr
                * dd + dd) by (nonlinear_arith)
                requires
                    0 <= rr < cap,
                    dd >= 1,
            ;
        }
        let start = rr * ids_num;
        match parse_into(fill_buf, start, &lines[from_line + rr], hab_mapper, ids_num) {
            Ok(_) => {},
            Err(e) => {
                proof {
                    assert forall|r2: int| from_line <= r2 < from_line + rr implies line_ok(
                        #[trigger] lines@[r2]@,
                        dd,
                        hab_mapper@,
                    ) by {
                        assert(line_ok(lines@[from_line + (r2 - from_line)]@, dd, hab_mapper@));
                    }
                }
                return Err(ProcessingError::Format { row: from_line + rr, error: e });
            },
        }
        proof {
            assert forall|r2: int, c: int| 0 <= r2 < rr + 1 && 0 <= c < dd implies fill_buf@[
                flat_idx(dd, r2, c)
            ] == decoded(snp_field(lines@[from_line + r2]@), hab_mapper@)[c] by {
                assert(0 <= flat_idx(dd, r2, c) < (rr as int + 1) * dd) by (nonlinear_arith)
                    requires
                        0 <= r2 <= rr as int,
                        0 <= c < dd,
                ;
                if r2 < rr {
                    assert(flat_idx(dd, r2, c) < rr * dd) by (nonlinear_arith)
                        requires
                            0 <= r2 < rr as int,
                            0 <= c < dd,
                    ;
                } else {
                    assert(flat_idx(dd, r2, c) == start + c);
                }
            }
            assert forall|x: int| 0 <= x < (rr + 1) * dd implies -VAL_LIMIT <= #[trigger] fill_buf@[
                x
            ] <= VAL_LIMIT by {
                if x < rr * dd {
                } else {
                    assert(start <= x < start + dd);
                }
            }
        }
        rr = rr + 1;
    }
    Ok(k)
}

/// Every record line of `lines` parses against the table.
pub open spec fn all_recs_ok(lines: Seq<String>, table: Seq<(char, i64)>) -> bool {
    forall|k: int| 0 <= k < lines.len() ==> rec_ok((#[trigger] lines[k])@, table)
}

/// Parses every given record line into a (row id, dosage values) tuple,
/// failing on the first record that does not parse.
#[verifier::loop_isolation(false)]
pub fn read_geno(lines: &Vec<String>, hab_mapper: &SnpMapper) -> (r: Result<
    Vec<(String, Vec<i64>)>,
    ProcessingError,
>)
    ensures
        all_recs_ok(lines@, hab_mapper@) <==> r is Ok,
        r matches Ok(v) ==> {
            &&& v@.len() == lines@.len()
            &&& forall|k: int|
                0 <= k < lines@.len() ==> (#[trigger] v@[k]).0@ == record_id(lines@[k]@)
                    && v@[k].1@ == decoded(snp_field(lines@[k]@), hab_mapper@)
        },
        r matches Err(e) ==> (e matches ProcessingError::Format { row, error } && {
            &&& row < lines@.len()
            &&& !rec_ok(lines@[row as int]@, hab_mapper@)
            &&& forall|k: int| 0 <= k < row ==> rec_ok(#[trigger] lines@[k]@, hab_mapper@)
            &&& error == rec_error(lines@[row as int]@, hab_mapper@)
        }),
{
    let n = lines.len();
    let mut contents: Vec<(String, Vec<i64>)> = Vec::new();
    let mut row: usize = 0;
    while row < n
        invariant
            row <= n,
            contents@.len() == row,
            forall|k: int| 0 <= k < row ==> rec_ok(#[trigger] lines@[k]@, hab_mapper@),
            forall|k: int|
                0 <= k < row ==> (#[trigger] contents@[k]).0@ == record_id(lines@[k]@)
                    && contents@[k].1@ == decoded(snp_field(lines@[k]@), hab_mapper@),
        decreases n - row,
    {
        match parse_snp_rec(lines[row].clone(), hab_mapper) {
            Ok(tuple) => {
                contents.push(tuple);
            },
            Err(e) => {
                return Err(ProcessingError::Format { row, error: e });
            },
        }
        row = row + 1;
    }
    Ok(contents)
}

/// Clones the record lines from `from` on, so the record parsers can run on
/// them alone.
#[verifier::loop_isolation(false)]
fn clone_suffix(lines: &Vec<String>, from: usize) -> (r: Vec<String>)
    requires
        from <= lines@.len(),
    ensures
        r@.len() == lines@.len() - from,
        forall|k: int| 0 <= k < r@.len() ==> #[trigger] r@[k] == lines@[from + k],
{
    let n = lines.len();
    let mut r: Vec<String> = Vec::new();
    let mut x: usize = from;
    while x < n
        invariant
            from <= x <= n,
            r@.len() == x - from,
            forall|k: int| 0 <= k < r@.len() ==> #[trigger] r@[k] == lines@[from + k],
        decreases n - x,
    {
        r.push(lines[x].clone());
        x = x + 1;
    }
    r
}

/// The R/qtl2 genotype panel parser: the comment block, the marker names of
/// the header line, the mapping table, and the index of the first record
/// line.
pub struct GenoParser {
    /// Comment lines found before the header, `#` marker stripped.
    pub comments: Vec<String>,
    /// Marker names of the header line; their count fixes the row length.
    pub markers: Vec<String>,
    /// Maps genotype characters to dosage values, e.g. `A` to 0, `H` to 1,
    /// `B` to 2.
    pub hab_mapper: SnpMapper,
    /// Index of the line where the records start.
    pub snp_pos_start: usize,
}

impl GenoParser {
    /// Reads the comment block and the header line of the panel, fixing the
    /// marker count for the run. The records themselves stay with the caller
    /// and are consumed lazily, batch by batch.
    pub fn new(lines: &Vec<String>, hab_mapper: SnpMapper) -> (r: Result<
        GenoParser,
        ProcessingError,
    >)
        ensures
            r matches Ok(p) ==> {
                &&& p.snp_pos_start >= 1
                &&& p.snp_pos_start - 1 < lines@.len()
                &&& !is_comment(lines@[p.snp_pos_start - 1]@)
                &&& forall|k: int| 0 <= k < p.snp_pos_start - 1 ==> is_comment(
                    #[trigger] lines@[k]@,
                )
                &&& p.comments@.len() == p.snp_pos_start - 1
                &&& forall|k: int|
                    0 <= k < p.comments@.len() ==> (#[trigger] p.comments@[k])@ == lines@[k]@.skip(
                        1,
                    )
                &&& line_views(p.markers@) == tab_split(lines@[p.snp_pos_start - 1]@).skip(1)
                &&& p.hab_mapper == hab_mapper
            },
            r is Err ==> (forall|k: int| 0 <= k < lines@.len() ==> is_comment(
                #[trigger] lines@[k]@,
            )) && r == Err::<GenoParser, ProcessingError>(
                ProcessingError::Format { row: 0, error: FormatError::EmptyInput },
            ),
    {
        let n = lines.len();
        let (comments, header_idx) = match consume_comments2(lines) {
            Ok(p) => p,
            Err(e) => {
                return Err(e);
            },
        };
        assert(header_idx < n);
        let markers = consume_markers(&lines[header_idx]);
        Ok(GenoParser { comments, markers, hab_mapper, snp_pos_start: header_idx + 1 })
    }

    /// The comment lines found before the header, `#` marker stripped.
    pub fn get_comments(&self) -> (r: &Vec<String>)
        ensures
            r == &self.comments,
    {
        &self.comments
    }

    /// Parses every record line into a (row id, dosage values) tuple. `lines`
    /// are the record lines, the portion of the panel from `self.snp_pos_start`
    /// on.
    pub fn read_all(&self, lines: &Vec<String>) -> (r: Result<
        Vec<(String, Vec<i64>)>,
        ProcessingError,
    >)
        ensures
            all_recs_ok(lines@, self.hab_mapper@) <==> r is Ok,
            r matches Ok(v) ==> {
                &&& v@.len() == lines@.len()
                &&& forall|k: int|
                    0 <= k < lines@.len() ==> (#[trigger] v@[k]).0@ == record_id(lines@[k]@)
                        && v@[k].1@ == decoded(snp_field(lines@[k]@), self.hab_mapper@)
            },
            r matches Err(e) ==> (e matches ProcessingError::Format { row, error } && {
                &&& row < lines@.len()
                &&& !rec_ok(lines@[row as int]@, self.hab_mapper@)
                &&& forall|k: int| 0 <= k < row ==> rec_ok(#[trigger] lines@[k]@, self.hab_mapper@)
                &&& error == rec_error(lines@[row as int]@, self.hab_mapper@)
            }),
    {
        read_geno(lines, &self.hab_mapper)
    }

    /// The streaming kinship engine over the record lines: reads the records
    /// in batches of `batch_size` rows (the final batch may be shorter),
    /// applies the partial symmetric rank-k update per batch, merges each
    /// batch's result into the accumulator, validates that at least as many
    /// records were processed as there are markers, and mirrors the stored
    /// triangle into the dense symmetric matrix. Cell `(i, j)` of the result
    /// holds the exact sum of `row[i] * row[j]` over every record; the
    /// normalization divisor `total_rows` is carried alongside, keeping the
    /// matrix exact.
    ///
    /// The two preconditions are machine limits: a batch buffer and the
    /// matrix itself must be addressable.
    #[verifier::loop_isolation(false)]
    pub fn calc_kinship(&self, lines: &Vec<String>, batch_size: usize) -> (r: Result<
        KinshipMatrix,
        ProcessingError,
    >)
        requires
            (batch_size as int) * (self.markers@.len() as int) <= usize::MAX as int,
            (self.markers@.len() as int) * (self.markers@.len() as int) <= usize::MAX as int,
        ensures
            batch_size == 0 ==> r == Err::<KinshipMatrix, ProcessingError>(
                ProcessingError::Config(ConfigError::BatchSizeZero),
            ),
            batch_size >= 1 && self.markers@.len() == 0 ==> r == Err::<
                KinshipMatrix,
                ProcessingError,
            >(ProcessingError::Format { row: 0, error: FormatError::MalformedHeader }),
            batch_size >= 1 && self.markers@.len() >= 1 ==> ({
                let d = self.markers@.len() as int;
                let table = self.hab_mapper@;
                let all_ok = forall|rr: int|
                    0 <= rr < lines@.len() ==> line_ok(#[trigger] lines@[rr]@, d, table);
                &&& (!all_ok ==> (r matches Err(e) && e matches ProcessingError::Format {
                    row,
                    error,
                } && row < lines@.len() && !line_ok(lines@[row as int]@, d, table) && (forall|
                    k2: int,
                |
                    0 <= k2 < row ==> line_ok(#[trigger] lines@[k2]@, d, table)) && error
                    == line_error(lines@[row as int]@, d, table)))
                &&& (all_ok && lines@.len() < d ==> r == Err::<KinshipMatrix, ProcessingError>(
                    ProcessingError::Config(
                        ConfigError::NotEnoughRows {
                            rows: lines@.len() as usize,
                            ids: self.markers@.len() as usize,
                        },
                    ),
                ))
                &&& (all_ok && lines@.len() >= d ==> (r matches Ok(m) && {
                    &&& m.ids_num == self.markers@.len()
                    &&& m.total_rows == lines@.len()
                    &&& m.values@.len() == d * d
                    &&& forall|j: int, i: int|
                        0 <= j <= i < d ==> m.values@[flat_idx(d, j, i)] == stream_dot(
                            lines@,
                            table,
                            lines@.len() as int,
                            j,
                            i,
                        ) && m.values@[flat_idx(d, i, j)] == stream_dot(
                            lines@,
                            table,
                            lines@.len() as int,
                            j,
                            i,
                        )
                }))
            }),
    {
        if batch_size < 1 {
            return Err(ProcessingError::Config(ConfigError::BatchSizeZero));
        }
        let d = self.markers.len();
        if d == 0 {
            return Err(ProcessingError::Format { row: 0, error: FormatError::MalformedHeader });
        }
        let ghost dd = d as int;
        let ghost table = self.hab_mapper@;
        let ghost vl = VAL_LIMIT as int;
        proof {
            use_type_invariant(&self.hab_mapper);
        }
        let n = lines.len();
        let dsq = d * d;
        proof {
            assert(dsq as int == dd * dd);
        }
        let mut acc: Vec<i128> = vec![0i128; dsq];
        let mut result_buf: Vec<i128> = vec![0i128; dsq];
        proof {
            assert forall|j: int, i: int| 0 <= j < dd && 0 <= i < dd implies acc@[flat_idx(
                dd,
                j,
                i,
            )] == 0 by {
                lemma_flat_idx_bounds(dd, j, i);
            }
        }
        let mut pos: usize = 0;
        while pos < n
            invariant
                pos <= n,
                acc@.len() == dd * dd,
                result_buf@.len() == dd * dd,
                forall|x: int| 0 <= x < result_buf@.len() ==> result_buf@[x] == 0,
                forall|rr: int| 0 <= rr < pos ==> line_ok(#[trigger] lines@[rr]@, dd, table),
                forall|j: int, i: int|
                    0 <= j <= i < dd ==> acc@[flat_idx(dd, j, i)] == stream_dot(
                        lines@,
                        table,
                        pos as int,
                        j,
                        i,
                    ),
                forall|j: int, i: int| 0 <= i < j < dd ==> acc@[flat_idx(dd, j, i)] == 0,
                cells_bounded(acc@, pos as int * vl * vl),
            decreases n - pos,
        {
            let remaining = n - pos;
            let k = if batch_size <= remaining {
                batch_size
            } else {
                remaining
            };
            let ghost kk = k as int;
            proof {
                assert(kk * dd <= (batch_size as int) * dd) by (nonlinear_arith)
                    requires
                        0 <= kk <= batch_size as int,
                        dd >= 1,
                ;
                lemma_fundamental_div_mod_converse(kk * dd, dd, kk, 0);
            }
            let mut buf: Vec<i64> = vec![0i64; k * d];
            let filled = match fill_buffer(&mut buf, lines, pos, d, &self.hab_mapper) {
                Ok(nn) => nn,
                Err(e) => {
                    return Err(e);
                },
            };
            proof {
                assert(buf@.len() as int / dd == kk);
                assert forall|t: int| 0 <= t < pos + kk implies line_ok(
                    #[trigger] lines@[t]@,
                    dd,
                    table,
                ) by {
                    if t >= pos {
                        assert(line_ok(lines@[pos as int + (t - pos)]@, dd, table));
                    }
                }
            }
            calc_partial_kinship(&buf, &mut result_buf, d);
            let ghost rb1 = result_buf@;
            proof {
                assert forall|x: int|
                    0 <= x < rb1.len() implies -(CELL_LIMIT as int) <= #[trigger] rb1[x]
                    <= CELL_LIMIT as int && -(kk * vl * vl) <= rb1[x] <= kk * vl * vl by {
                    lemma_cell_decompose(dd, x);
                    let q = x / dd;
                    let r2 = x % dd;
                    if q <= r2 {
                        lemma_batch_dot_bound(buf@, dd, kk, q, r2);
                    }
                    assert(kk * vl * vl <= 20282409603651670423947251286016) by (nonlinear_arith)
                        requires
                            0 <= kk <= 18446744073709551615,
                            vl == 1048576,
                    ;
                }
                assert(pos as int * vl * vl <= 20282409603651670423947251286016) by (
                nonlinear_arith)
                    requires
                        0 <= pos as int <= 18446744073709551615,
                        vl == 1048576,
                ;
            }
            merge_partial_kinship(&mut acc, &mut result_buf);
            proof {
                assert forall|j: int, i: int| 0 <= j <= i < dd implies acc@[flat_idx(dd, j, i)]
                    == stream_dot(lines@, table, pos as int + kk, j, i) by {
                    lemma_flat_idx_bounds(dd, j, i);
                    lemma_batch_extends_stream(buf@, lines@, table, dd, pos as int, kk, j, i);
                }
                assert forall|j: int, i: int| 0 <= i < j < dd implies acc@[flat_idx(dd, j, i)]
                    == 0 by {
                    lemma_flat_idx_bounds(dd, j, i);
                }
                assert forall|x: int|
                    0 <= x < acc@.len() implies -((pos as int + kk) * vl * vl) <= #[trigger] acc@[x]
                    <= (pos as int + kk) * vl * vl by {
                    assert((pos as int + kk) * vl * vl == pos as int * vl * vl + kk * vl * vl) by (
                    nonlinear_arith);
                }
            }
            pos = pos + filled;
        }
        if n < d {
            return Err(ProcessingError::Config(ConfigError::NotEnoughRows { rows: n, ids: d }));
        }
        proof {
            assert(n as int * vl * vl <= 20282409603651670423947251286016) by (nonlinear_arith)
                requires
                    0 <= n as int <= 18446744073709551615,
                    vl == 1048576,
            ;
            assert(cells_bounded(acc@, KINSHIP_LIMIT as int));
        }
        let ghost acc_raw = acc@;
        mirror_and_scale_kinship(&mut acc, d, 1);
        proof {
            assert forall|j: int, i: int| 0 <= j <= i < dd implies acc@[flat_idx(dd, j, i)]
                == stream_dot(lines@, table, n as int, j, i) && acc@[flat_idx(dd, i, j)]
                == stream_dot(lines@, table, n as int, j, i) by {
                lemma_flat_idx_bounds(dd, j, i);
                lemma_flat_idx_bounds(dd, i, j);
                lemma_flat_decompose(dd, j, i);
                lemma_flat_decompose(dd, i, j);
                assert(acc@[flat_idx(dd, j, i)] == spec_mirrored(acc_raw, dd, 1)[flat_idx(
                    dd,
                    j,
                    i,
                )]);
                assert(acc@[flat_idx(dd, i, j)] == spec_mirrored(acc_raw, dd, 1)[flat_idx(
                    dd,
                    i,
                    j,
                )]);
            }
        }
        Ok(KinshipMatrix { values: acc, ids_num: d, total_rows: n })
    }
}

/// The kinship contribution of the first `rows` record lines to the cell
/// `(j, i)`: the sum of `row[j] * row[i]` over those decoded rows.
pub open spec fn stream_dot(
    lines: Seq<String>,
    table: Seq<(char, i64)>,
    rows: int,
    j: int,
    i: int,
) -> int
    decreases rows,
{
    if rows <= 0 {
        0
    } else {
        stream_dot(lines, table, rows - 1, j, i) + decoded(snp_field(lines[rows - 1]@), table)[j]
            * decoded(snp_field(lines[rows - 1]@), table)[i]
    }
}

/// A batch buffer holding the decoded records `[pos, pos + k)` contributes to
/// a cell exactly the difference of the stream sums at `pos + k` and `pos`.
proof fn lemma_batch_extends_stream(
    buf: Seq<i64>,
    lines: Seq<String>,
    table: Seq<(char, i64)>,
    d: int,
    pos: int,
    k: int,
    j: int,
    i: int,
)
    requires
        0 <= j < d,
        0 <= i < d,
        0 <= pos,
        0 <= k,
        pos + k <= lines.len(),
        forall|rr: int, c: int|
            0 <= rr < k && 0 <= c < d ==> buf[flat_idx(d, rr, c)] == decoded(
                snp_field(lines[pos + rr]@),
                table,
            )[c],
    ensures
        batch_dot(buf, d, k, j, i) == stream_dot(lines, table, pos + k, j, i) - stream_dot(
            lines,
            table,
            pos,
            j,
            i,
        ),
    decreases k,
{
    if k > 0 {
        lemma_batch_extends_stream(buf, lines, table, d, pos, k - 1, j, i);
        assert(buf[flat_idx(d, k - 1, j)] == decoded(snp_field(lines[pos + k - 1]@), table)[j]);
        assert(buf[flat_idx(d, k - 1, i)] == decoded(snp_field(lines[pos + k - 1]@), table)[i]);
    }
}

/// Parses the whole panel in one call: comments, header, then every record.
pub fn parse_geno(lines: &Vec<String>, hab_mapper: &SnpMapper) -> (r: Result<
    Vec<(String, Vec<i64>)>,
    ProcessingError,
>)
    ensures
        r is Ok ==> exists|h: int|
            {
                &&& 0 <= h < lines@.len()
                &&& !is_comment(#[trigger] lines@[h]@)
                &&& forall|k: int| 0 <= k < h ==> is_comment(#[trigger] lines@[k]@)
                &&& all_recs_ok(lines@.skip(h + 1), hab_mapper@)
                &&& r matches Ok(v) && v@.len() == lines@.len() - h - 1 && forall|k: int|
                    0 <= k < v@.len() ==> (#[trigger] v@[k]).0@ == record_id(lines@[h + 1 + k]@)
                        && v@[k].1@ == decoded(snp_field(lines@[h + 1 + k]@), hab_mapper@)
            },
        (forall|k: int| 0 <= k < lines@.len() ==> is_comment(#[trigger] lines@[k]@)) ==> r
            == Err::<Vec<(String, Vec<i64>)>, ProcessingError>(
            ProcessingError::Format { row: 0, error: FormatError::EmptyInput },
        ),
        (match r {
            Err(e) => ((forall|k: int| 0 <= k < lines@.len() ==> is_comment(#[trigger] lines@[k]@))
                && e == (ProcessingError::Format { row: 0, error: FormatError::EmptyInput }))
                || exists|h: int|
                {
                    &&& 0 <= h < lines@.len()
                    &&& !is_comment(#[trigger] lines@[h]@)
                    &&& forall|k: int| 0 <= k < h ==> is_comment(#[trigger] lines@[k]@)
                    &&& e matches ProcessingError::Format { row, error } && {
                        &&& h + 1 + row < lines@.len()
                        &&& !rec_ok(lines@[h + 1 + row]@, hab_mapper@)
                        &&& forall|k: int|
                            0 <= k < row ==> rec_ok(#[trigger] lines@[h + 1 + k]@, hab_mapper@)
                        &&& error == rec_error(lines@[h + 1 + row]@, hab_mapper@)
                    }
                },
            Ok(_) => true,
        }),
{
    let n = lines.len();
    let (_, header_idx) = match consume_comments2(lines) {
        Ok(p) => p,
        Err(e) => {
            return Err(e);
        },
    };
    assert(header_idx < n);
    let data = clone_suffix(lines, header_idx + 1);
    let r = read_geno(&data, hab_mapper);
    proof {
        let hh = header_idx as int;
        assert(data@ =~= lines@.skip(hh + 1));
        assert forall|k: int| 0 <= k < data@.len() implies (#[trigger] lines@[hh + 1 + k])@
            == data@[k]@ by {
            assert(data@[k] == lines@.skip(hh + 1)[k]);
        }
        if r is Err {
            assert(!all_recs_ok(data@, hab_mapper@));
        }
    }
    r
}

/// Parses the marker names of the header line, skipping the comment block.
pub fn parse_markers(lines: &Vec<String>) -> (r: Result<Vec<String>, ProcessingError>)
    ensures
        r matches Ok(markers) ==> exists|h: int|
            {
                &&& 0 <= h < lines@.len()
                &&& !is_comment(#[trigger] lines@[h]@)
                &&& forall|k: int| 0 <= k < h ==> is_comment(#[trigger] lines@[k]@)
                &&& line_views(markers@) == tab_split(lines@[h]@).skip(1)
            },
        r is Err ==> (forall|k: int| 0 <= k < lines@.len() ==> is_comment(#[trigger] lines@[k]@))
            && r == Err::<Vec<String>, ProcessingError>(
            ProcessingError::Format { row: 0, error: FormatError::EmptyInput },
        ),
{
    let (_, header_idx) = match consume_comments2(lines) {
        Ok(p) => p,
        Err(e) => {
            return Err(e);
        },
    };
    Ok(consume_markers(&lines[header_idx]))
}

/// Collects the comment block from the head of the panel, `#` marker
/// stripped.
pub fn parse_comments(lines: &Vec<String>) -> (r: Result<Vec<String>, ProcessingError>)
    ensures
        r matches Ok(comments) ==> exists|h: int|
            {
                &&& 0 <= h < lines@.len()
                &&& !is_comment(#[trigger] lines@[h]@)
                &&& forall|k: int| 0 <= k < h ==> is_comment(#[trigger] lines@[k]@)
                &&& comments@.len() == h
                &&& forall|k: int|
                    0 <= k < h ==> (#[trigger] comments@[k])@ == lines@[k]@.skip(1)
            },
        r is Err ==> (forall|k: int| 0 <= k < lines@.len() ==> is_comment(#[trigger] lines@[k]@))
            && r == Err::<Vec<String>, ProcessingError>(
            ProcessingError::Format { row: 0, error: FormatError::EmptyInput },
        ),
{
    match consume_comments2(lines) {
        Ok((comments, _)) => Ok(comments),
        Err(e) => Err(e),
    }
}

} // verus!
