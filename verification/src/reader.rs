//! Consumption of the leading comment block of a genotype panel: every line
//! before the header that starts with `#` is a comment and is collected with
//! the marker stripped. An input that ends before a non-comment line is found
//! is rejected as empty.

use vstd::prelude::*;

use crate::error::{FormatError, ProcessingError};

verus! {

/// The line is a comment: it starts with the `#` marker.
pub open spec fn is_comment(line: Seq<char>) -> bool {
    line.len() > 0 && line[0] == '#'
}

/// Collects the leading comment lines, each stripped of its `#` marker, and
/// returns them together with the index of the first non-comment line (the
/// header line). An input with no non-comment line is empty.
#[verifier::loop_isolation(false)]
pub fn consume_comments2(lines: &Vec<String>) -> (r: Result<
    (Vec<String>, usize),
    ProcessingError,
>)
    ensures
        (forall|k: int| 0 <= k < lines@.len() ==> is_comment(#[trigger] lines@[k]@)) ==> r == Err::<
            (Vec<String>, usize),
            ProcessingError,
        >(ProcessingError::Format { row: 0, error: FormatError::EmptyInput }),
        r matches Ok(p) ==> {
            &&& p.1 < lines@.len()
            &&& !is_comment(lines@[p.1 as int]@)
            &&& forall|k: int| 0 <= k < p.1 ==> is_comment(#[trigger] lines@[k]@)
            &&& p.0@.len() == p.1
            &&& forall|k: int| 0 <= k < p.1 ==> (#[trigger] p.0@[k])@ == lines@[k]@.skip(1)
        },
        r is Err ==> (forall|k: int| 0 <= k < lines@.len() ==> is_comment(#[trigger] lines@[k]@))
            && r == Err::<(Vec<String>, usize), ProcessingError>(
            ProcessingError::Format { row: 0, error: FormatError::EmptyInput },
        ),
{
    let n = lines.len();
    let mut comments: Vec<String> = Vec::new();
    let mut idx: usize = 0;
    while idx < n
        invariant
            idx <= n,
            comments@.len() == idx,
            forall|k: int| 0 <= k < idx ==> is_comment(#[trigger] lines@[k]@),
            forall|k: int| 0 <= k < idx ==> (#[trigger] comments@[k])@ == lines@[k]@.skip(1),
        decreases n - idx,
    {
        let line: &String = &lines[idx];
        let len = line.as_str().unicode_len();
        if len == 0 || line.as_str().get_char(0) != '#' {
            return Ok((comments, idx));
        }
        let stripped = line.as_str().substring_char(1, len);
        proof {
            assert(stripped@ =~= lines@[idx as int]@.skip(1));
        }
        comments.push(stripped.to_owned());
        idx = idx + 1;
    }
    Err(ProcessingError::Format { row: 0, error: FormatError::EmptyInput })
}

} // verus!
