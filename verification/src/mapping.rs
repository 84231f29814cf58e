//! The caller-supplied mapping table from genotype characters to integer
//! dosage values, e.g. `A` to 0, `H` to 1, `B` to 2. Every value is bounded by
//! `VAL_LIMIT`, which keeps all downstream sums of products inside `i128`.

use vstd::prelude::*;

use crate::error::{ConfigError, ProcessingError};
use crate::kinship::VAL_LIMIT;

verus! {

/// First-match lookup of `c` in the table.
pub open spec fn spec_lookup(pairs: Seq<(char, i64)>, c: char) -> Option<i64>
    decreases pairs.len(),
{
    if pairs.len() == 0 {
        None
    } else if pairs[0].0 == c {
        Some(pairs[0].1)
    } else {
        spec_lookup(pairs.skip(1), c)
    }
}

/// Index of the first table entry whose value lies outside
/// `[-VAL_LIMIT, VAL_LIMIT]`, or -1 when every value is in range.
pub open spec fn first_out_of_range(pairs: Seq<(char, i64)>) -> int
    decreases pairs.len(),
{
    if pairs.len() == 0 {
        -1
    } else if !(-VAL_LIMIT <= pairs[0].1 <= VAL_LIMIT) {
        0
    } else {
        let r = first_out_of_range(pairs.skip(1));
        if r < 0 {
            -1
        } else {
            r + 1
        }
    }
}

/// Whatever the table maps `c` to lies in the admitted dosage range.
pub proof fn lemma_lookup_bounded(pairs: Seq<(char, i64)>, c: char)
    requires
        forall|x: int|
            0 <= x < pairs.len() ==> -VAL_LIMIT <= (#[trigger] pairs[x]).1 <= VAL_LIMIT,
    ensures
        spec_lookup(pairs, c) matches Some(v) ==> -VAL_LIMIT <= v <= VAL_LIMIT,
    decreases pairs.len(),
{
    if pairs.len() > 0 && pairs[0].0 != c {
        assert(forall|x: int|
            0 <= x < pairs.skip(1).len() ==> -VAL_LIMIT <= (#[trigger] pairs.skip(1)[x]).1
                <= VAL_LIMIT);
        lemma_lookup_bounded(pairs.skip(1), c);
    }
}

/// The character-to-dosage mapping table. Its values are always within
/// `[-VAL_LIMIT, VAL_LIMIT]`: the constructor rejects any other table.
pub struct SnpMapper {
    pairs: Vec<(char, i64)>,
}

impl View for SnpMapper {
    type V = Seq<(char, i64)>;

    closed spec fn view(&self) -> Seq<(char, i64)> {
        self.pairs@
    }
}

impl SnpMapper {
    /// Every value of the table lies in the admitted dosage range. Holds of
    /// every `SnpMapper` by construction.
    #[verifier::type_invariant]
    pub open spec fn wf(&self) -> bool {
        forall|x: int| 0 <= x < self@.len() ==> -VAL_LIMIT <= (#[trigger] self@[x]).1 <= VAL_LIMIT
    }

    /// Builds a mapping table, rejecting the first entry whose value lies
    /// outside the admitted dosage range.
    pub fn new(pairs: Vec<(char, i64)>) -> (r: Result<SnpMapper, ProcessingError>)
        ensures
            first_out_of_range(pairs@) < 0 ==> (r matches Ok(m) && m@ == pairs@),
            first_out_of_range(pairs@) >= 0 ==> r == Err::<SnpMapper, ProcessingError>(
                ProcessingError::Config(
                    ConfigError::ValueOutOfRange {
                        ch: pairs@[first_out_of_range(pairs@)].0,
                        value: pairs@[first_out_of_range(pairs@)].1,
                    },
                ),
            ),
    {
        let n = pairs.len();
        let mut x: usize = 0;
        while x < n
            invariant
                x <= n,
                n == pairs@.len(),
                forall|k: int| 0 <= k < x ==> -VAL_LIMIT <= (#[trigger] pairs@[k]).1 <= VAL_LIMIT,
            decreases n - x,
        {
            let (ch, value) = pairs[x];
            if value < -VAL_LIMIT || value > VAL_LIMIT {
                proof {
                    lemma_first_out_of_range_at(pairs@, x as int);
                }
                return Err(ProcessingError::Config(ConfigError::ValueOutOfRange { ch, value }));
            }
            x = x + 1;
        }
        proof {
            lemma_first_out_of_range_none(pairs@);
        }
        Ok(SnpMapper { pairs })
    }

    /// Looks `c` up in the table, returning the first matching value.
    #[verifier::loop_isolation(false)]
    pub fn lookup(&self, c: char) -> (r: Option<i64>)
        ensures
            r == spec_lookup(self@, c),
            r matches Some(v) ==> -VAL_LIMIT <= v <= VAL_LIMIT,
    {
        proof {
            use_type_invariant(self);
            lemma_lookup_bounded(self@, c);
        }
        let n = self.pairs.len();
        let mut x: usize = 0;
        proof {
            assert(self.pairs@.skip(0) =~= self.pairs@);
        }
        while x < n
            invariant
                x <= n,
                n == self.pairs@.len(),
                spec_lookup(self@, c) == spec_lookup(self.pairs@.skip(x as int), c),
            decreases n - x,
        {
            let (ch, value) = self.pairs[x];
            if ch == c {
                assert(self.pairs@.skip(x as int)[0] == self.pairs@[x as int]);
                return Some(value);
            }
            proof {
                assert(self.pairs@.skip(x as int).skip(1) =~= self.pairs@.skip(x as int + 1));
            }
            x = x + 1;
        }
        proof {
            assert(self.pairs@.skip(n as int).len() == 0);
        }
        None
    }
}

/// If every entry before `x` is in range and entry `x` is not, then `x` is
/// the first out-of-range entry.
proof fn lemma_first_out_of_range_at(pairs: Seq<(char, i64)>, x: int)
    requires
        0 <= x < pairs.len(),
        forall|k: int| 0 <= k < x ==> -VAL_LIMIT <= (#[trigger] pairs[k]).1 <= VAL_LIMIT,
        !(-VAL_LIMIT <= pairs[x].1 <= VAL_LIMIT),
    ensures
        first_out_of_range(pairs) == x,
    decreases x,
{
    if x > 0 {
        assert(forall|k: int|
            0 <= k < x - 1 ==> -VAL_LIMIT <= (#[trigger] pairs.skip(1)[k]).1 <= VAL_LIMIT);
        assert(pairs.skip(1)[x - 1] == pairs[x]);
        lemma_first_out_of_range_at(pairs.skip(1), x - 1);
    }
}

/// If every entry is in range, no entry is the first out-of-range one.
proof fn lemma_first_out_of_range_none(pairs: Seq<(char, i64)>)
    requires
        forall|k: int|
            0 <= k < pairs.len() ==> -VAL_LIMIT <= (#[trigger] pairs[k]).1 <= VAL_LIMIT,
    ensures
        first_out_of_range(pairs) < 0,
    decreases pairs.len(),
{
    if pairs.len() > 0 {
        assert(forall|k: int|
            0 <= k < pairs.skip(1).len() ==> -VAL_LIMIT <= (#[trigger] pairs.skip(1)[k]).1
                <= VAL_LIMIT);
        lemma_first_out_of_range_none(pairs.skip(1));
    }
}

} // verus!
