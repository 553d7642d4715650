//! Text-row formats of the human-readable id block.

use vstd::prelude::*;

verus! {

/// Text-row split of the id (`4/4`, `4/4/4`, `5/5/4`).
#[derive(Clone, Copy, Debug, PartialEq, Eq, Structural)]
pub enum TextFormat {
    /// 8 chars in 2 rows.
    FourFour,
    /// 12 chars in 3 rows.
    FourFourFour,
    /// 14 chars in 3 rows (the full canonical id).
    FiveFiveFour,
}

/// Characters per row of `f`, in document order.
pub open spec fn row_counts(f: TextFormat) -> Seq<usize> {
    match f {
        TextFormat::FourFour => seq![4usize, 4usize],
        TextFormat::FourFourFour => seq![4usize, 4usize, 4usize],
        TextFormat::FiveFiveFour => seq![5usize, 5usize, 4usize],
    }
}

/// Sum of the first `i` counts.
pub open spec fn prefix_sum(counts: Seq<usize>, i: int) -> int
    decreases i,
{
    if i <= 0 {
        0
    } else {
        prefix_sum(counts, i - 1) + counts[i - 1]
    }
}

/// Start offset of row `i` over a text of length `len`: the prefix sum,
/// clipped to the text (missing chars are simply absent).
pub open spec fn row_start(counts: Seq<usize>, i: int, len: int) -> int {
    if prefix_sum(counts, i) < len { prefix_sum(counts, i) } else { len }
}

/// Row `i` of `s` under `counts`.
pub open spec fn row_of(counts: Seq<usize>, s: Seq<char>, i: int) -> Seq<char> {
    s.subrange(row_start(counts, i, s.len() as int), row_start(counts, i + 1, s.len() as int))
}

/// Concatenation of the rows `0..n`.
pub open spec fn concat_rows(rows: Seq<Seq<char>>, n: int) -> Seq<char>
    decreases n,
{
    if n <= 0 {
        Seq::empty()
    } else {
        concat_rows(rows, n - 1) + rows[n - 1]
    }
}

impl TextFormat {
    /// Characters per row for this format, in document order.
    pub fn chars_per_row(self) -> (r: Vec<usize>)
        ensures
            r@ == row_counts(self),
    {
        match self {
            TextFormat::FourFour => vec![4, 4],
            TextFormat::FourFourFour => vec![4, 4, 4],
            TextFormat::FiveFiveFour => vec![5, 5, 4],
        }
    }

    /// Number of text rows.
    pub fn n_rows(self) -> (n: usize)
        ensures
            n == row_counts(self).len(),
    {
        match self {
            TextFormat::FourFour => 2,
            TextFormat::FourFourFour => 3,
            TextFormat::FiveFiveFour => 3,
        }
    }

    /// The `--format` flag spelling.
    pub fn as_str(self) -> (s: &'static str)
        ensures
            s@ == format_name(self),
    {
        match self {
            TextFormat::FourFour => "4/4",
            TextFormat::FourFourFour => "4/4/4",
            TextFormat::FiveFiveFour => "5/5/4",
        }
    }

    /// Split a canonical id into rows. A text shorter than the format
    /// demands leaves the missing chars absent from the trailing rows.
    pub fn split(self, canonical: &str) -> (rows: Vec<String>)
        ensures
            rows@.len() == row_counts(self).len(),
            forall|i: int| 0 <= i < rows@.len() ==> #[trigger] rows@[i]@ == row_of(row_counts(self), canonical@, i),
    {
        let counts = self.chars_per_row();
        let n = canonical.unicode_len();
        let mut rows: Vec<String> = Vec::new();
        let mut idx: usize = 0;
        let mut k: usize = 0;
        while k < counts.len()
            invariant
                counts@ == row_counts(self),
                n == canonical@.len(),
                k <= counts.len(),
                rows@.len() == k,
                idx == row_start(counts@, k as int, n as int),
                forall|i: int| 0 <= i < k ==> #[trigger] rows@[i]@ == row_of(counts@, canonical@, i),
            decreases counts.len() - k,
        {
            let c = counts[k];
            let end = if c <= n - idx { idx + c } else { n };
            assert(prefix_sum(counts@, k + 1) == prefix_sum(counts@, k as int) + counts@[k as int]);
            let row = canonical.substring_char(idx, end);
            rows.push(row.to_owned());
            idx = end;
            k = k + 1;
        }
        rows
    }
}

/// The flag spelling of a format.
pub open spec fn format_name(f: TextFormat) -> Seq<char> {
    match f {
        TextFormat::FourFour => "4/4"@,
        TextFormat::FourFourFour => "4/4/4"@,
        TextFormat::FiveFiveFour => "5/5/4"@,
    }
}

/// The displayed rows, read in order, spell a prefix of the canonical id:
/// exactly its first `min(len, capacity)` characters.
pub proof fn lemma_rows_spell_prefix(counts: Seq<usize>, s: Seq<char>, n: int)
    requires
        0 <= n <= counts.len(),
    ensures
        concat_rows(Seq::new(counts.len(), |i: int| row_of(counts, s, i)), n)
            == s.subrange(0, row_start(counts, n, s.len() as int)),
    decreases n,
{
    let rows = Seq::new(counts.len(), |i: int| row_of(counts, s, i));
    if n == 0 {
        assert(s.subrange(0, 0) =~= Seq::<char>::empty());
    } else {
        lemma_rows_spell_prefix(counts, s, n - 1);
        lemma_prefix_sum_nonneg(counts, n - 1);
        assert(prefix_sum(counts, n) == prefix_sum(counts, n - 1) + counts[n - 1]);
        assert(counts[n - 1] >= 0);
        assert(row_start(counts, n - 1, s.len() as int) <= row_start(counts, n, s.len() as int));
        assert(rows[n - 1] == row_of(counts, s, n - 1));
        assert(s.subrange(0, row_start(counts, n - 1, s.len() as int)) + rows[n - 1]
            =~= s.subrange(0, row_start(counts, n, s.len() as int)));
    }
}

proof fn lemma_prefix_sum_nonneg(counts: Seq<usize>, n: int)
    ensures
        prefix_sum(counts, n) >= 0,
    decreases n,
{
    if n > 0 {
        lemma_prefix_sum_nonneg(counts, n - 1);
    }
}

/// Law: the rows `split` returns, concatenated, are a prefix of the
/// canonical id — exactly its first `min(len, chars in the format)` chars.
pub proof fn law_split_is_prefix(f: TextFormat, canonical: Seq<char>, rows: Seq<Seq<char>>)
    requires
        rows.len() == row_counts(f).len(),
        forall|i: int| 0 <= i < rows.len() ==> #[trigger] rows[i] == row_of(row_counts(f), canonical, i),
    ensures
        concat_rows(rows, rows.len() as int)
            == canonical.subrange(0, row_start(row_counts(f), rows.len() as int, canonical.len() as int)),
        canonical.len() >= prefix_sum(row_counts(f), rows.len() as int) ==>
            concat_rows(rows, rows.len() as int).len() == prefix_sum(row_counts(f), rows.len() as int),
{
    let counts = row_counts(f);
    assert(rows =~= Seq::new(counts.len(), |i: int| row_of(counts, canonical, i)));
    lemma_rows_spell_prefix(counts, canonical, counts.len() as int);
    lemma_prefix_sum_nonneg(counts, counts.len() as int);
}

} // verus!
