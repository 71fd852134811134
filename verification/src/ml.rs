//! The inputs of the gradient-boosted model: the locked configuration, the
//! one-hot encoding of categorical answers, the binary target and the
//! reshaping of per-row feature contributions.
use vstd::prelude::*;
use crate::text::strings_contain;

verus! {

/// The column the model predicts, with its values for each kept row.
#[derive(Clone)]
pub enum OutputColumnData {
    /// A numerical column, one cell per row, still as text.
    Regressive(Vec<String>),
    /// The total score of each kept row over the scored questions.
    Scored(Vec<i128>),
    /// A categorical column with two answers, one cell per row.
    BinaryClassificatory(Vec<String>),
}

/// The model setup fixed when configuration ends: the feature columns (kept
/// rows only) and the predicted column.
#[derive(Clone)]
pub struct ConfigurationLock {
    pub numerical_columns: Vec<(String, Vec<String>)>,
    pub categorical_columns: Vec<(String, Vec<String>)>,
    pub output_name: String,
    pub output_data: OutputColumnData,
}

/// `OutputColumnData` taken as plain values.
pub enum OutputView {
    Regressive(Seq<Seq<char>>),
    Scored(Seq<i128>),
    BinaryClassificatory(Seq<Seq<char>>),
}

/// `ConfigurationLock` taken as plain values.
pub struct LockView {
    pub numerical_columns: Seq<(Seq<char>, Seq<Seq<char>>)>,
    pub categorical_columns: Seq<(Seq<char>, Seq<Seq<char>>)>,
    pub output_name: Seq<char>,
    pub output_data: OutputView,
}

/// A named column taken as plain values.
pub open spec fn named_column_view(c: (String, Vec<String>)) -> (Seq<char>, Seq<Seq<char>>) {
    (c.0@, c.1.deep_view())
}

impl View for OutputColumnData {
    type V = OutputView;

    open spec fn view(&self) -> OutputView {
        match self {
            OutputColumnData::Regressive(v) => OutputView::Regressive(v.deep_view()),
            OutputColumnData::Scored(v) => OutputView::Scored(v@),
            OutputColumnData::BinaryClassificatory(v) => OutputView::BinaryClassificatory(v.deep_view()),
        }
    }
}

impl View for ConfigurationLock {
    type V = LockView;

    open spec fn view(&self) -> LockView {
        LockView {
            numerical_columns: self.numerical_columns@.map_values(|c: (String, Vec<String>)| named_column_view(c)),
            categorical_columns: self.categorical_columns@.map_values(|c: (String, Vec<String>)| named_column_view(c)),
            output_name: self.output_name@,
            output_data: self.output_data@,
        }
    }
}

/// The distinct values of `s`, each where it first occurs.
pub open spec fn distinct_values<A>(s: Seq<A>) -> Seq<A>
    decreases s.len(),
{
    if s.len() == 0 {
        seq![]
    } else {
        let d = distinct_values(s.drop_last());
        if d.contains(s.last()) {
            d
        } else {
            d.push(s.last())
        }
    }
}

/// Which cells of `entries` equal `v`.
pub open spec fn indicator(entries: Seq<Seq<char>>, v: Seq<char>) -> Seq<bool> {
    entries.map_values(|e: Seq<char>| e == v)
}

/// The distinct values of `s` hold no value twice and hold exactly the values of `s`.
pub proof fn lemma_distinct_values<A>(s: Seq<A>)
    ensures
        distinct_values(s).no_duplicates(),
        forall|x: A| distinct_values(s).contains(x) <==> s.contains(x),
    decreases s.len(),
{
    if s.len() > 0 {
        lemma_distinct_values(s.drop_last());
        let d = distinct_values(s.drop_last());
        let last = s.last();
        let pre = s.drop_last();
        assert(s =~= pre.push(last));
        assert forall|x: A| distinct_values(s).contains(x) <==> s.contains(x) by {
            if s.contains(x) {
                let i = choose|i: int| 0 <= i < s.len() && s[i] == x;
                if i < s.len() - 1 {
                    assert(pre[i] == x);
                    assert(pre.contains(x));
                    assert(d.contains(x));
                    if !d.contains(last) {
                        let j = choose|j: int| 0 <= j < d.len() && d[j] == x;
                        assert(d.push(last)[j] == x);
                    }
                } else {
                    assert(x == last);
                    if !d.contains(last) {
                        assert(d.push(last)[d.len() as int] == x);
                    }
                }
            }
            if distinct_values(s).contains(x) {
                let j = choose|j: int| 0 <= j < distinct_values(s).len() && distinct_values(s)[j] == x;
                if j < d.len() {
                    assert(d[j] == x);
                    assert(d.contains(x));
                    assert(pre.contains(x));
                    let i = choose|i: int| 0 <= i < pre.len() && pre[i] == x;
                    assert(s[i] == x);
                } else {
                    assert(x == last);
                    assert(s[s.len() - 1] == x);
                }
            }
        }
        if !d.contains(last) {
            assert(d.push(last).no_duplicates()) by {
                assert forall|a: int, b: int| 0 <= a < b < d.push(last).len() implies d.push(last)[a] != d.push(last)[b] by {
                    if b == d.len() {
                        assert(d[a] == d.push(last)[a]);
                    }
                }
            }
        }
    }
}

/// One-hot encoding of a categorical column: one indicator column for each
/// distinct answer, in order of first appearance, marking the rows that
/// gave that answer.
pub fn categorical_to_one_hot(entries: &Vec<String>) -> (r: Vec<(String, Vec<bool>)>)
    ensures
        r@.len() == distinct_values(entries.deep_view()).len(),
        forall|k: int| 0 <= k < r@.len() ==> (#[trigger] r@[k]).0@ == distinct_values(entries.deep_view())[k]
            && r@[k].1@ == indicator(entries.deep_view(), distinct_values(entries.deep_view())[k]),
{
    let ghost deep = entries.deep_view();
    let mut out: Vec<(String, Vec<bool>)> = Vec::new();
    let mut unique_checker: Vec<String> = Vec::new();
    let mut i: usize = 0;
    while i < entries.len()
        invariant
            i <= entries.len(),
            deep == entries.deep_view(),
            unique_checker.deep_view() == distinct_values(deep.take(i as int)),
            out@.len() == unique_checker@.len(),
            forall|k: int| 0 <= k < out@.len() ==> (#[trigger] out@[k]).0@ == unique_checker.deep_view()[k]
                && out@[k].1@ == indicator(deep, unique_checker.deep_view()[k]),
        decreases entries.len() - i,
    {
        let value = &entries[i];
        assert(deep.take(i + 1).drop_last() =~= deep.take(i as int));
        assert(deep.take(i + 1).last() == value@);
        if !strings_contain(&unique_checker, value) {
            let ghost prev = unique_checker.deep_view();
            unique_checker.push(value.clone());
            assert(unique_checker.deep_view() =~= prev.push(value@));
            let mut one_hot_column: Vec<bool> = Vec::new();
            let mut j: usize = 0;
            while j < entries.len()
                invariant
                    j <= entries.len(),
                    deep == entries.deep_view(),
                    one_hot_column@ == indicator(deep, value@).take(j as int),
                decreases entries.len() - j,
            {
                let same = entries[j] == *value;
                one_hot_column.push(same);
                assert(one_hot_column@ =~= indicator(deep, value@).take(j + 1));
                j = j + 1;
            }
            assert(one_hot_column@ =~= indicator(deep, value@));
            out.push((value.clone(), one_hot_column));
        }
        i = i + 1;
    }
    assert(deep.take(entries.len() as int) =~= deep);
    out
}

/// Every row of a categorical column is marked in exactly one one-hot column.
pub proof fn law_one_hot_marks_each_row_once(entries: Seq<Seq<char>>, row: int)
    requires
        0 <= row < entries.len(),
    ensures
        exists|k: int| 0 <= k < distinct_values(entries).len()
            && #[trigger] indicator(entries, distinct_values(entries)[k])[row],
        forall|k1: int, k2: int|
            0 <= k1 < distinct_values(entries).len() && 0 <= k2 < distinct_values(entries).len()
            && #[trigger] indicator(entries, distinct_values(entries)[k1])[row]
            && #[trigger] indicator(entries, distinct_values(entries)[k2])[row] ==> k1 == k2,
{
    lemma_distinct_values(entries);
    let d = distinct_values(entries);
    assert(entries.contains(entries[row]));
    assert(d.contains(entries[row]));
    let k = choose|k: int| 0 <= k < d.len() && d[k] == entries[row];
    assert(indicator(entries, d[k])[row]);
}

/// The binary target: `true` for the rows whose answer equals the first row's.
pub fn get_mapped_binary(column: &Vec<String>) -> (r: Vec<bool>)
    requires
        column.len() > 0,
    ensures
        r@ == indicator(column.deep_view(), column.deep_view()[0]),
{
    let ghost deep = column.deep_view();
    let first = &column[0];
    let mut out: Vec<bool> = Vec::new();
    let mut i: usize = 0;
    while i < column.len()
        invariant
            i <= column.len(),
            deep == column.deep_view(),
            first@ == deep[0],
            out@ == indicator(deep, deep[0]).take(i as int),
        decreases column.len() - i,
    {
        out.push(column[i] == *first);
        assert(out@ =~= indicator(deep, deep[0]).take(i + 1));
        i = i + 1;
    }
    assert(out@ =~= indicator(deep, deep[0]));
    out
}

/// The columns one after the other.
pub fn flatten_columns<T: Copy>(columns: &Vec<Vec<T>>) -> (r: Vec<T>)
    ensures
        r@ == columns@.map_values(|c: Vec<T>| c@).flatten(),
{
    let ghost views = columns@.map_values(|c: Vec<T>| c@);
    let mut out: Vec<T> = Vec::new();
    let mut i: usize = 0;
    while i < columns.len()
        invariant
            i <= columns.len(),
            views == columns@.map_values(|c: Vec<T>| c@),
            out@ == views.take(i as int).flatten(),
        decreases columns.len() - i,
    {
        let column = &columns[i];
        let ghost before = out@;
        let mut j: usize = 0;
        while j < column.len()
            invariant
                j <= column.len(),
                out@ == before + column@.take(j as int),
            decreases column.len() - j,
        {
            out.push(column[j]);
            assert(out@ =~= before + column@.take(j + 1));
            j = j + 1;
        }
        assert(column@.take(column.len() as int) =~= column@);
        assert(views.take(i + 1) =~= views.take(i as int).push(column@));
        proof {
            views.take(i as int).lemma_flatten_push(column@);
        }
        i = i + 1;
    }
    assert(views.take(columns.len() as int) =~= views);
    out
}

/// `s` without the elements whose position plus one is a multiple of `k`.
pub open spec fn drop_every<T>(s: Seq<T>, k: nat) -> Seq<T>
    decreases s.len(),
{
    if s.len() == 0 {
        seq![]
    } else {
        let prev = drop_every(s.drop_last(), k);
        if s.len() % k == 0 {
            prev
        } else {
            prev.push(s.last())
        }
    }
}

/// Row-major `m` by `rows` values read back column by column: position
/// `j` takes the value at `j / rows + m * (j % rows)`.
pub open spec fn transposed<T>(s: Seq<T>, rows: nat) -> Seq<T> {
    let m = s.len() / rows;
    Seq::new(m * rows, |j: int| s[j / (rows as int) + m * (j % (rows as int))])
}

/// Reshapes the per-row contributions that the model returns, `rows` rows
/// of equal length each ending in a bias term: drops every bias term
/// (every element whose position plus one is a multiple of the row length)
/// and lists the rest feature by feature, each feature's values in row order.
pub fn drop_bias_and_transpose<T: Copy>(raw: &Vec<T>, rows: usize) -> (r: Vec<T>)
    requires
        rows > 0,
        raw.len() == 0 || raw.len() >= rows,
    ensures
        r@ == transposed(drop_every(raw@, (raw.len() / rows) as nat), rows as nat),
{
    let stride = raw.len() / rows;
    proof {
        if raw.len() >= rows {
            assert(stride > 0) by (nonlinear_arith)
                requires
                    stride == raw.len() / rows,
                    raw.len() >= rows,
                    rows > 0,
            ;
        }
    }
    let mut no_bias: Vec<T> = Vec::new();
    let mut i: usize = 0;
    while i < raw.len()
        invariant
            i <= raw.len(),
            stride == raw.len() / rows,
            stride > 0 || raw.len() == 0,
            no_bias@ == drop_every(raw@.take(i as int), stride as nat),
        decreases raw.len() - i,
    {
        assert(raw@.take(i + 1).drop_last() =~= raw@.take(i as int));
        if (i + 1) % stride != 0 {
            no_bias.push(raw[i]);
        }
        i = i + 1;
    }
    assert(raw@.take(raw.len() as int) =~= raw@);
    let m = no_bias.len() / rows;
    let ghost nb = no_bias@;
    proof {
        assert(m * rows <= no_bias.len()) by (nonlinear_arith)
            requires
                m == no_bias.len() / rows,
                rows > 0,
        ;
    }
    let mut out: Vec<T> = Vec::new();
    let mut iteration: usize = 0;
    while iteration < m
        invariant
            iteration <= m,
            m == no_bias.len() / rows,
            m * rows <= no_bias.len(),
            rows > 0,
            nb == no_bias@,
            out@ == transposed(nb, rows as nat).take(iteration * rows),
            iteration * rows <= m * rows,
        decreases m - iteration,
    {
        let mut bounce: usize = 0;
        while bounce < rows
            invariant
                iteration < m,
                bounce <= rows,
                m == no_bias.len() / rows,
                m * rows <= no_bias.len(),
                rows > 0,
                nb == no_bias@,
                out@ == transposed(nb, rows as nat).take(iteration * rows + bounce),
            decreases rows - bounce,
        {
            proof {
                assert(iteration + m * bounce < m * rows) by (nonlinear_arith)
                    requires
                        iteration < m,
                        bounce < rows,
                ;
                assert((iteration * rows + bounce) / (rows as int) == iteration
                    && (iteration * rows + bounce) % (rows as int) == bounce) by (nonlinear_arith)
                    requires
                        bounce < rows,
                        iteration < m,
                ;
                assert(iteration * rows + bounce < m * rows) by (nonlinear_arith)
                    requires
                        iteration < m,
                        bounce < rows,
                ;
            }
            out.push(no_bias[iteration + m * bounce]);
            assert(out@ =~= transposed(nb, rows as nat).take(iteration * rows + bounce + 1));
            bounce = bounce + 1;
        }
        proof {
            assert((iteration + 1) * rows == iteration * rows + rows) by (nonlinear_arith);
            assert((iteration + 1) * rows <= m * rows) by (nonlinear_arith)
                requires
                    iteration < m,
            ;
        }
        iteration = iteration + 1;
    }
    assert(out@ =~= transposed(nb, rows as nat));
    out
}

/// Where the `i`-th kept element stood before every `k`-th one was dropped.
pub open spec fn source_index(i: int, k: nat) -> int {
    i + i / (k - 1)
}

proof fn lemma_drop_every<T>(s: Seq<T>, k: nat)
    requires
        k >= 2,
    ensures
        drop_every(s, k).len() == s.len() - s.len() / k,
        forall|i: int| #![trigger drop_every(s, k)[i]] #![trigger source_index(i, k)] 0 <= i < drop_every(s, k).len() ==>
            source_index(i, k) < s.len() && drop_every(s, k)[i] == s[source_index(i, k)],
    decreases s.len(),
{
    broadcast use vstd::arithmetic::div_mod::group_fundamental_div_mod_converse;
    if s.len() == 0 {
        assert(drop_every(s, k).len() == 0);
        assert forall|i: int| #![trigger drop_every(s, k)[i]] #![trigger source_index(i, k)] 0 <= i < drop_every(s, k).len() implies
            source_index(i, k) < s.len() && drop_every(s, k)[i] == s[source_index(i, k)] by {}
    } else {
        let pre = s.drop_last();
        lemma_drop_every(pre, k);
        let l = pre.len() as int;
        let q = l / (k as int);
        let r = l % (k as int);
        vstd::arithmetic::div_mod::lemma_fundamental_div_mod(l, k as int);
        assert(0 <= r < k);
        assert(l == q * k + r) by (nonlinear_arith)
            requires
                l == (k as int) * q + r,
        ;
        if r == k - 1 {
            assert(l + 1 == (q + 1) * k + 0) by (nonlinear_arith)
                requires
                    l == q * k + r,
                    r == k - 1,
            ;
            vstd::arithmetic::div_mod::lemma_fundamental_div_mod_converse(l + 1, k as int, q + 1, 0);
            assert(s.len() % k == 0);
            assert forall|i: int| #![trigger drop_every(s, k)[i]] #![trigger source_index(i, k)] 0 <= i < drop_every(s, k).len() implies
                source_index(i, k) < s.len() && drop_every(s, k)[i] == s[source_index(i, k)] by {
                assert(drop_every(pre, k)[i] == pre[source_index(i, k)]);
                assert(source_index(i, k) < pre.len());
            }
        } else {
            assert(l + 1 == q * k + (r + 1));
            vstd::arithmetic::div_mod::lemma_fundamental_div_mod_converse(l + 1, k as int, q, r + 1);
            assert(s.len() % k != 0);
            let i0 = l - q;
            assert(i0 == q * (k - 1) + r) by (nonlinear_arith)
                requires
                    l == q * k + r,
                    i0 == l - q,
            ;
            vstd::arithmetic::div_mod::lemma_fundamental_div_mod_converse(i0, k - 1, q, r);
            assert forall|i: int| #![trigger drop_every(s, k)[i]] #![trigger source_index(i, k)] 0 <= i < drop_every(s, k).len() implies
                source_index(i, k) < s.len() && drop_every(s, k)[i] == s[source_index(i, k)] by {
                if i < drop_every(pre, k).len() {
                    assert(drop_every(pre, k)[i] == pre[source_index(i, k)]);
                    assert(source_index(i, k) < pre.len());
                } else {
                    assert(i == i0);
                    assert(i0 / (k - 1) == q);
                    assert(i0 + q == l);
                }
            }
        }
    }
}

/// When the model returns `rows` rows of `features` contributions each
/// followed by a bias term, the reshaped values hold the contribution of
/// feature `c` to row `r` at position `c * rows + r`, for every feature and row.
pub proof fn law_contribution_layout<T>(raw: Seq<T>, rows: nat, features: nat)
    requires
        rows > 0,
        features >= 1,
        raw.len() == rows * (features + 1),
    ensures
        transposed(drop_every(raw, (raw.len() / rows) as nat), rows).len() == rows * features,
        forall|c: int, r: int| 0 <= c < features && 0 <= r < rows ==>
            #[trigger] transposed(drop_every(raw, (raw.len() / rows) as nat), rows)[c * rows + r]
                == raw[r * (features + 1) + c],
{
    broadcast use vstd::arithmetic::div_mod::group_fundamental_div_mod_converse;
    let k = features + 1;
    assert(raw.len() == k * rows) by (nonlinear_arith)
        requires
            raw.len() == rows * (features + 1),
            k == features + 1,
    ;
    vstd::arithmetic::div_mod::lemma_fundamental_div_mod_converse(raw.len() as int, rows as int, k as int, 0);
    assert(raw.len() / rows == k);
    lemma_drop_every(raw, k as nat);
    let nb = drop_every(raw, k as nat);
    vstd::arithmetic::div_mod::lemma_fundamental_div_mod_converse(raw.len() as int, k as int, rows as int, 0);
    assert(nb.len() == rows * features) by (nonlinear_arith)
        requires
            nb.len() == raw.len() - rows,
            raw.len() == rows * (features + 1),
    ;
    assert(nb.len() == features * rows + 0) by (nonlinear_arith)
        requires
            nb.len() == rows * features,
    ;
    vstd::arithmetic::div_mod::lemma_fundamental_div_mod_converse(nb.len() as int, rows as int, features as int, 0);
    let out = transposed(nb, rows);
    assert(out.len() == rows * features) by (nonlinear_arith)
        requires
            out.len() == features * rows,
    ;
    assert forall|c: int, r: int| 0 <= c < features && 0 <= r < rows implies
        #[trigger] out[c * rows + r] == raw[r * (features + 1) + c] by {
        let j = c * rows + r;
        vstd::arithmetic::div_mod::lemma_fundamental_div_mod_converse(j, rows as int, c, r);
        assert(j < features * rows) by (nonlinear_arith)
            requires
                j == c * rows + r,
                c < features,
                r < rows,
        ;
        let i = c + features * r;
        assert(i == r * features + c) by (nonlinear_arith)
            requires
                i == c + features * r,
        ;
        vstd::arithmetic::div_mod::lemma_fundamental_div_mod_converse(i, features as int, r, c);
        assert(i < nb.len()) by (nonlinear_arith)
            requires
                i == r * features + c,
                c < features,
                r < rows,
                nb.len() == rows * features,
        ;
        assert(nb[i] == raw[source_index(i, k as nat)]);
        assert(source_index(i, k as nat) == i + r);
        assert(i + r == r * (features + 1) + c) by (nonlinear_arith)
            requires
                i == r * features + c,
        ;
    }
}

} // verus!
