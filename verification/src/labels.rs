//! Short snake-case labels for the features drawn in the plot.
use vstd::prelude::*;
use crate::ml::{ConfigurationLock, distinct_values, categorical_to_one_hot, named_column_view};
use crate::text::{ascii_lower, chars_of, concat_strings, is_ascii_char, is_ascii_text, is_ascii_upper, lowercase, lowercase_of, push_char, string_from_chars};

verus! {

/// `s` with spaces and hyphens turned into underscores.
pub open spec fn underscored(s: Seq<char>) -> Seq<char> {
    s.map_values(|c: char| if c == ' ' || c == '-' { '_' } else { c })
}

/// How many underscores `s` holds.
pub open spec fn underscore_count(s: Seq<char>) -> nat
    decreases s.len(),
{
    if s.len() == 0 {
        0
    } else {
        underscore_count(s.drop_last()) + if s.last() == '_' { 1nat } else { 0nat }
    }
}

/// The length of the longest prefix of `s` with fewer than `n` underscores:
/// where the `n`-th underscore stands, or the whole length if there is none.
pub open spec fn cut_before(s: Seq<char>, n: nat) -> nat
    decreases s.len(),
{
    if underscore_count(s) < n || s.len() == 0 {
        s.len()
    } else {
        cut_before(s.drop_last(), n)
    }
}

/// `s` without its trailing underscores.
pub open spec fn trim_underscores(s: Seq<char>) -> Seq<char>
    decreases s.len(),
{
    if s.len() > 0 && s.last() == '_' {
        trim_underscores(s.drop_last())
    } else {
        s
    }
}

/// The label of an already lowercased text: spaces and hyphens become
/// underscores, only the first three underscore-separated words are kept,
/// and trailing underscores are dropped.
pub open spec fn shortened(lower: Seq<char>) -> Seq<char> {
    let u = underscored(lower);
    trim_underscores(u.take(cut_before(u, 3) as int))
}

/// The label of a text: its lowercase form, shortened.
pub open spec fn snake_label(text: Seq<char>) -> Seq<char> {
    shortened(lowercase_of(text))
}

/// The label of an ASCII text: its ASCII lowercase form, shortened. This is
/// what `snake_label` gives on ASCII text.
pub open spec fn ascii_label(text: Seq<char>) -> Seq<char> {
    shortened(ascii_lower(text))
}

/// Whether a label is in its final form: ASCII, no space, hyphen or capital,
/// at most two underscores and none at the end.
pub open spec fn is_tidy_label(r: Seq<char>) -> bool {
    &&& is_ascii_text(r)
    &&& forall|i: int| 0 <= i < r.len() ==> (#[trigger] r[i] != ' ' && r[i] != '-' && !is_ascii_upper(r[i]))
    &&& underscore_count(r) <= 2
    &&& (r.len() == 0 || r.last() != '_')
}

proof fn lemma_count_prefix(s: Seq<char>, k: int)
    requires
        0 <= k <= s.len(),
    ensures
        underscore_count(s.take(k)) <= underscore_count(s),
    decreases s.len(),
{
    if k == s.len() {
        assert(s.take(k) =~= s);
    } else {
        assert(s.take(k) =~= s.drop_last().take(k));
        lemma_count_prefix(s.drop_last(), k);
    }
}

proof fn lemma_cut_before(s: Seq<char>, n: nat)
    requires
        n > 0,
    ensures
        cut_before(s, n) <= s.len(),
        underscore_count(s.take(cut_before(s, n) as int)) < n,
    decreases s.len(),
{
    if underscore_count(s) < n || s.len() == 0 {
        assert(s.take(s.len() as int) =~= s);
    } else {
        lemma_cut_before(s.drop_last(), n);
        assert(s.take(cut_before(s, n) as int) =~= s.drop_last().take(cut_before(s, n) as int));
    }
}

proof fn lemma_trim_prefix(s: Seq<char>)
    ensures
        trim_underscores(s).len() <= s.len(),
        trim_underscores(s) == s.take(trim_underscores(s).len() as int),
        trim_underscores(s).len() == 0 || trim_underscores(s).last() != '_',
    decreases s.len(),
{
    if s.len() > 0 && s.last() == '_' {
        lemma_trim_prefix(s.drop_last());
        assert(s.drop_last().take(trim_underscores(s).len() as int) =~= s.take(trim_underscores(s).len() as int));
    } else {
        assert(s.take(s.len() as int) =~= s);
    }
}

/// On ASCII text, a label is the first three underscore-separated words of
/// the ASCII-lowercased, underscored text, joined and trimmed; it is tidy
/// (ASCII, no space, hyphen or capital, at most two underscores, none at the
/// end), and labelling it again gives it back.
pub proof fn law_ascii_label_tidy_and_stable(text: Seq<char>)
    requires
        is_ascii_text(text),
    ensures
        ascii_label(text) == trim_underscores(join_words(first_words(underscore_words(underscored(ascii_lower(text))), 3))),
        is_tidy_label(ascii_label(text)),
        ascii_label(ascii_label(text)) == ascii_label(text),
{
    law_label_keeps_three_words(ascii_lower(text));
    let l = ascii_lower(text);
    let u = underscored(l);
    let t = u.take(cut_before(u, 3) as int);
    let r = trim_underscores(t);
    assert forall|i: int| 0 <= i < u.len() implies
        (is_ascii_char(#[trigger] u[i]) && u[i] != ' ' && u[i] != '-' && !is_ascii_upper(u[i])) by {
        let c = text[i];
        assert(is_ascii_char(c));
        if is_ascii_upper(c) {
            assert((c as u32) >= 65 && (c as u32) <= 90);
            assert(((c as u32 + 32) as char) as u32 == c as u32 + 32);
        }
    }
    lemma_cut_before(u, 3);
    lemma_trim_prefix(t);
    lemma_count_prefix(t, r.len() as int);
    assert forall|i: int| 0 <= i < r.len() implies
        (is_ascii_char(#[trigger] r[i]) && r[i] != ' ' && r[i] != '-' && !is_ascii_upper(r[i])) by {
        assert(r[i] == t[i]);
        assert(t[i] == u[i]);
    }
    assert(is_tidy_label(r));
    assert(ascii_lower(r) =~= r);
    assert(underscored(r) =~= r);
    assert(cut_before(r, 3) == r.len());
    assert(r.take(r.len() as int) =~= r);
}

/// The pieces of `s` between underscores, in order; an underscore at either
/// end, or two in a row, give an empty piece, and the empty text is one
/// empty piece.
pub open spec fn underscore_words(s: Seq<char>) -> Seq<Seq<char>>
    decreases s.len(),
{
    if s.len() == 0 {
        seq![Seq::<char>::empty()]
    } else {
        let w = underscore_words(s.drop_last());
        if s.last() == '_' {
            w.push(Seq::<char>::empty())
        } else {
            w.update(w.len() - 1, w.last().push(s.last()))
        }
    }
}

/// The first `n` of the pieces `ws`, or all of them where there are fewer.
pub open spec fn first_words(ws: Seq<Seq<char>>, n: nat) -> Seq<Seq<char>> {
    if ws.len() <= n {
        ws
    } else {
        ws.take(n as int)
    }
}

/// The pieces `ws` joined with an underscore between each two.
pub open spec fn join_words(ws: Seq<Seq<char>>) -> Seq<char>
    decreases ws.len(),
{
    if ws.len() == 0 {
        Seq::<char>::empty()
    } else if ws.len() == 1 {
        ws[0]
    } else {
        join_words(ws.drop_last()) + seq!['_'] + ws.last()
    }
}

proof fn lemma_words_len(s: Seq<char>)
    ensures
        underscore_words(s).len() == underscore_count(s) + 1,
    decreases s.len(),
{
    if s.len() > 0 {
        lemma_words_len(s.drop_last());
    }
}

proof fn lemma_join_words(s: Seq<char>)
    ensures
        join_words(underscore_words(s)) == s,
    decreases s.len(),
{
    if s.len() > 0 {
        let p = s.drop_last();
        let w = underscore_words(p);
        lemma_join_words(p);
        lemma_words_len(p);
        if s.last() == '_' {
            let w2 = w.push(Seq::<char>::empty());
            assert(w2.drop_last() =~= w);
            assert(join_words(w2) =~= s);
        } else {
            let w2 = w.update(w.len() - 1, w.last().push(s.last()));
            if w.len() == 1 {
                assert(join_words(w) == w[0]);
                assert(join_words(w2) == w2[0]);
                assert(join_words(w2) =~= s);
            } else {
                assert(w2.drop_last() =~= w.drop_last());
                assert(join_words(w2) == join_words(w.drop_last()) + seq!['_'] + w.last().push(s.last()));
                assert(join_words(w) == join_words(w.drop_last()) + seq!['_'] + w.last());
                assert(s =~= p.push(s.last()));
                assert(join_words(w2) =~= join_words(w).push(s.last()));
            }
        }
    }
}

proof fn lemma_words_take(s: Seq<char>, n: nat)
    requires
        n > 0,
    ensures
        join_words(first_words(underscore_words(s), n)) == s.take(cut_before(s, n) as int),
    decreases s.len(),
{
    lemma_words_len(s);
    if underscore_count(s) < n || s.len() == 0 {
        assert(s.take(s.len() as int) =~= s);
        lemma_join_words(s);
    } else {
        let p = s.drop_last();
        lemma_words_len(p);
        lemma_words_take(p, n);
        lemma_cut_before(p, n);
        let w = underscore_words(p);
        assert(first_words(underscore_words(s), n) =~= first_words(w, n));
        assert(s.take(cut_before(s, n) as int) =~= p.take(cut_before(p, n) as int));
    }
}

/// A label keeps the first three underscore-separated words of the
/// underscored lowercase text, joined by underscores, without trailing
/// underscores.
pub proof fn law_label_keeps_three_words(lower: Seq<char>)
    ensures
        shortened(lower) == trim_underscores(join_words(first_words(underscore_words(underscored(lower)), 3))),
{
    lemma_words_take(underscored(lower), 3);
}

/// Shortens an already lowercased text to its label (see `shortened`).
pub fn shorten_snake_case(lowered: &String) -> (r: String)
    ensures
        r@ == shortened(lowered@),
{
    let cs = chars_of(lowered.as_str());
    let mut u: Vec<char> = Vec::new();
    let mut count: usize = 0;
    let mut i: usize = 0;
    while i < cs.len()
        invariant
            i <= cs.len(),
            cs@ == lowered@,
            u@ == underscored(cs@).take(i as int),
            count == underscore_count(u@),
            count <= i,
        decreases cs.len() - i,
    {
        let c = cs[i];
        let d = if c == ' ' || c == '-' { '_' } else { c };
        u.push(d);
        assert(u@ =~= underscored(cs@).take(i + 1));
        assert(u@.drop_last() =~= underscored(cs@).take(i as int));
        if d == '_' {
            count = count + 1;
        }
        i = i + 1;
    }
    assert(u@ =~= underscored(lowered@));
    let ghost full = u@;
    let mut j: usize = u.len();
    while count >= 3
        invariant
            j <= u.len(),
            u@ == full,
            count == underscore_count(full.take(j as int)),
            cut_before(full, 3) == cut_before(full.take(j as int), 3),
        decreases j,
    {
        assert(full.take(j as int).len() > 0);
        assert(full.take(j as int).drop_last() =~= full.take(j - 1));
        if u[j - 1] == '_' {
            count = count - 1;
        }
        j = j - 1;
    }
    assert(cut_before(full.take(j as int), 3) == j);
    let ghost cut = full.take(j as int);
    let mut k: usize = j;
    while k > 0 && u[k - 1] == '_'
        invariant
            k <= j <= u.len(),
            u@ == full,
            trim_underscores(cut) == trim_underscores(full.take(k as int)),
        decreases k,
    {
        assert(full.take(k as int).drop_last() =~= full.take(k - 1));
        k = k - 1;
    }
    string_from_chars(&u, 0, k)
}

/// The label of a column title or answer: lowercase, spaces and hyphens as
/// underscores, at most three words, no trailing underscore.
pub fn to_snake_case_and_shorten(text: &String) -> (r: String)
    ensures
        r@ == snake_label(text@),
        is_ascii_text(text@) ==> r@ == ascii_label(text@),
{
    let lowered = lowercase(text.as_str());
    shorten_snake_case(&lowered)
}

/// The labels of one categorical feature column's one-hot columns.
pub open spec fn categorical_labels(c: (Seq<char>, Seq<Seq<char>>)) -> Seq<Seq<char>> {
    distinct_values(c.1).map_values(|v: Seq<char>| snake_label(c.0) + seq!['_'] + snake_label(v))
}

/// The labels of all model features, in the order the model receives them:
/// for each categorical column, one label per distinct answer (column label,
/// an underscore, answer label); then one label per numerical column.
pub open spec fn feature_labels(
    categorical: Seq<(Seq<char>, Seq<Seq<char>>)>,
    numerical: Seq<(Seq<char>, Seq<Seq<char>>)>,
) -> Seq<Seq<char>> {
    categorical.map_values(|c: (Seq<char>, Seq<Seq<char>>)| categorical_labels(c)).flatten()
        + numerical.map_values(|c: (Seq<char>, Seq<Seq<char>>)| snake_label(c.0))
}

/// Where the labels of categorical column `i` start: the number of one-hot
/// columns of the categorical columns before it.
pub open spec fn label_offset(categorical: Seq<(Seq<char>, Seq<Seq<char>>)>, i: int) -> nat
    decreases i,
{
    if i <= 0 {
        0
    } else {
        label_offset(categorical, i - 1) + distinct_values(categorical[i - 1].1).len()
    }
}

proof fn lemma_offset_prefix(categorical: Seq<(Seq<char>, Seq<Seq<char>>)>, i: int)
    requires
        0 <= i < categorical.len(),
    ensures
        label_offset(categorical, i) == label_offset(categorical.drop_last(), i),
    decreases i,
{
    if i > 0 {
        lemma_offset_prefix(categorical, i - 1);
    }
}

proof fn lemma_offset_monotone(categorical: Seq<(Seq<char>, Seq<Seq<char>>)>, i: int, j: int)
    requires
        0 <= i <= j,
    ensures
        label_offset(categorical, i) <= label_offset(categorical, j),
    decreases j,
{
    if i < j {
        lemma_offset_monotone(categorical, i, j - 1);
    }
}

proof fn lemma_label_groups(categorical: Seq<(Seq<char>, Seq<Seq<char>>)>)
    ensures
        categorical.map_values(|c: (Seq<char>, Seq<Seq<char>>)| categorical_labels(c)).flatten().len()
            == label_offset(categorical, categorical.len() as int),
        forall|i: int, k: int| #![trigger label_offset(categorical, i), distinct_values(categorical[i].1)[k]]
            0 <= i < categorical.len() && 0 <= k < distinct_values(categorical[i].1).len() ==>
            categorical.map_values(|c: (Seq<char>, Seq<Seq<char>>)| categorical_labels(c)).flatten()[label_offset(categorical, i) + k]
                == snake_label(categorical[i].0) + seq!['_'] + snake_label(distinct_values(categorical[i].1)[k]),
    decreases categorical.len(),
{
    let groups = categorical.map_values(|c: (Seq<char>, Seq<Seq<char>>)| categorical_labels(c));
    if categorical.len() == 0 {
        assert(groups =~= Seq::<Seq<Seq<char>>>::empty());
    } else {
        let p = categorical.drop_last();
        let pg = p.map_values(|c: (Seq<char>, Seq<Seq<char>>)| categorical_labels(c));
        let last = categorical_labels(categorical.last());
        lemma_label_groups(p);
        assert(groups =~= pg.push(last));
        pg.lemma_flatten_push(last);
        let n = categorical.len() - 1;
        lemma_offset_prefix(categorical, n);
        assert forall|i: int, k: int| #![trigger label_offset(categorical, i), distinct_values(categorical[i].1)[k]]
            0 <= i < categorical.len() && 0 <= k < distinct_values(categorical[i].1).len() implies
            groups.flatten()[label_offset(categorical, i) + k]
                == snake_label(categorical[i].0) + seq!['_'] + snake_label(distinct_values(categorical[i].1)[k]) by {
            if i < n {
                lemma_offset_prefix(categorical, i);
                lemma_offset_prefix(categorical, i + 1);
                lemma_offset_monotone(p, i + 1, n);
                assert(p[i] == categorical[i]);
                assert(pg.flatten()[label_offset(p, i) + k] == snake_label(p[i].0) + seq!['_'] + snake_label(distinct_values(p[i].1)[k]));
            } else {
                assert(last[k] == snake_label(categorical[i].0) + seq!['_'] + snake_label(distinct_values(categorical[i].1)[k]));
            }
        }
    }
}

/// The feature labels come in the model's order: for categorical column `i`,
/// its `k`-th distinct answer is labelled at `label_offset(.., i) + k` with
/// that column's label, an underscore and the answer's label; after all of
/// them, numerical column `n` is labelled with its own label.
pub proof fn law_feature_labels_layout(
    categorical: Seq<(Seq<char>, Seq<Seq<char>>)>,
    numerical: Seq<(Seq<char>, Seq<Seq<char>>)>,
)
    ensures
        feature_labels(categorical, numerical).len() == label_offset(categorical, categorical.len() as int) + numerical.len(),
        forall|i: int, k: int| #![trigger label_offset(categorical, i), distinct_values(categorical[i].1)[k]]
            0 <= i < categorical.len() && 0 <= k < distinct_values(categorical[i].1).len() ==>
            feature_labels(categorical, numerical)[label_offset(categorical, i) + k]
                == snake_label(categorical[i].0) + seq!['_'] + snake_label(distinct_values(categorical[i].1)[k]),
        forall|n: int| 0 <= n < numerical.len() ==>
            #[trigger] feature_labels(categorical, numerical)[label_offset(categorical, categorical.len() as int) + n]
                == snake_label(numerical[n].0),
{
    lemma_label_groups(categorical);
    let cats = categorical.map_values(|c: (Seq<char>, Seq<Seq<char>>)| categorical_labels(c)).flatten();
    let nums = numerical.map_values(|c: (Seq<char>, Seq<Seq<char>>)| snake_label(c.0));
    assert forall|i: int, k: int| #![trigger label_offset(categorical, i), distinct_values(categorical[i].1)[k]]
        0 <= i < categorical.len() && 0 <= k < distinct_values(categorical[i].1).len() implies
        feature_labels(categorical, numerical)[label_offset(categorical, i) + k]
            == snake_label(categorical[i].0) + seq!['_'] + snake_label(distinct_values(categorical[i].1)[k]) by {
        lemma_offset_prefix(categorical, i);
        lemma_offset_monotone(categorical, i + 1, categorical.len() as int);
        assert(cats[label_offset(categorical, i) + k] == snake_label(categorical[i].0) + seq!['_'] + snake_label(distinct_values(categorical[i].1)[k]));
    }
}

/// The labels of the features of a locked configuration (see `feature_labels`).
pub fn feature_titles(lock: &ConfigurationLock) -> (r: Vec<String>)
    ensures
        r.deep_view() == feature_labels(lock@.categorical_columns, lock@.numerical_columns),
        r.len() == label_offset(lock@.categorical_columns, lock@.categorical_columns.len() as int) + lock@.numerical_columns.len(),
        forall|i: int, k: int| #![trigger label_offset(lock@.categorical_columns, i), distinct_values(lock@.categorical_columns[i].1)[k]]
            0 <= i < lock@.categorical_columns.len() && 0 <= k < distinct_values(lock@.categorical_columns[i].1).len() ==>
            r.deep_view()[label_offset(lock@.categorical_columns, i) + k]
                == snake_label(lock@.categorical_columns[i].0) + seq!['_'] + snake_label(distinct_values(lock@.categorical_columns[i].1)[k]),
        forall|n: int| 0 <= n < lock@.numerical_columns.len() ==>
            #[trigger] r.deep_view()[label_offset(lock@.categorical_columns, lock@.categorical_columns.len() as int) + n]
                == snake_label(lock@.numerical_columns[n].0),
{
    proof {
        law_feature_labels_layout(lock@.categorical_columns, lock@.numerical_columns);
    }
    let ghost cats = lock@.categorical_columns;
    let ghost groups = cats.map_values(|c: (Seq<char>, Seq<Seq<char>>)| categorical_labels(c));
    let mut out: Vec<String> = Vec::new();
    let mut i: usize = 0;
    while i < lock.categorical_columns.len()
        invariant
            i <= lock.categorical_columns.len(),
            cats == lock@.categorical_columns,
            groups == cats.map_values(|c: (Seq<char>, Seq<Seq<char>>)| categorical_labels(c)),
            out.deep_view() == groups.take(i as int).flatten(),
        decreases lock.categorical_columns.len() - i,
    {
        let column = &lock.categorical_columns[i];
        assert(cats[i as int] == named_column_view(*column));
        let name = to_snake_case_and_shorten(&column.0);
        let mut name_sep = name;
        push_char(&mut name_sep, '_');
        let one_hot = categorical_to_one_hot(&column.1);
        let ghost before = out.deep_view();
        let ghost group = categorical_labels(cats[i as int]);
        let mut k: usize = 0;
        while k < one_hot.len()
            invariant
                k <= one_hot.len(),
                one_hot@.len() == distinct_values(column.1.deep_view()).len(),
                forall|q: int| 0 <= q < one_hot@.len() ==> (#[trigger] one_hot@[q]).0@ == distinct_values(column.1.deep_view())[q],
                name_sep@ == snake_label(column.0@) + seq!['_'],
                group == categorical_labels(named_column_view(*column)),
                out.deep_view() == before + group.take(k as int),
            decreases one_hot.len() - k,
        {
            let label = to_snake_case_and_shorten(&one_hot[k].0);
            let title = concat_strings(&name_sep, &label);
            let ghost prev = out.deep_view();
            out.push(title);
            assert(out.deep_view() =~= prev.push(title@));
            assert(out.deep_view() =~= before + group.take(k + 1));
            k = k + 1;
        }
        assert(group.take(one_hot.len() as int) =~= group);
        assert(groups.take(i + 1) =~= groups.take(i as int).push(group));
        proof {
            groups.take(i as int).lemma_flatten_push(group);
        }
        i = i + 1;
    }
    assert(groups.take(lock.categorical_columns.len() as int) =~= groups);
    let ghost nums = lock@.numerical_columns;
    let ghost cat_part = out.deep_view();
    let mut n: usize = 0;
    while n < lock.numerical_columns.len()
        invariant
            n <= lock.numerical_columns.len(),
            nums == lock@.numerical_columns,
            out.deep_view() == cat_part + nums.map_values(|c: (Seq<char>, Seq<Seq<char>>)| snake_label(c.0)).take(n as int),
        decreases lock.numerical_columns.len() - n,
    {
        let column = &lock.numerical_columns[n];
        assert(nums[n as int] == named_column_view(*column));
        let label = to_snake_case_and_shorten(&column.0);
        let ghost prev = out.deep_view();
        out.push(label);
        assert(out.deep_view() =~= prev.push(label@));
        assert(out.deep_view() =~= cat_part + nums.map_values(|c: (Seq<char>, Seq<Seq<char>>)| snake_label(c.0)).take(n + 1));
        n = n + 1;
    }
    assert(nums.map_values(|c: (Seq<char>, Seq<Seq<char>>)| snake_label(c.0)).take(lock.numerical_columns.len() as int)
        =~= nums.map_values(|c: (Seq<char>, Seq<Seq<char>>)| snake_label(c.0)));
    out
}

} // verus!
