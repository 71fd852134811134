//! Text order and the sorted list of distinct answers.
use vstd::prelude::*;
use crate::text::chars_of;

verus! {

/// `a` comes before `b` in the order of `String`: character by character by
/// code point, a proper prefix first.
pub open spec fn text_less(a: Seq<char>, b: Seq<char>) -> bool
    decreases a.len(),
{
    if a.len() == 0 {
        b.len() > 0
    } else if b.len() == 0 {
        false
    } else if a[0] != b[0] {
        a[0] < b[0]
    } else {
        text_less(a.drop_first(), b.drop_first())
    }
}

/// Every element of `s` comes before the ones after it.
pub open spec fn strictly_sorted(s: Seq<Seq<char>>) -> bool {
    forall|i: int, j: int| 0 <= i < j < s.len() ==> text_less(#[trigger] s[i], #[trigger] s[j])
}

pub proof fn lemma_text_less_irreflexive(a: Seq<char>)
    ensures
        !text_less(a, a),
    decreases a.len(),
{
    if a.len() > 0 {
        lemma_text_less_irreflexive(a.drop_first());
    }
}

pub proof fn lemma_text_less_transitive(a: Seq<char>, b: Seq<char>, c: Seq<char>)
    requires
        text_less(a, b),
        text_less(b, c),
    ensures
        text_less(a, c),
    decreases a.len(),
{
    if a.len() > 0 && b.len() > 0 && c.len() > 0 && a[0] == b[0] && b[0] == c[0] {
        lemma_text_less_transitive(a.drop_first(), b.drop_first(), c.drop_first());
    }
}

pub proof fn lemma_text_less_total(a: Seq<char>, b: Seq<char>)
    requires
        a != b,
    ensures
        text_less(a, b) || text_less(b, a),
    decreases a.len(),
{
    if a.len() > 0 && b.len() > 0 {
        if a[0] == b[0] {
            if a.drop_first() == b.drop_first() {
                assert(a =~= seq![a[0]] + a.drop_first());
                assert(b =~= seq![b[0]] + b.drop_first());
            }
            lemma_text_less_total(a.drop_first(), b.drop_first());
        } else {
        }
    } else if a.len() == 0 && b.len() == 0 {
        assert(a =~= b);
    }
}

pub proof fn lemma_text_less_asymmetric(a: Seq<char>, b: Seq<char>)
    requires
        text_less(a, b),
    ensures
        !text_less(b, a),
{
    if text_less(b, a) {
        lemma_text_less_transitive(a, b, a);
        lemma_text_less_irreflexive(a);
    }
}

/// Two strictly increasing sequences with the same elements are equal.
pub proof fn lemma_sorted_same_contents_equal(a: Seq<Seq<char>>, b: Seq<Seq<char>>)
    requires
        strictly_sorted(a),
        strictly_sorted(b),
        forall|v: Seq<char>| a.contains(v) <==> b.contains(v),
    ensures
        a == b,
    decreases a.len() + b.len(),
{
    if a.len() == 0 || b.len() == 0 {
        if a.len() > 0 {
            assert(a.contains(a[0]));
        }
        if b.len() > 0 {
            assert(b.contains(b[0]));
        }
        assert(a =~= b);
    } else {
        assert(a.contains(a[0]));
        assert(b.contains(b[0]));
        let i = choose|i: int| 0 <= i < b.len() && b[i] == a[0];
        let j = choose|j: int| 0 <= j < a.len() && a[j] == b[0];
        if i > 0 {
            assert(text_less(b[0], b[i]));
            if j > 0 {
                assert(text_less(a[0], a[j]));
                lemma_text_less_asymmetric(a[0], b[0]);
            } else {
                lemma_text_less_irreflexive(b[0]);
            }
        }
        assert(a[0] == b[0]);
        let ra = a.drop_first();
        let rb = b.drop_first();
        assert forall|v: Seq<char>| ra.contains(v) <==> rb.contains(v) by {
            if ra.contains(v) {
                let k = choose|k: int| 0 <= k < ra.len() && ra[k] == v;
                assert(a[k + 1] == v);
                assert(text_less(a[0], v));
                lemma_text_less_irreflexive(v);
                assert(b.contains(v));
                let q = choose|q: int| 0 <= q < b.len() && b[q] == v;
                assert(q != 0);
                assert(rb[q - 1] == v);
            }
            if rb.contains(v) {
                let k = choose|k: int| 0 <= k < rb.len() && rb[k] == v;
                assert(b[k + 1] == v);
                assert(text_less(b[0], v));
                lemma_text_less_irreflexive(v);
                assert(a.contains(v));
                let q = choose|q: int| 0 <= q < a.len() && a[q] == v;
                assert(q != 0);
                assert(ra[q - 1] == v);
            }
        }
        assert(strictly_sorted(ra)) by {
            assert forall|x: int, y: int| 0 <= x < y < ra.len() implies text_less(#[trigger] ra[x], #[trigger] ra[y]) by {
                assert(ra[x] == a[x + 1] && ra[y] == a[y + 1]);
            }
        }
        assert(strictly_sorted(rb)) by {
            assert forall|x: int, y: int| 0 <= x < y < rb.len() implies text_less(#[trigger] rb[x], #[trigger] rb[y]) by {
                assert(rb[x] == b[x + 1] && rb[y] == b[y + 1]);
            }
        }
        lemma_sorted_same_contents_equal(ra, rb);
        assert(a =~= seq![a[0]] + ra);
        assert(b =~= seq![b[0]] + rb);
    }
}

/// Compares two strings in the order of `String`.
pub fn string_less(a: &String, b: &String) -> (r: bool)
    ensures
        r == text_less(a@, b@),
{
    let x = chars_of(a.as_str());
    let y = chars_of(b.as_str());
    let mut i: usize = 0;
    assert(x@.skip(0) =~= x@);
    assert(y@.skip(0) =~= y@);
    while i < x.len() && i < y.len()
        invariant
            i <= x.len(),
            i <= y.len(),
            x@ == a@,
            y@ == b@,
            text_less(a@, b@) == text_less(x@.skip(i as int), y@.skip(i as int)),
        decreases x.len() - i,
    {
        assert(x@.skip(i as int)[0] == x@[i as int]);
        assert(y@.skip(i as int)[0] == y@[i as int]);
        if x[i] != y[i] {
            return x[i] < y[i];
        }
        assert(x@.skip(i as int).drop_first() =~= x@.skip(i + 1));
        assert(y@.skip(i as int).drop_first() =~= y@.skip(i + 1));
        i = i + 1;
    }
    i == x.len() && i < y.len()
}

/// The distinct values of `entries` in increasing order.
pub fn sorted_distinct(entries: &Vec<String>) -> (r: Vec<String>)
    ensures
        strictly_sorted(r.deep_view()),
        forall|v: Seq<char>| r.deep_view().contains(v) <==> entries.deep_view().contains(v),
{
    let ghost deep = entries.deep_view();
    let mut out: Vec<String> = Vec::new();
    let mut i: usize = 0;
    while i < entries.len()
        invariant
            i <= entries.len(),
            deep == entries.deep_view(),
            strictly_sorted(out.deep_view()),
            forall|v: Seq<char>| out.deep_view().contains(v) <==> deep.take(i as int).contains(v),
        decreases entries.len() - i,
    {
        let e = &entries[i];
        assert(deep.take(i + 1) =~= deep.take(i as int).push(e@));
        let mut p: usize = 0;
        while p < out.len() && string_less(&out[p], e)
            invariant
                p <= out.len(),
                forall|k: int| 0 <= k < p ==> text_less(out.deep_view()[k], e@),
            decreases out.len() - p,
        {
            p = p + 1;
        }
        let ghost before = out.deep_view();
        if p < out.len() && out[p] == *e {
        } else {
            proof {
                if p < out.len() {
                    lemma_text_less_total(before[p as int], e@);
                    assert(text_less(e@, before[p as int]));
                }
            }
            out.insert(p, e.clone());
            assert(out.deep_view() =~= before.insert(p as int, e@));
            assert forall|a: int, b: int| 0 <= a < b < out.deep_view().len() implies
                text_less(#[trigger] out.deep_view()[a], #[trigger] out.deep_view()[b]) by {
                let s = out.deep_view();
                if a < p && b == p {
                } else if a < p && b > p {
                    assert(s[b] == before[b - 1]);
                } else if a == p && b > p {
                    assert(s[b] == before[b - 1]);
                    if b - 1 > p {
                        lemma_text_less_transitive(e@, before[p as int], before[b - 1]);
                    }
                } else if a > p {
                    assert(s[a] == before[a - 1] && s[b] == before[b - 1]);
                }
            }
        }
        let ghost nxt = deep.take(i + 1);
        let ghost cur = deep.take(i as int);
        assert forall|v: Seq<char>| out.deep_view().contains(v) <==> nxt.contains(v) by {
            let s = out.deep_view();
            if s.contains(v) {
                let k = choose|k: int| 0 <= k < s.len() && s[k] == v;
                if v != e@ {
                    if !(p < before.len() && before[p as int] == e@) {
                        if k < p {
                            assert(before[k] == v);
                        } else {
                            assert(before[k - 1] == v);
                        }
                    }
                    assert(before.contains(v));
                    assert(cur.contains(v));
                    let q = choose|q: int| 0 <= q < i && cur[q] == v;
                    assert(nxt[q] == v);
                } else {
                    assert(nxt[i as int] == v);
                }
            }
            if nxt.contains(v) {
                let q = choose|q: int| 0 <= q < i + 1 && nxt[q] == v;
                if q < i {
                    assert(cur[q] == v);
                    assert(before.contains(v));
                    let k = choose|k: int| 0 <= k < before.len() && before[k] == v;
                    if !(p < before.len() && before[p as int] == e@) {
                        if k < p {
                            assert(s[k] == v);
                        } else {
                            assert(s[k + 1] == v);
                        }
                    }
                } else {
                    if p < before.len() && before[p as int] == e@ {
                        assert(s[p as int] == v);
                    } else {
                        assert(s[p as int] == v);
                    }
                }
            }
        }
        i = i + 1;
    }
    assert(deep.take(entries.len() as int) =~= deep);
    out
}

} // verus!
