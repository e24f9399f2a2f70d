//! Reading order of an archive's pages: image entries sorted by lower-cased name,
//! ties kept in archive order.
use vstd::prelude::*;
use crate::text::{ends_with, ends_with_chars};

verus! {

/// Strict lexicographic order of character sequences, by code point.
pub open spec fn lex_lt(a: Seq<char>, b: Seq<char>) -> bool
    decreases a.len(),
{
    if a.len() == 0 {
        b.len() > 0
    } else if b.len() == 0 {
        false
    } else if a[0] == b[0] {
        lex_lt(a.drop_first(), b.drop_first())
    } else {
        (a[0] as int) < (b[0] as int)
    }
}

/// A lower-cased entry name that denotes a page image.
pub open spec fn is_image_name(lower: Seq<char>) -> bool {
    ends_with(lower, ".jpg"@) || ends_with(lower, ".png"@)
}

/// Entry `i` comes before entry `j`: by key, then by position in the archive.
pub open spec fn entry_before(keys: Seq<Seq<char>>, i: int, j: int) -> bool {
    lex_lt(keys[i], keys[j]) || (keys[i] == keys[j] && i < j)
}

/// `ord` lists, in strictly increasing order of `entry_before`, the image entries among `keys`.
pub open spec fn is_page_order(keys: Seq<Seq<char>>, ord: Seq<int>) -> bool {
    &&& forall|p: int, q: int| 0 <= p < q < ord.len() ==> entry_before(keys, ord[p], ord[q])
    &&& forall|k: int| ord.contains(k) <==> (0 <= k < keys.len() && is_image_name(keys[k]))
}

pub proof fn lemma_lex_irreflexive(a: Seq<char>)
    ensures
        !lex_lt(a, a),
    decreases a.len(),
{
    if a.len() > 0 {
        lemma_lex_irreflexive(a.drop_first());
    }
}

pub proof fn lemma_lex_transitive(a: Seq<char>, b: Seq<char>, c: Seq<char>)
    requires
        lex_lt(a, b),
        lex_lt(b, c),
    ensures
        lex_lt(a, c),
    decreases a.len(),
{
    if a.len() > 0 && b.len() > 0 && c.len() > 0 && a[0] == b[0] && b[0] == c[0] {
        lemma_lex_transitive(a.drop_first(), b.drop_first(), c.drop_first());
    }
}

pub proof fn lemma_lex_total(a: Seq<char>, b: Seq<char>)
    requires
        a != b,
    ensures
        lex_lt(a, b) || lex_lt(b, a),
    decreases a.len(),
{
    if a.len() > 0 && b.len() > 0 {
        if a[0] == b[0] {
            if a.drop_first() == b.drop_first() {
                assert(a =~= seq![a[0]] + a.drop_first());
                assert(b =~= seq![b[0]] + b.drop_first());
            }
            lemma_lex_total(a.drop_first(), b.drop_first());
        } else {
            assert((a[0] as int) != (b[0] as int));
        }
    } else if a.len() == 0 && b.len() == 0 {
        assert(a =~= b);
    }
}

pub proof fn lemma_before_irreflexive(keys: Seq<Seq<char>>, i: int)
    ensures
        !entry_before(keys, i, i),
{
    lemma_lex_irreflexive(keys[i]);
}

pub proof fn lemma_before_transitive(keys: Seq<Seq<char>>, i: int, j: int, k: int)
    requires
        entry_before(keys, i, j),
        entry_before(keys, j, k),
    ensures
        entry_before(keys, i, k),
{
    if lex_lt(keys[i], keys[j]) && lex_lt(keys[j], keys[k]) {
        lemma_lex_transitive(keys[i], keys[j], keys[k]);
    }
}

pub proof fn lemma_before_total(keys: Seq<Seq<char>>, i: int, j: int)
    requires
        i != j,
    ensures
        entry_before(keys, i, j) || entry_before(keys, j, i),
{
    if keys[i] != keys[j] {
        lemma_lex_total(keys[i], keys[j]);
    }
}

pub proof fn lemma_before_asymmetric(keys: Seq<Seq<char>>, i: int, j: int)
    requires
        entry_before(keys, i, j),
    ensures
        !entry_before(keys, j, i),
{
    if entry_before(keys, j, i) {
        lemma_before_transitive(keys, i, j, i);
        lemma_before_irreflexive(keys, i);
    }
}

proof fn lemma_sorted_unique(keys: Seq<Seq<char>>, o1: Seq<int>, o2: Seq<int>)
    requires
        forall|p: int, q: int| 0 <= p < q < o1.len() ==> entry_before(keys, o1[p], o1[q]),
        forall|p: int, q: int| 0 <= p < q < o2.len() ==> entry_before(keys, o2[p], o2[q]),
        forall|k: int| o1.contains(k) <==> o2.contains(k),
    ensures
        o1 == o2,
    decreases o1.len(),
{
    if o1.len() == 0 {
        if o2.len() > 0 {
            assert(o2.contains(o2[0]));
        }
        assert(o1 =~= o2);
    } else {
        assert(o1.contains(o1[0]));
        assert(o2.len() > 0);
        assert(o2.contains(o2[0]));
        if o1[0] != o2[0] {
            let i = choose|i: int| 0 <= i < o1.len() && o1[i] == o2[0];
            let j = choose|j: int| 0 <= j < o2.len() && o2[j] == o1[0];
            assert(i > 0 && j > 0);
            assert(entry_before(keys, o1[0], o2[0]));
            assert(entry_before(keys, o2[0], o1[0]));
            lemma_before_asymmetric(keys, o1[0], o2[0]);
        }
        let t1 = o1.drop_first();
        let t2 = o2.drop_first();
        assert forall|k: int| t1.contains(k) <==> t2.contains(k) by {
            if t1.contains(k) {
                let p = choose|p: int| 0 <= p < t1.len() && t1[p] == k;
                assert(o1[p + 1] == k);
                assert(o2.contains(k));
                lemma_before_irreflexive(keys, k);
                let q = choose|q: int| 0 <= q < o2.len() && o2[q] == k;
                assert(q != 0);
                assert(t2[q - 1] == k);
            }
            if t2.contains(k) {
                let p = choose|p: int| 0 <= p < t2.len() && t2[p] == k;
                assert(o2[p + 1] == k);
                assert(o1.contains(k));
                lemma_before_irreflexive(keys, k);
                let q = choose|q: int| 0 <= q < o1.len() && o1[q] == k;
                assert(q != 0);
                assert(t1[q - 1] == k);
            }
        }
        assert forall|p: int, q: int| 0 <= p < q < t1.len() implies entry_before(
            keys,
            t1[p],
            t1[q],
        ) by {
            assert(entry_before(keys, o1[p + 1], o1[q + 1]));
        }
        assert forall|p: int, q: int| 0 <= p < q < t2.len() implies entry_before(
            keys,
            t2[p],
            t2[q],
        ) by {
            assert(entry_before(keys, o2[p + 1], o2[q + 1]));
        }
        lemma_sorted_unique(keys, t1, t2);
        assert(o1 =~= seq![o1[0]] + t1);
        assert(o2 =~= seq![o2[0]] + t2);
    }
}

/// The reading order of an archive is determined by its entry names alone: any two
/// orders that meet the page-order condition for the same keys are the same sequence.
pub proof fn lemma_page_order_unique(keys: Seq<Seq<char>>, o1: Seq<int>, o2: Seq<int>)
    requires
        is_page_order(keys, o1),
        is_page_order(keys, o2),
    ensures
        o1 == o2,
{
    lemma_sorted_unique(keys, o1, o2);
}

/// Whether `a` comes strictly before `b` in code-point order.
pub fn lex_less(a: &Vec<char>, b: &Vec<char>) -> (r: bool)
    ensures
        r == lex_lt(a@, b@),
{
    let mut i: usize = 0;
    assert(a@.subrange(0, a.len() as int) =~= a@);
    assert(b@.subrange(0, b.len() as int) =~= b@);
    while i < a.len() && i < b.len()
        invariant
            i <= a.len(),
            i <= b.len(),
            lex_lt(a@, b@) == lex_lt(a@.subrange(i as int, a.len() as int), b@.subrange(i as int, b.len() as int)),
        decreases a.len() - i,
    {
        let sa = Ghost(a@.subrange(i as int, a.len() as int));
        let sb = Ghost(b@.subrange(i as int, b.len() as int));
        if a[i] != b[i] {
            assert(sa@[0] == a@[i as int] && sb@[0] == b@[i as int]);
            return a[i] < b[i];
        }
        assert(sa@.drop_first() =~= a@.subrange(i + 1, a.len() as int));
        assert(sb@.drop_first() =~= b@.subrange(i + 1, b.len() as int));
        i += 1;
    }
    assert(a@.subrange(i as int, a.len() as int).len() == a.len() - i);
    i == a.len() && i < b.len()
}

pub fn is_image_chars(lower: &Vec<char>) -> (r: bool)
    ensures
        r == is_image_name(lower@),
{
    let jpg: Vec<char> = vec!['.', 'j', 'p', 'g'];
    let png: Vec<char> = vec!['.', 'p', 'n', 'g'];
    proof {
        reveal_strlit(".jpg");
        reveal_strlit(".png");
        assert(jpg@ =~= ".jpg"@);
        assert(png@ =~= ".png"@);
    }
    ends_with_chars(lower, &jpg) || ends_with_chars(lower, &png)
}

pub open spec fn key_views(keys: Seq<Vec<char>>) -> Seq<Seq<char>> {
    keys.map_values(|v: Vec<char>| v@)
}

pub open spec fn index_view(ord: Seq<usize>) -> Seq<int> {
    ord.map_values(|i: usize| i as int)
}

/// Puts entry `k`, which follows every entry of `ord` in the archive, into its place in `ord`.
pub fn insert_in_order(keys: &Vec<Vec<char>>, ord: &mut Vec<usize>, k: usize)
    requires
        k < keys.len(),
        forall|p: int| 0 <= p < old(ord).len() ==> old(ord)@[p] < k,
        forall|p: int, q: int|
            0 <= p < q < old(ord).len() ==> entry_before(key_views(keys@), old(ord)@[p] as int, old(ord)@[q] as int),
    ensures
        final(ord).len() == old(ord).len() + 1,
        forall|x: int| index_view(final(ord)@).contains(x) <==> (index_view(old(ord)@).contains(x) || x == k),
        forall|p: int| 0 <= p < final(ord).len() ==> final(ord)@[p] <= k,
        forall|p: int, q: int|
            0 <= p < q < final(ord).len() ==> entry_before(key_views(keys@), final(ord)@[p] as int, final(ord)@[q] as int),
{
    let ghost kv = key_views(keys@);
    let mut p: usize = 0;
    while p < ord.len() && !lex_less(&keys[k], &keys[ord[p]])
        invariant
            p <= ord.len(),
            ord@ == old(ord)@,
            k < keys.len(),
            kv == key_views(keys@),
            forall|x: int| 0 <= x < ord.len() ==> ord@[x] < k,
            forall|x: int| 0 <= x < p ==> entry_before(kv, ord@[x] as int, k as int),
        decreases ord.len() - p,
    {
        assert(kv[k as int] == keys@[k as int]@);
        assert(kv[ord@[p as int] as int] == keys@[ord@[p as int] as int]@);
        proof {
            lemma_before_total(kv, ord@[p as int] as int, k as int);
        }
        p += 1;
    }
    if p < ord.len() {
        assert(kv[k as int] == keys@[k as int]@);
        assert(kv[ord@[p as int] as int] == keys@[ord@[p as int] as int]@);
        assert(entry_before(kv, k as int, ord@[p as int] as int));
    }
    let ghost before = ord@;
    assert forall|x: int| p <= x < before.len() implies entry_before(kv, k as int, before[x] as int) by {
        if x > p {
            lemma_before_transitive(kv, k as int, before[p as int] as int, before[x] as int);
        }
    }
    ord.insert(p, k);
    assert(ord@ =~= before.insert(p as int, k));
    assert forall|x: int| index_view(ord@).contains(x) <==> (index_view(before).contains(x) || x == k) by {
        if index_view(ord@).contains(x) {
            let q = choose|q: int| 0 <= q < ord.len() && index_view(ord@)[q] == x;
            if q < p {
                assert(index_view(before)[q] == x);
            } else if q > p {
                assert(index_view(before)[q - 1] == x);
            }
        }
        if index_view(before).contains(x) {
            let q = choose|q: int| 0 <= q < before.len() && index_view(before)[q] == x;
            if q < p {
                assert(index_view(ord@)[q] == x);
            } else {
                assert(index_view(ord@)[q + 1] == x);
            }
        }
        if x == k {
            assert(index_view(ord@)[p as int] == x);
        }
    }
}

} // verus!
