use vstd::prelude::*;
use crate::text::views;

verus! {

/// `a` comes no later than `b` in character-code order.
pub open spec fn text_le(a: Seq<char>, b: Seq<char>) -> bool
    decreases a.len(),
{
    if a.len() == 0 {
        true
    } else if b.len() == 0 {
        false
    } else if a[0] as u32 != b[0] as u32 {
        (a[0] as u32) < (b[0] as u32)
    } else {
        text_le(a.drop_first(), b.drop_first())
    }
}

/// Every text comes no later than each text after it.
pub open spec fn ordered(s: Seq<Seq<char>>) -> bool {
    forall|i: int, j: int| 0 <= i < j < s.len() ==> text_le(#[trigger] s[i], #[trigger] s[j])
}

pub proof fn lemma_text_le_total(a: Seq<char>, b: Seq<char>)
    ensures
        text_le(a, b) || text_le(b, a),
    decreases a.len(),
{
    if a.len() > 0 && b.len() > 0 && a[0] as u32 == b[0] as u32 {
        lemma_text_le_total(a.drop_first(), b.drop_first());
    }
}

proof fn lemma_char_code_injective(x: char, y: char)
    requires
        x as u32 == y as u32,
    ensures
        x == y,
{
}

pub proof fn lemma_text_le_antisymmetric(a: Seq<char>, b: Seq<char>)
    requires
        text_le(a, b),
        text_le(b, a),
    ensures
        a == b,
    decreases a.len(),
{
    if a.len() > 0 && b.len() > 0 {
        assert(a[0] as u32 == b[0] as u32);
        lemma_char_code_injective(a[0], b[0]);
        lemma_text_le_antisymmetric(a.drop_first(), b.drop_first());
        assert(a =~= seq![a[0]] + a.drop_first());
        assert(b =~= seq![b[0]] + b.drop_first());
    } else {
        assert(a.len() == 0 && b.len() == 0);
        assert(a =~= b);
    }
}

pub proof fn lemma_text_le_transitive(a: Seq<char>, b: Seq<char>, c: Seq<char>)
    requires
        text_le(a, b),
        text_le(b, c),
    ensures
        text_le(a, c),
    decreases a.len(),
{
    if a.len() > 0 && b.len() > 0 && c.len() > 0 && a[0] as u32 == b[0] as u32 && b[0] as u32
        == c[0] as u32 {
        lemma_text_le_transitive(a.drop_first(), b.drop_first(), c.drop_first());
    }
}

/// Two ordered sequences without duplicates that hold the same texts are equal.
pub proof fn lemma_ordered_unique(s: Seq<Seq<char>>, t: Seq<Seq<char>>)
    requires
        ordered(s),
        ordered(t),
        s.no_duplicates(),
        t.no_duplicates(),
        forall|q: Seq<char>| s.contains(q) <==> t.contains(q),
    ensures
        s == t,
    decreases s.len(),
{
    if s.len() == 0 {
        if t.len() > 0 {
            assert(t.contains(t[0]));
        }
        assert(s =~= t);
    } else {
        assert(s.contains(s[0]));
        assert(t.len() > 0);
        assert(t.contains(t[0]));
        let j = choose|j: int| 0 <= j < t.len() && t[j] == s[0];
        let k = choose|k: int| 0 <= k < s.len() && s[k] == t[0];
        if j > 0 && k > 0 {
            assert(text_le(t[0], t[j]));
            assert(text_le(s[0], s[k]));
            lemma_text_le_antisymmetric(s[0], t[0]);
        }
        assert(s[0] == t[0]);
        let s1 = s.drop_first();
        let t1 = t.drop_first();
        assert forall|i: int, j2: int| 0 <= i < j2 < s1.len() implies text_le(
            #[trigger] s1[i],
            #[trigger] s1[j2],
        ) by {
            assert(s1[i] == s[i + 1] && s1[j2] == s[j2 + 1]);
        }
        assert forall|i: int, j2: int| 0 <= i < j2 < t1.len() implies text_le(
            #[trigger] t1[i],
            #[trigger] t1[j2],
        ) by {
            assert(t1[i] == t[i + 1] && t1[j2] == t[j2 + 1]);
        }
        assert forall|q: Seq<char>| s1.contains(q) <==> t1.contains(q) by {
            if s1.contains(q) {
                let i = choose|i: int| 0 <= i < s1.len() && s1[i] == q;
                assert(s[i + 1] == q);
                assert(q != s[0]);
                assert(t.contains(q));
                let i2 = choose|i2: int| 0 <= i2 < t.len() && t[i2] == q;
                assert(i2 != 0);
                assert(t1[i2 - 1] == q);
            }
            if t1.contains(q) {
                let i = choose|i: int| 0 <= i < t1.len() && t1[i] == q;
                assert(t[i + 1] == q);
                assert(q != t[0]);
                assert(s.contains(q));
                let i2 = choose|i2: int| 0 <= i2 < s.len() && s[i2] == q;
                assert(i2 != 0);
                assert(s1[i2 - 1] == q);
            }
        }
        lemma_ordered_unique(s1, t1);
        assert(s =~= seq![s[0]] + s1);
        assert(t =~= seq![t[0]] + t1);
    }
}

/// Whether `a` comes no later than `b`.
pub fn le_text(a: &str, b: &str) -> (r: bool)
    ensures
        r == text_le(a@, b@),
{
    let n = a.unicode_len();
    let m = b.unicode_len();
    let mut i: usize = 0;
    assert(a@.skip(0) =~= a@);
    assert(b@.skip(0) =~= b@);
    while i < n && i < m
        invariant
            n == a@.len(),
            m == b@.len(),
            i <= n,
            i <= m,
            text_le(a@, b@) == text_le(a@.skip(i as int), b@.skip(i as int)),
        decreases n - i,
    {
        let x = a.get_char(i);
        let y = b.get_char(i);
        assert(a@.skip(i as int)[0] == x);
        assert(b@.skip(i as int)[0] == y);
        if x as u32 != y as u32 {
            return (x as u32) < (y as u32);
        }
        assert(a@.skip(i as int).drop_first() =~= a@.skip(i as int + 1));
        assert(b@.skip(i as int).drop_first() =~= b@.skip(i as int + 1));
        i = i + 1;
    }
    n <= i
}

/// Places `x` before the first item of `s` that it comes before.
pub fn insert_ordered(s: &mut Vec<String>, x: String)
    requires
        ordered(views(old(s)@)),
    ensures
        ordered(views(final(s)@)),
        views(final(s)@).to_multiset() == views(old(s)@).to_multiset().insert(x@),
        forall|q: Seq<char>|
            views(final(s)@).contains(q) <==> (views(old(s)@).contains(q) || q == x@),
        views(old(s)@).no_duplicates() && !views(old(s)@).contains(x@) ==> views(
            final(s)@,
        ).no_duplicates(),
{
    let ghost before = views(s@);
    let mut i: usize = 0;
    while i < s.len() && le_text(s[i].as_str(), x.as_str())
        invariant
            views(s@) == before,
            i <= s.len(),
            forall|k: int| 0 <= k < i ==> text_le(#[trigger] before[k], x@),
        decreases s.len() - i,
    {
        assert(before[i as int] == s@[i as int]@);
        i = i + 1;
    }
    let ghost xv = x@;
    s.insert(i, x);
    assert(views(s@) =~= before.insert(i as int, xv));
    proof {
        let after = views(s@);
        if i < before.len() {
            lemma_text_le_total(before[i as int], xv);
        }
        assert forall|k: int, l: int| 0 <= k < l < after.len() implies text_le(
            #[trigger] after[k],
            #[trigger] after[l],
        ) by {
            if l < i {
                assert(after[k] == before[k] && after[l] == before[l]);
            } else if l == i {
                assert(after[k] == before[k]);
            } else if k == i {
                assert(after[l] == before[l - 1]);
                if l - 1 > i {
                    assert(text_le(before[i as int], before[l - 1]));
                    lemma_text_le_transitive(xv, before[i as int], before[l - 1]);
                }
            } else if k < i {
                assert(after[k] == before[k] && after[l] == before[l - 1]);
            } else {
                assert(after[k] == before[k - 1] && after[l] == before[l - 1]);
            }
        }
        assert forall|q: Seq<char>| after.contains(q) <==> (before.contains(q) || q == xv) by {
            if before.contains(q) {
                let k = choose|k: int| 0 <= k < before.len() && before[k] == q;
                if k < i {
                    assert(after[k] == q);
                } else {
                    assert(after[k + 1] == q);
                }
            }
            if q == xv {
                assert(after[i as int] == q);
            }
            if after.contains(q) && q != xv {
                let k = choose|k: int| 0 <= k < after.len() && after[k] == q;
                if k < i {
                    assert(before[k] == q);
                } else {
                    assert(before[k - 1] == q);
                }
            }
        }
        if before.no_duplicates() && !before.contains(xv) {
            assert forall|k: int, l: int| 0 <= k < l < after.len() implies after[k] != after[l] by {
                if k == i {
                    assert(after[l] == before[l - 1]);
                } else if l == i {
                    assert(after[k] == before[k]);
                } else {
                    let k2 = if k < i { k } else { k - 1 };
                    let l2 = if l < i { l } else { l - 1 };
                    assert(after[k] == before[k2] && after[l] == before[l2]);
                }
            }
        }
        assert(after.remove(i as int) =~= before);
        broadcast use vstd::seq_lib::group_to_multiset_ensures;
        assert(after[i as int] == xv);
        assert(after.to_multiset().count(xv) > 0);
        assert(before.to_multiset() =~= after.to_multiset().remove(xv));
        assert(after.to_multiset() =~= before.to_multiset().insert(xv));
    }
}

} // verus!
