//! Ordering of named records: a stable sort by name, as `sort_by` on
//! `name.cmp(..)` gives, and the removal of consecutive repeats.
use vstd::prelude::*;

verus! {

/// Strict lexicographic order of two texts by character code. For UTF-8
/// strings this is the order of `String`'s `Ord`, which compares bytes:
/// UTF-8 encoding preserves the order of code points.
pub open spec fn lex_lt(a: Seq<char>, b: Seq<char>) -> bool
    decreases a.len(),
{
    if a.len() == 0 {
        b.len() > 0
    } else if b.len() == 0 {
        false
    } else if a[0] != b[0] {
        a[0] < b[0]
    } else {
        lex_lt(a.drop_first(), b.drop_first())
    }
}

/// `a < b` for two texts.
pub fn lex_lt_exec(a: &[char], b: &[char]) -> (r: bool)
    ensures
        r == lex_lt(a@, b@),
{
    let n = a.len();
    let m = b.len();
    let mut i: usize = 0;
    assert(a@.subrange(0, n as int) =~= a@);
    assert(b@.subrange(0, m as int) =~= b@);
    while i < n && i < m
        invariant
            i <= n,
            i <= m,
            n == a@.len(),
            m == b@.len(),
            lex_lt(a@, b@) == lex_lt(a@.subrange(i as int, n as int), b@.subrange(i as int, m as int)),
        decreases n - i,
    {
        let ghost sa = a@.subrange(i as int, n as int);
        let ghost sb = b@.subrange(i as int, m as int);
        assert(sa[0] == a@[i as int]);
        assert(sb[0] == b@[i as int]);
        if a[i] != b[i] {
            return a[i] < b[i];
        }
        assert(sa.drop_first() =~= a@.subrange(i as int + 1, n as int));
        assert(sb.drop_first() =~= b@.subrange(i as int + 1, m as int));
        i = i + 1;
    }
    let ghost sa = a@.subrange(i as int, n as int);
    let ghost sb = b@.subrange(i as int, m as int);
    if i == n {
        assert(sa.len() == 0);
        i < m
    } else {
        assert(sb.len() == 0);
        false
    }
}

/// A record with a name to be ordered by.
pub trait Named {
    spec fn key(&self) -> Seq<char>;

    fn key_chars(&self) -> (r: Vec<char>)
        ensures
            r@ == self.key(),
    ;
}

/// Where a stable insertion puts an element with name `k` into a sorted
/// list: after every element whose name is not greater than `k`.
pub open spec fn insert_pos<T: Named>(r: Seq<T>, k: Seq<char>) -> int
    decreases r.len(),
{
    if r.len() == 0 {
        0
    } else if lex_lt(k, r[0].key()) {
        0
    } else {
        1 + insert_pos(r.drop_first(), k)
    }
}

/// The stable sort of `s` by name (`sort_by(|a, b| a.name.cmp(&b.name))`):
/// each element, in order, is inserted after the equal or smaller names.
pub open spec fn sort_by_name<T: Named>(s: Seq<T>) -> Seq<T>
    decreases s.len(),
{
    if s.len() == 0 {
        s
    } else {
        let r = sort_by_name(s.drop_last());
        r.insert(insert_pos(r, s.last().key()), s.last())
    }
}

proof fn lemma_insert_pos<T: Named>(r: Seq<T>, k: Seq<char>, p: int)
    requires
        0 <= p <= r.len(),
        forall|q: int| 0 <= q < p ==> !lex_lt(k, #[trigger] r[q].key()),
        p == r.len() || lex_lt(k, r[p].key()),
    ensures
        insert_pos(r, k) == p,
        0 <= insert_pos(r, k) <= r.len(),
    decreases p,
{
    if p > 0 {
        assert(!lex_lt(k, r[0].key()));
        let t = r.drop_first();
        assert forall|q: int| 0 <= q < p - 1 implies !lex_lt(k, #[trigger] t[q].key()) by {
            assert(t[q] == r[q + 1]);
        }
        lemma_insert_pos(t, k, p - 1);
    }
}

proof fn lemma_sort_len<T: Named>(s: Seq<T>)
    ensures
        sort_by_name(s).len() == s.len(),
    decreases s.len(),
{
    if s.len() > 0 {
        lemma_sort_len(s.drop_last());
        let r = sort_by_name(s.drop_last());
        lemma_insert_pos_bounds(r, s.last().key());
    }
}

proof fn lemma_insert_pos_bounds<T: Named>(r: Seq<T>, k: Seq<char>)
    ensures
        0 <= insert_pos(r, k) <= r.len(),
    decreases r.len(),
{
    if r.len() > 0 && !lex_lt(k, r[0].key()) {
        lemma_insert_pos_bounds(r.drop_first(), k);
    }
}

/// Sorts by name, keeping the order of equal names.
pub fn sort_by_name_exec<T: Named>(v: Vec<T>) -> (r: Vec<T>)
    ensures
        r@ == sort_by_name(v@),
{
    let ghost s = v@;
    let n = v.len();
    let mut rest = v;
    let mut out: Vec<T> = Vec::new();
    let mut k: usize = 0;
    while k < n
        invariant
            k <= n,
            n == s.len(),
            rest@ == s.subrange(k as int, n as int),
            out@ == sort_by_name(s.subrange(0, k as int)),
        decreases n - k,
    {
        proof {
            lemma_sort_len(s.subrange(0, k as int));
        }
        let x = rest.remove(0);
        assert(x == s[k as int]);
        assert(rest@ =~= s.subrange(k as int + 1, n as int));
        let key = x.key_chars();
        let m = out.len();
        let mut p: usize = 0;
        while p < m && !lex_lt_exec(key.as_slice(), out[p].key_chars().as_slice())
            invariant
                p <= m,
                m == out@.len(),
                key@ == x.key(),
                forall|q: int| 0 <= q < p ==> !lex_lt(key@, #[trigger] out@[q].key()),
            decreases m - p,
        {
            p = p + 1;
        }
        proof {
            lemma_insert_pos(out@, key@, p as int);
            let t = s.subrange(0, k as int + 1);
            assert(t.drop_last() =~= s.subrange(0, k as int));
            assert(t.last() == x);
        }
        out.insert(p, x);
        k = k + 1;
    }
    assert(s.subrange(0, n as int) =~= s);
    out
}

/// No text precedes itself.
pub proof fn lemma_lex_irreflexive(a: Seq<char>)
    ensures
        !lex_lt(a, a),
    decreases a.len(),
{
    if a.len() > 0 {
        lemma_lex_irreflexive(a.drop_first());
    }
}

/// Of two different texts, one precedes the other.
pub proof fn lemma_lex_total(a: Seq<char>, b: Seq<char>)
    requires
        a != b,
    ensures
        lex_lt(a, b) || lex_lt(b, a),
    decreases a.len(),
{
    if a.len() > 0 && b.len() > 0 && a[0] == b[0] {
        if a.drop_first() == b.drop_first() {
            assert(a.drop_first().len() == b.drop_first().len());
            assert(a.len() == b.len());
            assert(a =~= b) by {
                assert forall|i: int| 0 <= i < a.len() implies a[i] == b[i] by {
                    if i > 0 {
                        assert(a[i] == a.drop_first()[i - 1]);
                        assert(b[i] == b.drop_first()[i - 1]);
                    }
                }
            }
        } else {
            lemma_lex_total(a.drop_first(), b.drop_first());
        }
    } else if a.len() == 0 && b.len() == 0 {
        assert(a =~= b);
    }
}

/// Precedence is transitive.
pub proof fn lemma_lex_transitive(a: Seq<char>, b: Seq<char>, c: Seq<char>)
    requires
        lex_lt(a, b),
        lex_lt(b, c),
    ensures
        lex_lt(a, c),
    decreases a.len(),
{
    if a.len() > 0 && b.len() > 0 && c.len() > 0 && a[0] == b[0] && b[0] == c[0] {
        lemma_lex_transitive(a.drop_first(), b.drop_first(), c.drop_first());
    }
}

/// Precedence is asymmetric.
pub proof fn lemma_lex_asymmetric(a: Seq<char>, b: Seq<char>)
    requires
        lex_lt(a, b),
    ensures
        !lex_lt(b, a),
{
    if lex_lt(b, a) {
        lemma_lex_transitive(a, b, a);
        lemma_lex_irreflexive(a);
    }
}

proof fn lemma_insert_pos_facts<T: Named>(r: Seq<T>, k: Seq<char>)
    ensures
        0 <= insert_pos(r, k) <= r.len(),
        forall|q: int| 0 <= q < insert_pos(r, k) ==> !lex_lt(k, #[trigger] r[q].key()),
        insert_pos(r, k) < r.len() ==> lex_lt(k, r[insert_pos(r, k)].key()),
    decreases r.len(),
{
    if r.len() > 0 && !lex_lt(k, r[0].key()) {
        let t = r.drop_first();
        lemma_insert_pos_facts(t, k);
        assert forall|q: int| 0 <= q < insert_pos(r, k) implies !lex_lt(k, #[trigger] r[q].key()) by {
            if q > 0 {
                assert(r[q] == t[q - 1]);
            }
        }
        if insert_pos(r, k) < r.len() {
            assert(r[insert_pos(r, k)] == t[insert_pos(t, k)]);
        }
    }
}

/// No name precedes an earlier one.
pub open spec fn sorted_by_name<T: Named>(r: Seq<T>) -> bool {
    forall|i: int, j: int| 0 <= i < j < r.len() ==> !lex_lt(#[trigger] r[j].key(), #[trigger] r[i].key())
}

/// Sorting by name keeps every record and puts the names in order.
pub proof fn lemma_sort_by_name<T: Named>(s: Seq<T>)
    ensures
        sorted_by_name(sort_by_name(s)),
        sort_by_name(s).to_multiset() == s.to_multiset(),
    decreases s.len(),
{
    broadcast use vstd::seq_lib::group_to_multiset_ensures;
    if s.len() > 0 {
        let d = s.drop_last();
        let x = s.last();
        lemma_sort_by_name(d);
        let r = sort_by_name(d);
        lemma_insert_pos_facts(r, x.key());
        let p = insert_pos(r, x.key());
        let n = r.insert(p, x);
        assert(s =~= d.push(x));
        assert(n.to_multiset() == r.to_multiset().insert(x));
        assert forall|i: int, j: int| 0 <= i < j < n.len() implies !lex_lt(#[trigger] n[j].key(), #[trigger] n[i].key()) by {
            if j < p {
                assert(n[i] == r[i] && n[j] == r[j]);
            } else if j == p {
                assert(n[i] == r[i] && n[j] == x);
            } else if i == p {
                assert(n[i] == x && n[j] == r[j - 1]);
                let a = r[p].key();
                assert(lex_lt(x.key(), a));
                if j - 1 > p {
                    assert(!lex_lt(r[j - 1].key(), a));
                    if lex_lt(r[j - 1].key(), x.key()) {
                        lemma_lex_transitive(r[j - 1].key(), x.key(), a);
                    }
                } else {
                    lemma_lex_asymmetric(x.key(), a);
                }
            } else if i < p {
                assert(n[i] == r[i] && n[j] == r[j - 1]);
            } else {
                assert(n[i] == r[i - 1] && n[j] == r[j - 1]);
            }
        }
    }
}

} // verus!
