use vstd::prelude::*;

verus! {

broadcast use vstd::seq_lib::group_to_multiset_ensures;

/// An entry as ranking sees it: its key (a path or an extension) and its size.
pub type Ranked = (Seq<char>, u64);

/// An entry with a key and a size in bytes.
pub trait SizedEntry: Sized {
    spec fn rank_view(&self) -> Ranked;

    fn size_of(&self) -> (r: u64)
        ensures
            r == self.rank_view().1,
    ;
}

pub open spec fn ranked<T: SizedEntry>(s: Seq<T>) -> Seq<Ranked> {
    s.map_values(|e: T| e.rank_view())
}

/// Inserts `x` after every leading entry at least as large, so that it
/// follows the entries of equal size already present.
pub open spec fn insert_desc(s: Seq<Ranked>, x: Ranked) -> Seq<Ranked>
    decreases s.len(),
{
    if s.len() == 0 {
        seq![x]
    } else if s[0].1 >= x.1 {
        seq![s[0]] + insert_desc(s.drop_first(), x)
    } else {
        seq![x] + s
    }
}

/// The stable sort of `s` by descending size: equal sizes keep the order in
/// which they appear in `s`.
pub open spec fn sort_desc(s: Seq<Ranked>) -> Seq<Ranked>
    decreases s.len(),
{
    if s.len() == 0 {
        Seq::empty()
    } else {
        insert_desc(sort_desc(s.drop_last()), s.last())
    }
}

pub open spec fn min_nat(a: nat, b: nat) -> nat {
    if a < b {
        a
    } else {
        b
    }
}

/// The `k` largest entries of `s` by size, largest first, equal sizes in the
/// order of `s`.
pub open spec fn top_k(s: Seq<Ranked>, k: nat) -> Seq<Ranked> {
    sort_desc(s).take(min_nat(k, s.len()) as int)
}

pub open spec fn sorted_desc(s: Seq<Ranked>) -> bool {
    forall|i: int, j: int| 0 <= i < j < s.len() ==> s[i].1 >= s[j].1
}

/// The sum of the sizes in `s`.
pub open spec fn sum_sizes(s: Seq<Ranked>) -> int
    decreases s.len(),
{
    if s.len() == 0 {
        0
    } else {
        s[0].1 + sum_sizes(s.drop_first())
    }
}

/// The number of leading entries of `s` whose size is at least `v`.
pub open spec fn insert_pos(s: Seq<Ranked>, v: u64) -> nat
    decreases s.len(),
{
    if s.len() == 0 {
        0
    } else if s[0].1 >= v {
        1 + insert_pos(s.drop_first(), v)
    } else {
        0
    }
}

pub proof fn lemma_insert_pos(s: Seq<Ranked>, v: u64)
    ensures
        insert_pos(s, v) <= s.len(),
        forall|j: int| 0 <= j < insert_pos(s, v) ==> s[j].1 >= v,
        insert_pos(s, v) < s.len() ==> s[insert_pos(s, v) as int].1 < v,
    decreases s.len(),
{
    if s.len() > 0 && s[0].1 >= v {
        lemma_insert_pos(s.drop_first(), v);
        assert forall|j: int| 0 <= j < insert_pos(s, v) implies s[j].1 >= v by {
            if j > 0 {
                assert(s[j] == s.drop_first()[j - 1]);
            }
        }
    }
}

/// A scan that stops at the first entry smaller than `v` finds `insert_pos`.
pub proof fn lemma_insert_pos_scan(s: Seq<Ranked>, v: u64, p: int)
    requires
        0 <= p <= s.len(),
        forall|j: int| 0 <= j < p ==> s[j].1 >= v,
        p == s.len() || s[p].1 < v,
    ensures
        insert_pos(s, v) == p,
    decreases p,
{
    if p > 0 {
        lemma_insert_pos_scan(s.drop_first(), v, p - 1);
    }
}

pub proof fn lemma_insert_desc_at(s: Seq<Ranked>, x: Ranked)
    ensures
        insert_pos(s, x.1) <= s.len(),
        insert_desc(s, x) == s.insert(insert_pos(s, x.1) as int, x),
        insert_desc(s, x).len() == s.len() + 1,
    decreases s.len(),
{
    if s.len() == 0 {
        assert(seq![x] =~= s.insert(0, x));
    } else if s[0].1 >= x.1 {
        lemma_insert_desc_at(s.drop_first(), x);
        assert(insert_desc(s, x) =~= s.insert(insert_pos(s, x.1) as int, x));
    } else {
        assert(seq![x] + s =~= s.insert(0, x));
    }
}

pub proof fn lemma_insert_desc_sorted(s: Seq<Ranked>, x: Ranked)
    requires
        sorted_desc(s),
    ensures
        sorted_desc(insert_desc(s, x)),
{
    lemma_insert_desc_at(s, x);
    lemma_insert_pos(s, x.1);
    let p = insert_pos(s, x.1) as int;
    let r = insert_desc(s, x);
    assert forall|i: int, j: int| 0 <= i < j < r.len() implies r[i].1 >= r[j].1 by {
        if j < p {
        } else if j == p {
        } else if i < p {
            assert(s[i].1 >= s[j - 1].1);
        } else if i == p {
            assert(s[p].1 >= s[j - 1].1);
        } else {
            assert(s[i - 1].1 >= s[j - 1].1);
        }
    }
}

pub proof fn lemma_sort_desc(s: Seq<Ranked>)
    ensures
        sorted_desc(sort_desc(s)),
        sort_desc(s).len() == s.len(),
        sort_desc(s).to_multiset() == s.to_multiset(),
    decreases s.len(),
{
    if s.len() > 0 {
        let t = sort_desc(s.drop_last());
        lemma_sort_desc(s.drop_last());
        lemma_insert_desc_sorted(t, s.last());
        lemma_insert_desc_at(t, s.last());
        vstd::seq_lib::to_multiset_insert(t, insert_pos(t, s.last().1) as int, s.last());
        assert(s.drop_last().push(s.last()) =~= s);
    }
}

/// Inserting into the first `k` entries and keeping `k` is the same as
/// inserting into all of them and keeping `k`.
pub proof fn lemma_insert_desc_take(s: Seq<Ranked>, x: Ranked, k: int)
    requires
        0 <= k <= s.len(),
    ensures
        insert_desc(s.take(k), x).take(k) == insert_desc(s, x).take(k),
    decreases s.len(),
{
    lemma_insert_desc_at(s.take(k), x);
    lemma_insert_desc_at(s, x);
    if k == 0 {
        assert(insert_desc(s.take(k), x).take(k) =~= insert_desc(s, x).take(k));
    } else if s[0].1 >= x.1 {
        let t = s.drop_first();
        assert(s.take(k)[0] == s[0]);
        assert(s.take(k).drop_first() =~= t.take(k - 1));
        lemma_insert_desc_take(t, x, k - 1);
        lemma_insert_desc_at(t.take(k - 1), x);
        lemma_insert_desc_at(t, x);
        assert(insert_desc(s.take(k), x).take(k) =~= seq![s[0]] + insert_desc(t.take(k - 1), x).take(
            k - 1,
        ));
        assert(insert_desc(s, x).take(k) =~= seq![s[0]] + insert_desc(t, x).take(k - 1));
    } else {
        assert(s.take(k)[0] == s[0]);
        assert(insert_desc(s.take(k), x).take(k) =~= insert_desc(s, x).take(k));
    }
}

/// An entry no larger than any entry of `s` goes last.
pub proof fn lemma_insert_desc_last(s: Seq<Ranked>, x: Ranked)
    requires
        forall|j: int| 0 <= j < s.len() ==> s[j].1 >= x.1,
    ensures
        insert_desc(s, x) == s.push(x),
{
    lemma_insert_pos_scan(s, x.1, s.len() as int);
    lemma_insert_desc_at(s, x);
    assert(s.insert(s.len() as int, x) =~= s.push(x));
}

pub proof fn lemma_sum_concat(a: Seq<Ranked>, b: Seq<Ranked>)
    ensures
        sum_sizes(a + b) == sum_sizes(a) + sum_sizes(b),
    decreases a.len(),
{
    if a.len() == 0 {
        assert(a + b =~= b);
    } else {
        lemma_sum_concat(a.drop_first(), b);
        assert((a + b).drop_first() =~= a.drop_first() + b);
    }
}

pub proof fn lemma_sum_single(x: Ranked)
    ensures
        sum_sizes(seq![x]) == x.1,
{
    assert(seq![x].drop_first() =~= Seq::<Ranked>::empty());
    assert(sum_sizes(seq![x].drop_first()) == 0);
}

pub proof fn lemma_sum_push(s: Seq<Ranked>, x: Ranked)
    ensures
        sum_sizes(s.push(x)) == sum_sizes(s) + x.1,
{
    lemma_sum_concat(s, seq![x]);
    assert(s + seq![x] =~= s.push(x));
    lemma_sum_single(x);
}

pub proof fn lemma_sum_take_skip(s: Seq<Ranked>, k: int)
    requires
        0 <= k <= s.len(),
    ensures
        sum_sizes(s.take(k)) + sum_sizes(s.skip(k)) == sum_sizes(s),
{
    lemma_sum_concat(s.take(k), s.skip(k));
    assert(s.take(k) + s.skip(k) =~= s);
}

pub proof fn lemma_sum_nonneg(s: Seq<Ranked>)
    ensures
        sum_sizes(s) >= 0,
    decreases s.len(),
{
    if s.len() > 0 {
        lemma_sum_nonneg(s.drop_first());
    }
}

pub proof fn lemma_sum_insert_desc(s: Seq<Ranked>, x: Ranked)
    ensures
        sum_sizes(insert_desc(s, x)) == sum_sizes(s) + x.1,
{
    lemma_insert_desc_at(s, x);
    let p = insert_pos(s, x.1) as int;
    assert(s.insert(p, x) =~= s.take(p) + (seq![x] + s.skip(p)));
    lemma_sum_concat(s.take(p), seq![x] + s.skip(p));
    lemma_sum_concat(seq![x], s.skip(p));
    lemma_sum_single(x);
    lemma_sum_take_skip(s, p);
}

pub proof fn lemma_sum_sort_desc(s: Seq<Ranked>)
    ensures
        sum_sizes(sort_desc(s)) == sum_sizes(s),
    decreases s.len(),
{
    if s.len() > 0 {
        lemma_sum_sort_desc(s.drop_last());
        lemma_sum_insert_desc(sort_desc(s.drop_last()), s.last());
        lemma_sum_push(s.drop_last(), s.last());
        assert(s.drop_last().push(s.last()) =~= s);
    }
}

/// Inserts `x` into `v`, which is sorted by descending size, after every
/// entry at least as large.
pub fn insert_ranked<T: SizedEntry>(v: &mut Vec<T>, x: T)
    ensures
        ranked(final(v)@) == insert_desc(ranked(old(v)@), x.rank_view()),
{
    let xs = x.size_of();
    let mut p: usize = 0;
    while p < v.len() && v[p].size_of() >= xs
        invariant
            p <= v.len(),
            forall|j: int| 0 <= j < p ==> ranked(v@)[j].1 >= xs,
        decreases v.len() - p,
    {
        p = p + 1;
    }
    proof {
        lemma_insert_pos_scan(ranked(v@), xs, p as int);
        lemma_insert_desc_at(ranked(v@), x.rank_view());
    }
    let ghost before = v@;
    v.insert(p, x);
    assert(ranked(v@) =~= ranked(before).insert(p as int, x.rank_view()));
}

} // verus!
