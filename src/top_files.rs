use vstd::prelude::*;

use crate::dir_info::DirEntryInfo;
use crate::ranking::{
    insert_desc, insert_ranked, lemma_insert_desc_at, lemma_insert_desc_last,
    lemma_insert_desc_take, lemma_sort_desc, min_nat, ranked, sort_desc,
    sorted_desc, top_k, Ranked, SizedEntry,
};

verus! {

/// The largest files of a stream, in bounded memory.
///
/// Holds at most `capacity` entries, sorted by descending size; among equal
/// sizes the entry offered first comes first.
pub struct TopFiles {
    entries: Vec<DirEntryInfo>,
    capacity: usize,
    offered: Ghost<Seq<Ranked>>,
}

impl View for TopFiles {
    type V = Seq<Ranked>;

    closed spec fn view(&self) -> Seq<Ranked> {
        ranked(self.entries@)
    }
}

impl TopFiles {
    /// Every entry offered so far, in order.
    pub closed spec fn offered(&self) -> Seq<Ranked> {
        self.offered@
    }

    pub closed spec fn capacity_spec(&self) -> nat {
        self.capacity as nat
    }

    /// The retained entries are the `capacity` largest of those offered.
    pub open spec fn wf(&self) -> bool {
        self@ == top_k(self.offered(), self.capacity_spec())
    }

    /// The size below which an offer cannot enter: that of the last retained
    /// entry once `capacity` entries are held, and 0 before.
    pub open spec fn min_size_spec(&self) -> u64 {
        if self@.len() == 0 || self@.len() < self.capacity_spec() {
            0
        } else {
            self@.last().1
        }
    }

    /// An empty set that will keep the `capacity` largest entries.
    pub fn new(capacity: usize) -> (r: TopFiles)
        ensures
            r.wf(),
            r.offered() == Seq::<Ranked>::empty(),
            r.capacity_spec() == capacity,
            r@ == Seq::<Ranked>::empty(),
    {
        let r = TopFiles { entries: Vec::new(), capacity, offered: Ghost(Seq::empty()) };
        assert(r@ =~= Seq::<Ranked>::empty());
        assert(top_k(Seq::<Ranked>::empty(), capacity as nat) =~= Seq::<Ranked>::empty());
        r
    }

    pub fn capacity(&self) -> (r: usize)
        ensures
            r == self.capacity_spec(),
    {
        self.capacity
    }

    /// The entries held, largest first.
    pub fn entries(&self) -> (r: &Vec<DirEntryInfo>)
        ensures
            ranked(r@) == self@,
    {
        &self.entries
    }

    /// Gives up the entries held, largest first.
    pub fn into_entries(self) -> (r: Vec<DirEntryInfo>)
        ensures
            ranked(r@) == self@,
    {
        self.entries
    }

    /// The smallest size held once `capacity` entries are held, else 0.
    pub fn min_size(&self) -> (r: u64)
        requires
            self.wf(),
        ensures
            r == self.min_size_spec(),
            self@.len() == self.capacity_spec() ==> forall|i: int|
                0 <= i < self@.len() ==> r <= #[trigger] self@[i].1,
    {
        proof {
            lemma_sort_desc(self.offered());
            let s = sort_desc(self.offered());
            assert forall|i: int| 0 <= i < self@.len() implies self@.last().1 <= #[trigger] self@[i].1 by {
                assert(self@[i] == s[i]);
                assert(self@.last() == s[self@.len() - 1]);
            }
        }
        let n = self.entries.len();
        if n == 0 || n < self.capacity {
            0
        } else {
            self.entries[n - 1].size
        }
    }

    /// Offers one entry. It is kept if fewer than `capacity` entries are held
    /// or if it is larger than the smallest held, which then leaves.
    pub fn offer(&mut self, entry: DirEntryInfo)
        requires
            old(self).wf(),
        ensures
            final(self).wf(),
            final(self).offered() == old(self).offered().push(entry.rank_view()),
            final(self).capacity_spec() == old(self).capacity_spec(),
            final(self)@ == top_k(final(self).offered(), final(self).capacity_spec()),
    {
        let ghost seen = self.offered@;
        let ghost x = entry.rank_view();
        let ghost k = self.capacity as nat;
        let ghost s = sort_desc(seen);
        proof {
            lemma_sort_desc(seen);
            assert(seen.push(x).drop_last() =~= seen);
            lemma_sort_desc(seen.push(x));
            lemma_insert_desc_at(s, x);
        }
        let n = self.entries.len();
        let ghost held = self@;
        proof {
            lemma_insert_desc_at(held, x);
        }
        assert(n == min_nat(k, seen.len()));
        assert(s.len() == seen.len());
        if n < self.capacity || (n > 0 && entry.size > self.entries[n - 1].size) {
            insert_ranked(&mut self.entries, entry);
            if self.entries.len() > self.capacity {
                let ghost grown = ranked(self.entries@);
                assert(grown.len() == n + 1);
                assert(n == k);
                self.entries.pop();
                proof {
                    assert(ranked(self.entries@) =~= grown.take(k as int));
                    lemma_insert_desc_take(s, x, k as int);
                    assert(s.take(k as int) =~= s.take(min_nat(k, seen.len()) as int));
                }
            } else {
                proof {
                    assert(s.take(n as int) =~= s);
                    lemma_insert_desc_at(s, x);
                    assert(insert_desc(s, x).take(n + 1) =~= insert_desc(s, x));
                }
            }
        } else {
            proof {
                if k > 0 {
                    let t = s.take(k as int);
                    assert(held[n - 1] == s[k - 1]);
                    assert(held[n - 1] == self.entries@[n - 1].rank_view());
                    assert(x.1 <= s[k - 1].1);
                    assert forall|j: int| 0 <= j < t.len() implies t[j].1 >= x.1 by {
                        assert(s[j].1 >= s[k - 1].1);
                    }
                    lemma_insert_desc_last(t, x);
                    lemma_insert_desc_take(s, x, k as int);
                    assert(t.push(x).take(k as int) =~= t);
                } else {
                    assert(insert_desc(s, x).take(0) =~= s.take(0));
                }
            }
        }
        proof {
            self.offered = Ghost(seen.push(x));
        }
    }
}

/// The retained entries are the `k` largest of the stream: they come largest
/// first, there are `min(k, n)` of them, with the entries left out they make
/// up exactly the stream, and none left out is larger than one retained.
pub proof fn lemma_top_k_largest(s: Seq<Ranked>, k: nat)
    ensures
        sorted_desc(top_k(s, k)),
        top_k(s, k).len() == min_nat(k, s.len()),
        (top_k(s, k) + sort_desc(s).skip(min_nat(k, s.len()) as int)).to_multiset()
            == s.to_multiset(),
        forall|i: int, j: int|
            0 <= i < top_k(s, k).len() && 0 <= j < s.len() - top_k(s, k).len() ==> #[trigger] sort_desc(
                s,
            ).skip(min_nat(k, s.len()) as int)[j].1 <= #[trigger] top_k(s, k)[i].1,
{
    lemma_sort_desc(s);
    let m = min_nat(k, s.len()) as int;
    let t = sort_desc(s);
    assert(t.take(m) + t.skip(m) =~= t);
    assert forall|i: int, j: int|
        0 <= i < top_k(s, k).len() && 0 <= j < s.len() - top_k(s, k).len() implies #[trigger] t.skip(
        m,
    )[j].1 <= #[trigger] top_k(s, k)[i].1 by {
        assert(t.skip(m)[j] == t[m + j]);
        assert(top_k(s, k)[i] == t[i]);
    }
}

/// One more entry changes the `k` largest only through the `k` largest held
/// before: it is inserted among them and the list is cut back to `k`.
pub proof fn lemma_top_k_push(s: Seq<Ranked>, x: Ranked, k: nat)
    ensures
        top_k(s.push(x), k) == insert_desc(top_k(s, k), x).take(
            min_nat(k, top_k(s, k).len() + 1) as int,
        ),
{
    let t = sort_desc(s);
    lemma_sort_desc(s);
    assert(s.push(x).drop_last() =~= s);
    assert(s.push(x).last() == x);
    lemma_sort_desc(s.push(x));
    lemma_insert_desc_at(t, x);
    if s.len() < k {
        assert(t.take(s.len() as int) =~= t);
        assert(insert_desc(t, x).take(s.len() + 1 as int) =~= insert_desc(t, x));
    } else {
        lemma_insert_desc_take(t, x, k as int);
        lemma_insert_desc_at(t.take(k as int), x);
    }
}

/// An entry no larger than the smallest of `k` held cannot enter.
pub proof fn lemma_top_k_no_entry(s: Seq<Ranked>, x: Ranked, k: nat)
    requires
        k > 0 ==> top_k(s, k).len() == k && x.1 <= top_k(s, k).last().1,
    ensures
        top_k(s.push(x), k) == top_k(s, k),
{
    lemma_top_k_push(s, x, k);
    lemma_sort_desc(s);
    let t = top_k(s, k);
    if k > 0 {
        assert forall|j: int| 0 <= j < t.len() implies t[j].1 >= x.1 by {
            assert(t[j] == sort_desc(s)[j]);
            assert(t.last() == sort_desc(s)[k - 1]);
        }
        lemma_insert_desc_last(t, x);
        assert(t.push(x).take(k as int) =~= t);
    } else {
        lemma_insert_desc_at(t, x);
        assert(insert_desc(t, x).take(0) =~= t);
    }
}

} // verus!
