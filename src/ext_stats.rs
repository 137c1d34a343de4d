use vstd::prelude::*;

use crate::dir_info::{ExtStat, ExtStats};
use crate::ranking::{
    insert_ranked, lemma_sort_desc, lemma_sum_concat, lemma_sum_nonneg, lemma_sum_push,
    lemma_sum_sort_desc, lemma_sum_take_skip, min_nat, ranked, sort_desc, sum_sizes, Ranked,
};

verus! {

/// No key occurs twice.
pub open spec fn keys_unique(s: Seq<Ranked>) -> bool {
    forall|i: int, j: int| 0 <= i < j < s.len() ==> s[i].0 != s[j].0
}

/// `s` after `size` more bytes under `ext`: the entry of `ext` grows, or a
/// new entry for it goes last.
pub open spec fn add_to_key(s: Seq<Ranked>, ext: Seq<char>, size: u64) -> Seq<Ranked> {
    if exists|i: int| 0 <= i < s.len() && s[i].0 == ext {
        let i = choose|i: int| 0 <= i < s.len() && s[i].0 == ext;
        s.update(i, (ext, (s[i].1 + size) as u64))
    } else {
        s.push((ext, size))
    }
}

pub proof fn lemma_elem_le_sum(s: Seq<Ranked>, i: int)
    requires
        0 <= i < s.len(),
    ensures
        s[i].1 <= sum_sizes(s),
    decreases s.len(),
{
    lemma_sum_nonneg(s.drop_first());
    if i > 0 {
        lemma_elem_le_sum(s.drop_first(), i - 1);
    }
}

pub proof fn lemma_sum_update(s: Seq<Ranked>, i: int, y: Ranked)
    requires
        0 <= i < s.len(),
    ensures
        sum_sizes(s.update(i, y)) == sum_sizes(s) - s[i].1 + y.1,
    decreases s.len(),
{
    if i > 0 {
        lemma_sum_update(s.drop_first(), i - 1, y);
        assert(s.update(i, y).drop_first() =~= s.drop_first().update(i - 1, y));
    } else {
        assert(s.update(i, y).drop_first() =~= s.drop_first());
    }
}

/// Splitting the sorted entries after the first `n` loses no byte.
pub proof fn lemma_ext_split_total(s: Seq<Ranked>, n: nat)
    ensures
        sum_sizes(sort_desc(s).take(min_nat(n, s.len()) as int)) + sum_sizes(
            sort_desc(s).skip(min_nat(n, s.len()) as int),
        ) == sum_sizes(s),
{
    lemma_sort_desc(s);
    lemma_sum_sort_desc(s);
    lemma_sum_take_skip(sort_desc(s), min_nat(n, s.len()) as int);
}

/// Bytes per extension, in the order in which each extension was first seen.
pub struct ExtAggregator {
    stats: Vec<ExtStat>,
}

impl View for ExtAggregator {
    type V = Seq<Ranked>;

    closed spec fn view(&self) -> Seq<Ranked> {
        ranked(self.stats@)
    }
}

impl ExtAggregator {
    pub open spec fn wf(&self) -> bool {
        &&& keys_unique(self@)
        &&& sum_sizes(self@) <= u64::MAX
    }

    pub fn new() -> (r: ExtAggregator)
        ensures
            r.wf(),
            r@ == Seq::<Ranked>::empty(),
    {
        let r = ExtAggregator { stats: Vec::new() };
        assert(r@ =~= Seq::<Ranked>::empty());
        r
    }

    /// The sum of all bytes gathered.
    pub open spec fn total_spec(&self) -> int {
        sum_sizes(self@)
    }

    /// Adds `size` bytes under `ext`.
    pub fn add(&mut self, ext: String, size: u64)
        requires
            old(self).wf(),
            old(self).total_spec() + size <= u64::MAX,
        ensures
            final(self).wf(),
            final(self)@ == add_to_key(old(self)@, ext@, size),
            final(self).total_spec() == old(self).total_spec() + size,
    {
        let ghost s = self@;
        let ghost ev = ext@;
        let mut i: usize = 0;
        while i < self.stats.len()
            invariant
                i <= self.stats.len(),
                self@ == s,
                keys_unique(s),
                sum_sizes(s) + size <= u64::MAX,
                s == old(self)@,
                ev == ext@,
                forall|j: int| 0 <= j < i ==> s[j].0 != ev,
            decreases self.stats.len() - i,
        {
            if self.stats[i].ext == ext {
                proof {
                    lemma_elem_le_sum(s, i as int);
                }
                let cur = self.stats[i].size;
                assert(cur == s[i as int].1);
                self.stats.set(i, ExtStat { ext, size: cur + size });
                proof {
                    assert(s[i as int].0 == ev);
                    let y = (ev, (s[i as int].1 + size) as u64);
                    assert(self@ =~= s.update(i as int, y));
                    lemma_sum_update(s, i as int, y);
                    assert forall|a: int, b: int| 0 <= a < b < self@.len() implies self@[a].0
                        != self@[b].0 by {
                        assert(s[a].0 != s[b].0);
                    }
                    let c = choose|c: int| 0 <= c < s.len() && s[c].0 == ev;
                    assert(c == i) by {
                        if c < i {
                            assert(s[c].0 != s[i as int].0);
                        } else if c > i {
                            assert(s[i as int].0 != s[c].0);
                        }
                    }
                    assert(add_to_key(s, ev, size) == s.update(i as int, y));
                }
                return;
            }
            i = i + 1;
        }
        self.stats.push(ExtStat { ext, size });
        proof {
            assert(self@ =~= s.push((ev, size)));
            lemma_sum_push(s, (ev, size));
        }
    }

    /// Sorts the extensions by descending bytes (ties in the order first
    /// seen), keeps the first `n` and sums the bytes of the rest.
    pub fn finish(&self, n: usize) -> (r: ExtStats)
        requires
            self.wf(),
        ensures
            ranked(r.top_by_ext@) == sort_desc(self@).take(min_nat(n as nat, self@.len()) as int),
            r.others_size == sum_sizes(sort_desc(self@).skip(min_nat(n as nat, self@.len()) as int)),
            sum_sizes(ranked(r.top_by_ext@)) + r.others_size == sum_sizes(self@),
    {
        let ghost s = self@;
        let mut sorted: Vec<ExtStat> = Vec::new();
        let mut i: usize = 0;
        proof {
            assert(s.take(0) =~= Seq::<Ranked>::empty());
            assert(ranked(sorted@) =~= Seq::<Ranked>::empty());
        }
        while i < self.stats.len()
            invariant
                i <= self.stats.len(),
                s == self@,
                ranked(sorted@) == sort_desc(s.take(i as int)),
            decreases self.stats.len() - i,
        {
            let e = ExtStat { ext: self.stats[i].ext.clone(), size: self.stats[i].size };
            insert_ranked(&mut sorted, e);
            proof {
                assert(s.take(i + 1).drop_last() =~= s.take(i as int));
                assert(s.take(i + 1).last() == s[i as int]);
            }
            i = i + 1;
        }
        let ghost sv = sort_desc(s);
        proof {
            assert(s.take(s.len() as int) =~= s);
            lemma_sort_desc(s);
            lemma_sum_sort_desc(s);
        }
        let m: usize = if n < sorted.len() {
            n
        } else {
            sorted.len()
        };
        let mut top: Vec<ExtStat> = Vec::new();
        let mut others: u64 = 0;
        let mut j: usize = 0;
        proof {
            assert(ranked(top@) =~= sv.take(0));
            assert(sv.subrange(m as int, m as int) =~= Seq::<Ranked>::empty());
        }
        while j < sorted.len()
            invariant
                m <= sorted.len(),
                j <= sorted.len(),
                ranked(sorted@) == sv,
                sv.len() == s.len(),
                m == min_nat(n as nat, s.len()),
                sum_sizes(sv) == sum_sizes(s),
                sum_sizes(s) <= u64::MAX,
                j <= m ==> ranked(top@) == sv.take(j as int) && others == 0,
                j > m ==> ranked(top@) == sv.take(m as int) && others == sum_sizes(
                    sv.subrange(m as int, j as int),
                ),
            decreases sorted.len() - j,
        {
            let size = sorted[j].size;
            if j < m {
                top.push(ExtStat { ext: sorted[j].ext.clone(), size });
                proof {
                    assert(ranked(top@) =~= sv.take(j + 1));
                    if j + 1 == m {
                        assert(sv.subrange(m as int, m as int) =~= Seq::<Ranked>::empty());
                    }
                }
            } else {
                proof {
                    let before = sv.subrange(m as int, j as int);
                    assert(sv.subrange(m as int, j + 1) =~= before.push(sv[j as int]));
                    lemma_sum_push(before, sv[j as int]);
                    assert(sv.take(j + 1) =~= sv.take(m as int) + sv.subrange(m as int, j + 1));
                    lemma_sum_concat(sv.take(m as int), sv.subrange(m as int, j + 1));
                    lemma_sum_nonneg(sv.take(m as int));
                    lemma_sum_take_skip(sv, j + 1);
                    lemma_sum_nonneg(sv.skip(j + 1));
                }
                others = others + size;
            }
            j = j + 1;
        }
        proof {
            if sv.len() == m {
                assert(sv.skip(m as int) =~= Seq::<Ranked>::empty());
                assert(sv.subrange(m as int, m as int) =~= Seq::<Ranked>::empty());
            } else {
                assert(sv.subrange(m as int, sv.len() as int) =~= sv.skip(m as int));
            }
            lemma_ext_split_total(s, n as nat);
        }
        ExtStats { top_by_ext: top, others_size: others }
    }
}

} // verus!
