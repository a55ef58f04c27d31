use vstd::prelude::*;

verus! {

/// Total weight that `votes` gives to `name`.
pub open spec fn sum_for(votes: Seq<(Seq<char>, u128)>, name: Seq<char>) -> int
    decreases votes.len(),
{
    if votes.len() == 0 {
        0
    } else {
        let last = votes.last();
        sum_for(votes.drop_last(), name) + if last.0 == name { last.1 as int } else { 0 }
    }
}

/// Whether some vote in `votes` went to `name`.
pub open spec fn voted_for(votes: Seq<(Seq<char>, u128)>, name: Seq<char>) -> bool {
    exists|i: int| 0 <= i < votes.len() && (#[trigger] votes[i]).0 == name
}

/// Ranking entries with no name twice.
pub open spec fn names_unique(s: Seq<(Seq<char>, u128)>) -> bool {
    forall|i: int, j: int| 0 <= i < s.len() && 0 <= j < s.len() && i != j ==> (#[trigger] s[i]).0 != (#[trigger] s[j]).0
}

/// Entries ordered by non-increasing weight.
pub open spec fn weight_descending(s: Seq<(Seq<char>, u128)>) -> bool {
    forall|i: int, j: int| 0 <= i < j < s.len() ==> (#[trigger] s[i]).1 >= (#[trigger] s[j]).1
}

/// Whether `s` holds an entry for `name`.
pub open spec fn has_entry(s: Seq<(Seq<char>, u128)>, name: Seq<char>) -> bool {
    exists|i: int| 0 <= i < s.len() && (#[trigger] s[i]).0 == name
}

/// The plain values of a list of entries.
pub open spec fn plain(v: Seq<(String, u128)>) -> Seq<(Seq<char>, u128)> {
    v.map_values(|e: (String, u128)| (e.0@, e.1))
}

/// A name that no vote went to has no weight.
proof fn lemma_sum_unvoted(votes: Seq<(Seq<char>, u128)>, name: Seq<char>)
    requires
        !voted_for(votes, name),
    ensures
        sum_for(votes, name) == 0,
    decreases votes.len(),
{
    if votes.len() > 0 {
        let init = votes.drop_last();
        assert forall|i: int| 0 <= i < init.len() implies (#[trigger] init[i]).0 != name by {
            assert(init[i] == votes[i]);
        }
        lemma_sum_unvoted(init, name);
        assert(votes[votes.len() - 1] == votes.last());
    }
}

/// One vote more adds its amount to the weight of its own name and nothing to
/// the others, and counts that name as voted for.
pub proof fn lemma_sum_push(votes: Seq<(Seq<char>, u128)>, v: (Seq<char>, u128), name: Seq<char>)
    ensures
        sum_for(votes.push(v), name) == sum_for(votes, name) + if v.0 == name { v.1 as int } else { 0 },
        voted_for(votes.push(v), name) <==> (voted_for(votes, name) || v.0 == name),
{
    let h = votes.push(v);
    assert(h.drop_last() =~= votes);
    if voted_for(votes, name) {
        let i = choose|i: int| 0 <= i < votes.len() && (#[trigger] votes[i]).0 == name;
        assert(h[i] == votes[i]);
    }
    if voted_for(h, name) && v.0 != name {
        let i = choose|i: int| 0 <= i < h.len() && (#[trigger] h[i]).0 == name;
        assert(i < votes.len());
        assert(h[i] == votes[i]);
    }
    assert(h[h.len() - 1] == v);
}

/// `s` lists the candidates of `votes`, once each, heaviest first, each with
/// the sum of the amounts voted for it.
pub open spec fn tallies(s: Seq<(Seq<char>, u128)>, votes: Seq<(Seq<char>, u128)>) -> bool {
    &&& names_unique(s)
    &&& weight_descending(s)
    &&& forall|i: int| 0 <= i < s.len() ==> (#[trigger] s[i]).1 == sum_for(votes, s[i].0)
    &&& forall|n: Seq<char>| #[trigger] has_entry(s, n) <==> voted_for(votes, n)
}

/// The entries of a tally but the one for `key`, which it does not hold: ordered,
/// each name once, each with its sum.
spec fn tallies_but(s: Seq<(Seq<char>, u128)>, votes: Seq<(Seq<char>, u128)>, key: Seq<char>) -> bool {
    &&& names_unique(s)
    &&& weight_descending(s)
    &&& forall|k: int| 0 <= k < s.len() ==> (#[trigger] s[k]).0 != key && s[k].1 == sum_for(votes, s[k].0)
    &&& forall|n: Seq<char>| n != key ==> (#[trigger] has_entry(s, n) <==> voted_for(votes, n))
}

/// A tally without an entry for `key` holds all the others.
proof fn lemma_others(s: Seq<(Seq<char>, u128)>, votes: Seq<(Seq<char>, u128)>, key: Seq<char>)
    requires
        tallies(s, votes),
        !has_entry(s, key),
    ensures
        tallies_but(s, votes, key),
{
    assert forall|k: int| 0 <= k < s.len() implies (#[trigger] s[k]).0 != key by {
        if s[k].0 == key {
            assert(has_entry(s, key));
        }
    }
}

/// Taking the entry at `i` out of a tally leaves the others.
proof fn lemma_remove_entry(s0: Seq<(Seq<char>, u128)>, votes: Seq<(Seq<char>, u128)>, i: int)
    requires
        tallies(s0, votes),
        0 <= i < s0.len(),
    ensures
        tallies_but(s0.remove(i), votes, s0[i].0),
{
    let key = s0[i].0;
    let s1 = s0.remove(i);
    assert forall|k: int| 0 <= k < s1.len() implies (#[trigger] s1[k]).0 != key && s1[k].1 == sum_for(votes, s1[k].0) by {
        let k0 = if k < i { k } else { k + 1 };
        assert(s1[k] == s0[k0]);
    }
    assert forall|a: int, b: int| 0 <= a < b < s1.len() implies (#[trigger] s1[a]).1 >= (#[trigger] s1[b]).1 by {
        let a0 = if a < i { a } else { a + 1 };
        let b0 = if b < i { b } else { b + 1 };
        assert(s1[a] == s0[a0] && s1[b] == s0[b0]);
    }
    assert forall|a: int, b: int| 0 <= a < s1.len() && 0 <= b < s1.len() && a != b implies (#[trigger] s1[a]).0 != (#[trigger] s1[b]).0 by {
        let a0 = if a < i { a } else { a + 1 };
        let b0 = if b < i { b } else { b + 1 };
        assert(s1[a] == s0[a0] && s1[b] == s0[b0]);
    }
    assert forall|n: Seq<char>| n != key implies (#[trigger] has_entry(s1, n) <==> voted_for(votes, n)) by {
        if has_entry(s0, n) {
            let j = choose|j: int| 0 <= j < s0.len() && (#[trigger] s0[j]).0 == n;
            let j1 = if j < i { j } else { j - 1 };
            assert(s1[j1] == s0[j]);
        }
        if has_entry(s1, n) {
            let j = choose|j: int| 0 <= j < s1.len() && (#[trigger] s1[j]).0 == n;
            let j0 = if j < i { j } else { j + 1 };
            assert(s1[j] == s0[j0]);
        }
    }
}

/// Putting the entry for `key`, with its sum after one more vote, at a place that
/// keeps the order, gives the tally of the longer list of votes.
proof fn lemma_insert_entry(
    s1: Seq<(Seq<char>, u128)>,
    votes: Seq<(Seq<char>, u128)>,
    key: Seq<char>,
    amount: u128,
    w: u128,
    at: int,
)
    requires
        tallies_but(s1, votes, key),
        w == sum_for(votes, key) + amount,
        0 <= at <= s1.len(),
        forall|k: int| 0 <= k < at ==> (#[trigger] s1[k]).1 >= w,
        forall|k: int| at <= k < s1.len() ==> (#[trigger] s1[k]).1 < w,
    ensures
        tallies(s1.insert(at, (key, w)), votes.push((key, amount))),
{
    let s2 = s1.insert(at, (key, w));
    let h = votes.push((key, amount));
    assert forall|n: Seq<char>| true implies sum_for(h, n) == sum_for(votes, n) + (if key == n { amount as int } else { 0 }) && (voted_for(h, n) <==> (voted_for(votes, n) || key == n)) by {
        lemma_sum_push(votes, (key, amount), n);
    }
    assert forall|k: int| 0 <= k < s2.len() implies (#[trigger] s2[k]).1 == sum_for(h, s2[k].0) by {
        if k < at {
            assert(s2[k] == s1[k]);
        } else if k > at {
            assert(s2[k] == s1[k - 1]);
        }
    }
    assert forall|a: int, b: int| 0 <= a < s2.len() && 0 <= b < s2.len() && a != b implies (#[trigger] s2[a]).0 != (#[trigger] s2[b]).0 by {
        let a1 = if a < at { a } else { a - 1 };
        let b1 = if b < at { b } else { b - 1 };
        if a != at && b != at {
            assert(s2[a] == s1[a1] && s2[b] == s1[b1]);
        } else if a == at {
            assert(s2[b] == s1[b1]);
        } else {
            assert(s2[a] == s1[a1]);
        }
    }
    assert forall|a: int, b: int| 0 <= a < b < s2.len() implies (#[trigger] s2[a]).1 >= (#[trigger] s2[b]).1 by {
        let a1 = if a < at { a } else { a - 1 };
        let b1 = if b < at { b } else { b - 1 };
        if a != at && b != at {
            assert(s2[a] == s1[a1] && s2[b] == s1[b1]);
        } else if a == at {
            assert(s2[b] == s1[b1]);
        } else {
            assert(s2[a] == s1[a1]);
        }
    }
    assert forall|n: Seq<char>| #[trigger] has_entry(s2, n) <==> voted_for(h, n) by {
        if n == key {
            assert(s2[at].0 == key);
        } else {
            if has_entry(s1, n) {
                let j = choose|j: int| 0 <= j < s1.len() && (#[trigger] s1[j]).0 == n;
                let j2 = if j < at { j } else { j + 1 };
                assert(s2[j2] == s1[j]);
            }
            if has_entry(s2, n) {
                let j = choose|j: int| 0 <= j < s2.len() && (#[trigger] s2[j]).0 == n;
                let j1 = if j < at { j } else { j - 1 };
                assert(s2[j] == s1[j1]);
            }
        }
    }
}

/// The accumulated weight per candidate, kept sorted by weight, heaviest first.
/// Candidates of equal weight stay in the order in which they reached it.
pub struct Ranking {
    entries: Vec<(String, u128)>,
    votes: Ghost<Seq<(Seq<char>, u128)>>,
}

impl Ranking {
    /// The entries, heaviest first.
    pub closed spec fn view(&self) -> Seq<(Seq<char>, u128)> {
        plain(self.entries@)
    }

    /// Every vote added so far, oldest first.
    pub closed spec fn history(&self) -> Seq<(Seq<char>, u128)> {
        self.votes@
    }

    /// The entries are exactly the candidates voted for, once each, heaviest first,
    /// each with the sum of the amounts added for it.
    pub open spec fn wf(&self) -> bool {
        tallies(self@, self.history())
    }

    /// An engine with no votes.
    pub fn new() -> (r: Self)
        ensures
            r.wf(),
            r@ == Seq::<(Seq<char>, u128)>::empty(),
            r.history() == Seq::<(Seq<char>, u128)>::empty(),
    {
        let r = Ranking { entries: Vec::new(), votes: Ghost(Seq::empty()) };
        assert(r@ =~= Seq::<(Seq<char>, u128)>::empty());
        r
    }

    /// Index of the entry for `name`, if there is one.
    fn position_of(&self, name: &String) -> (r: Option<usize>)
        ensures
            match r {
                Some(i) => i < self@.len() && self@[i as int].0 == name@,
                None => !has_entry(self@, name@),
            },
    {
        let mut i: usize = 0;
        while i < self.entries.len()
            invariant
                i <= self@.len(),
                self@.len() == self.entries@.len(),
                forall|k: int| 0 <= k < i ==> (#[trigger] self@[k]).0 != name@,
            decreases self@.len() - i,
        {
            if self.entries[i].0 == *name {
                return Some(i);
            }
            i += 1;
        }
        None
    }

    /// Index at which an entry of weight `w` goes: after every entry at least as heavy.
    fn slot_for(&self, w: u128) -> (r: usize)
        requires
            weight_descending(self@),
        ensures
            r <= self@.len(),
            forall|k: int| 0 <= k < r ==> (#[trigger] self@[k]).1 >= w,
            forall|k: int| r <= k < self@.len() ==> (#[trigger] self@[k]).1 < w,
    {
        let mut i: usize = 0;
        while i < self.entries.len() && self.entries[i].1 >= w
            invariant
                i <= self@.len(),
                self@.len() == self.entries@.len(),
                forall|k: int| 0 <= k < i ==> (#[trigger] self@[k]).1 >= w,
            decreases self@.len() - i,
        {
            i += 1;
        }
        if i < self.entries.len() {
            assert(self@[i as int].1 < w);
            assert forall|k: int| i <= k < self@.len() implies (#[trigger] self@[k]).1 < w by {
                assert(self@[i as int].1 >= self@[k].1);
            }
        }
        i
    }

    /// Adds `amount` to the weight of `name`, creating its entry with weight 0 if
    /// there is none.
    pub fn add_vote(&mut self, name: String, amount: u128)
        requires
            old(self).wf(),
            sum_for(old(self).history(), name@) + amount <= u128::MAX,
        ensures
            final(self).wf(),
            final(self).history() == old(self).history().push((name@, amount)),
            has_entry(old(self)@, name@) ==> final(self)@.len() == old(self)@.len(),
            !has_entry(old(self)@, name@) ==> final(self)@.len() == old(self)@.len() + 1,
    {
        let ghost s0 = self@;
        let ghost h0 = self.history();
        let ghost key = name@;
        let pos = self.position_of(&name);
        let entry: (String, u128) = match pos {
            Some(i) => {
                let e = self.entries.remove(i);
                assert(self@ =~= s0.remove(i as int));
                (e.0, e.1 + amount)
            },
            None => {
                proof {
                    assert(!voted_for(h0, key));
                    lemma_sum_unvoted(h0, key);
                }
                (name, amount)
            },
        };
        let ghost s1 = self@;
        proof {
            match pos {
                Some(i) => lemma_remove_entry(s0, h0, i as int),
                None => lemma_others(s0, h0, key),
            }
        }
        let w = entry.1;
        let at = self.slot_for(w);
        self.entries.insert(at, entry);
        self.votes = Ghost(h0.push((key, amount)));
        proof {
            assert(self@ =~= s1.insert(at as int, (key, w)));
            lemma_insert_entry(s1, h0, key, amount, w, at as int);
        }
    }

    /// Every candidate with its accumulated weight, heaviest first; candidates of
    /// equal weight come in a fixed order, the same on every call while no vote
    /// is added.
    pub fn get_ranking(&self) -> (r: Vec<(String, u128)>)
        requires
            self.wf(),
        ensures
            plain(r@) == self@,
            weight_descending(plain(r@)),
            names_unique(plain(r@)),
            forall|i: int| 0 <= i < r@.len() ==> (#[trigger] r@[i]).1 == sum_for(self.history(), r@[i].0@),
            forall|n: Seq<char>| #[trigger] has_entry(plain(r@), n) <==> voted_for(self.history(), n),
            self.history().len() == 0 ==> r@.len() == 0,
    {
        let mut out: Vec<(String, u128)> = Vec::new();
        let mut i: usize = 0;
        while i < self.entries.len()
            invariant
                i <= self.entries@.len(),
                out@.len() == i,
                plain(out@) == self@.subrange(0, i as int),
            decreases self.entries@.len() - i,
        {
            let ghost prev = out@;
            let e = &self.entries[i];
            out.push((e.0.clone(), e.1));
            assert forall|k: int| 0 <= k < i implies plain(out@)[k] == plain(prev)[k] by {
                assert(out@[k] == prev[k]);
            }
            assert(plain(out@) =~= self@.subrange(0, i + 1));
            i += 1;
        }
        assert(plain(out@) =~= self@);
        proof {
            assert forall|i: int| 0 <= i < out@.len() implies (#[trigger] out@[i]).1 == sum_for(self.history(), out@[i].0@) by {
                assert(plain(out@)[i] == self@[i]);
            }
            if self.history().len() == 0 && out@.len() > 0 {
                assert(has_entry(self@, self@[0].0));
            }
        }
        out
    }
}

/// The weight of a candidate is the sum of what was voted for it, whatever the
/// order of the votes: two votes for `name`, in either order, add both amounts.
pub proof fn lemma_votes_commute(votes: Seq<(Seq<char>, u128)>, name: Seq<char>, a: u128, b: u128)
    ensures
        sum_for(votes.push((name, a)).push((name, b)), name) == sum_for(votes, name) + a + b,
        sum_for(votes.push((name, b)).push((name, a)), name) == sum_for(votes, name) + a + b,
{
    lemma_sum_push(votes, (name, a), name);
    lemma_sum_push(votes.push((name, a)), (name, b), name);
    lemma_sum_push(votes, (name, b), name);
    lemma_sum_push(votes.push((name, b)), (name, a), name);
}

} // verus!
