use vstd::prelude::*;

verus! {

/// One bucket of the expiration index: all keys that expire at exactly one
/// instant (absolute epoch milliseconds).
pub struct ExpirationBucket {
    pub timestamp: u128,
    pub keys: Vec<String>,
}

/// Ordered mapping from an absolute expiration instant to the keys expiring
/// at that instant, kept as a vector of buckets with strictly increasing
/// timestamps. A bucket is never left empty: when its last key is retracted
/// the bucket itself is removed.
pub struct ExpirationIndex {
    buckets: Vec<ExpirationBucket>,
}

/// The index `post` holds exactly what `pre` held, plus `k` under instant `t`.
pub open spec fn recorded(pre: ExpirationIndex, post: ExpirationIndex, t: u128, k: Seq<char>) -> bool {
    forall|t2: u128, k2: Seq<char>|
        post.contains(t2, k2) <==> (pre.contains(t2, k2) || (t2 == t && k2 == k))
}

/// The index `post` holds exactly what `pre` held, except `k` under instant `t`.
pub open spec fn retracted(pre: ExpirationIndex, post: ExpirationIndex, t: u128, k: Seq<char>) -> bool {
    forall|t2: u128, k2: Seq<char>|
        post.contains(t2, k2) <==> (pre.contains(t2, k2) && !(t2 == t && k2 == k))
}

proof fn lemma_push_contains(s: Seq<Seq<char>>, x: Seq<char>, y: Seq<char>)
    ensures
        s.push(x).contains(y) <==> (s.contains(y) || x == y),
{
    if s.push(x).contains(y) {
        let w = choose|w: int| 0 <= w < s.push(x).len() && s.push(x)[w] == y;
        if w < s.len() {
            assert(s[w] == y);
        }
    }
    if s.contains(y) {
        let w = choose|w: int| 0 <= w < s.len() && s[w] == y;
        assert(s.push(x)[w] == y);
    }
    if x == y {
        assert(s.push(x)[s.len() as int] == y);
    }
}

impl ExpirationIndex {
    /// The key `k` is recorded as expiring at instant `t`.
    pub closed spec fn contains(self, t: u128, k: Seq<char>) -> bool {
        exists|i: int|
            0 <= i < self.buckets@.len() && self.buckets@[i].timestamp == t
                && self.buckets@[i].keys.deep_view().contains(k)
    }

    /// Well-formed: timestamps strictly increase (so each instant has at most
    /// one bucket) and no bucket is empty.
    pub closed spec fn wf(self) -> bool {
        &&& forall|i: int, j: int|
            0 <= i < j < self.buckets@.len() ==> self.buckets@[i].timestamp
                < self.buckets@[j].timestamp
        &&& forall|i: int| 0 <= i < self.buckets@.len() ==> self.buckets@[i].keys@.len() > 0
    }

    /// The buckets as instants paired with their keys, in index order.
    pub closed spec fn model(self) -> Seq<(u128, Seq<Seq<char>>)> {
        Seq::new(
            self.buckets@.len() as nat,
            |i: int| (self.buckets@[i].timestamp, self.buckets@[i].keys.deep_view()),
        )
    }

    /// Well-formedness, stated over the public model: instants strictly
    /// increase and no bucket is ever empty.
    pub proof fn lemma_wf_model(self)
        requires
            self.wf(),
        ensures
            forall|i: int, j: int|
                0 <= i < j < self.model().len() ==> (self.model()[i].0 < self.model()[j].0),
            forall|i: int| 0 <= i < self.model().len() ==> (self.model()[i].1.len() > 0),
    {
        assert forall|i: int| 0 <= i < self.model().len() implies (self.model()[i].1.len()
            > 0) by {
            assert(self.buckets@[i].keys.deep_view().len() == self.buckets@[i].keys@.len());
        }
    }

    pub fn new() -> (r: Self)
        ensures
            r.wf(),
            forall|t: u128, k: Seq<char>| !r.contains(t, k),
    {
        ExpirationIndex { buckets: Vec::new() }
    }

    /// Record that `key` expires at instant `t`.
    pub fn record(&mut self, t: u128, key: String)
        requires
            old(self).wf(),
        ensures
            final(self).wf(),
            recorded(*old(self), *final(self), t, key@),
    {
        let ghost pre = *old(self);
        let mut i: usize = 0;
        while i < self.buckets.len() && self.buckets[i].timestamp < t
            invariant
                *self == pre,
                i <= self.buckets@.len(),
                forall|j: int| 0 <= j < i ==> self.buckets@[j].timestamp < t,
            decreases self.buckets@.len() - i,
        {
            i += 1;
        }
        let ghost ip = i as int;
        if i < self.buckets.len() && self.buckets[i].timestamp == t {
            let mut b = self.buckets.remove(i);
            b.keys.push(key);
            self.buckets.insert(i, b);
            proof {
                assert(self.buckets@ =~= pre.buckets@.update(ip, self.buckets@[ip]));
                assert(self.buckets@[ip].keys.deep_view() =~= pre.buckets@[ip].keys.deep_view().push(
                    key@,
                ));
                assert forall|t2: u128, k2: Seq<char>|
                    self.contains(t2, k2) <==> (pre.contains(t2, k2) || (t2 == t && k2
                        == key@)) by {
                    if self.contains(t2, k2) {
                        let w = choose|w: int|
                            0 <= w < self.buckets@.len() && self.buckets@[w].timestamp == t2
                                && self.buckets@[w].keys.deep_view().contains(k2);
                        if w == ip {
                            if k2 != key@ {
                                let x = choose|x: int|
                                    0 <= x < self.buckets@[w].keys.deep_view().len()
                                        && self.buckets@[w].keys.deep_view()[x] == k2;
                                assert(pre.buckets@[ip].keys.deep_view()[x] == k2);
                                assert(pre.contains(t2, k2));
                            }
                        } else {
                            assert(pre.buckets@[w].keys.deep_view().contains(k2));
                            assert(pre.contains(t2, k2));
                        }
                    }
                    if pre.contains(t2, k2) {
                        let w = choose|w: int|
                            0 <= w < pre.buckets@.len() && pre.buckets@[w].timestamp == t2
                                && pre.buckets@[w].keys.deep_view().contains(k2);
                        if w == ip {
                            let x = choose|x: int|
                                0 <= x < pre.buckets@[ip].keys.deep_view().len()
                                    && pre.buckets@[ip].keys.deep_view()[x] == k2;
                            assert(self.buckets@[ip].keys.deep_view()[x] == k2);
                        }
                        assert(self.buckets@[w].keys.deep_view().contains(k2));
                        assert(self.contains(t2, k2));
                    }
                    if t2 == t && k2 == key@ {
                        let n = pre.buckets@[ip].keys.deep_view().len() as int;
                        assert(self.buckets@[ip].keys.deep_view()[n] == key@);
                        assert(self.contains(t2, k2));
                    }
                }
            }
        } else {
            let mut ks: Vec<String> = Vec::new();
            ks.push(key);
            self.buckets.insert(i, ExpirationBucket { timestamp: t, keys: ks });
            proof {
                assert(self.buckets@ =~= pre.buckets@.insert(ip, self.buckets@[ip]));
                assert(self.buckets@[ip].keys.deep_view() =~= seq![key@]);
                assert forall|t2: u128, k2: Seq<char>|
                    self.contains(t2, k2) <==> (pre.contains(t2, k2) || (t2 == t && k2
                        == key@)) by {
                    if self.contains(t2, k2) {
                        let w = choose|w: int|
                            0 <= w < self.buckets@.len() && self.buckets@[w].timestamp == t2
                                && self.buckets@[w].keys.deep_view().contains(k2);
                        if w < ip {
                            assert(pre.buckets@[w].keys.deep_view().contains(k2));
                            assert(pre.contains(t2, k2));
                        } else if w > ip {
                            assert(pre.buckets@[w - 1].keys.deep_view().contains(k2));
                            assert(pre.contains(t2, k2));
                        } else {
                            assert(k2 == key@ && t2 == t);
                        }
                    }
                    if pre.contains(t2, k2) {
                        let w = choose|w: int|
                            0 <= w < pre.buckets@.len() && pre.buckets@[w].timestamp == t2
                                && pre.buckets@[w].keys.deep_view().contains(k2);
                        if w < ip {
                            assert(self.buckets@[w].keys.deep_view().contains(k2));
                        } else {
                            assert(self.buckets@[w + 1].keys.deep_view().contains(k2));
                        }
                        assert(self.contains(t2, k2));
                    }
                    if t2 == t && k2 == key@ {
                        assert(self.buckets@[ip].keys.deep_view()[0] == key@);
                        assert(self.contains(t2, k2));
                    }
                }
                assert forall|x: int, y: int|
                    0 <= x < y < self.buckets@.len() implies self.buckets@[x].timestamp
                    < self.buckets@[y].timestamp by {
                    if x < ip && y > ip {
                        assert(pre.buckets@[x].timestamp < t || x == ip);
                    }
                }
            }
        }
        proof {
            assert(recorded(pre, *self, t, key@));
        }
    }

    /// Retract every record of `key` under instant `t`, removing the bucket
    /// for `t` when it becomes empty.
    pub fn retract(&mut self, t: u128, key: &str)
        requires
            old(self).wf(),
        ensures
            final(self).wf(),
            retracted(*old(self), *final(self), t, key@),
    {
        let ghost pre = *old(self);
        let key_owned: String = key.to_owned();
        let mut i: usize = 0;
        while i < self.buckets.len() && self.buckets[i].timestamp != t
            invariant
                *self == pre,
                i <= self.buckets@.len(),
                forall|j: int| 0 <= j < i ==> self.buckets@[j].timestamp != t,
            decreases self.buckets@.len() - i,
        {
            i += 1;
        }
        let ghost ip = i as int;
        if i == self.buckets.len() {
            proof {
                assert forall|t2: u128, k2: Seq<char>|
                    self.contains(t2, k2) <==> (pre.contains(t2, k2) && !(t2 == t && k2
                        == key@)) by {
                    if pre.contains(t2, k2) && t2 == t {
                        let w = choose|w: int|
                            0 <= w < pre.buckets@.len() && pre.buckets@[w].timestamp == t2
                                && pre.buckets@[w].keys.deep_view().contains(k2);
                        assert(false);
                    }
                }
                assert(retracted(pre, *self, t, key@));
            }
            return ;
        }
        let b = self.buckets.remove(i);
        let ghost bkeys = b.keys.deep_view();
        let mut kept: Vec<String> = Vec::new();
        let mut j: usize = 0;
        while j < b.keys.len()
            invariant
                j <= b.keys@.len(),
                bkeys == b.keys.deep_view(),
                bkeys.len() == b.keys@.len(),
                forall|k2: Seq<char>|
                    kept.deep_view().contains(k2) <==> (bkeys.take(j as int).contains(k2) && k2
                        != key@),
                key_owned@ == key@,
            decreases b.keys@.len() - j,
        {
            let ghost kept_pre = kept.deep_view();
            let ghost cur = bkeys[j as int];
            proof {
                assert(bkeys.take(j + 1 as int) =~= bkeys.take(j as int).push(cur));
                lemma_push_contains(bkeys.take(j as int), cur, cur);
            }
            if !b.keys[j].eq(&key_owned) {
                kept.push(b.keys[j].clone());
                proof {
                    assert(kept.deep_view() =~= kept_pre.push(cur));
                    assert forall|k2: Seq<char>|
                        kept.deep_view().contains(k2) <==> (bkeys.take(j + 1 as int).contains(k2)
                            && k2 != key@) by {
                        lemma_push_contains(kept_pre, cur, k2);
                        lemma_push_contains(bkeys.take(j as int), cur, k2);
                    }
                }
            } else {
                proof {
                    assert forall|k2: Seq<char>|
                        kept.deep_view().contains(k2) <==> (bkeys.take(j + 1 as int).contains(k2)
                            && k2 != key@) by {
                        lemma_push_contains(bkeys.take(j as int), cur, k2);
                    }
                }
            }
            j += 1;
        }
        proof {
            assert(bkeys.take(b.keys@.len() as int) =~= bkeys);
            // only the bucket at `ip` can carry instant `t`
            assert forall|w: int|
                0 <= w < pre.buckets@.len() && pre.buckets@[w].timestamp == t implies w == ip by {
                if w < ip {
                } else if w > ip {
                    assert(pre.buckets@[ip].timestamp < pre.buckets@[w].timestamp);
                }
            }
        }
        if kept.len() == 0 {
            proof {
                assert(self.buckets@ =~= pre.buckets@.remove(ip));
                assert forall|t2: u128, k2: Seq<char>|
                    self.contains(t2, k2) <==> (pre.contains(t2, k2) && !(t2 == t && k2
                        == key@)) by {
                    if self.contains(t2, k2) {
                        let w = choose|w: int|
                            0 <= w < self.buckets@.len() && self.buckets@[w].timestamp == t2
                                && self.buckets@[w].keys.deep_view().contains(k2);
                        if w < ip {
                            assert(pre.buckets@[w].keys.deep_view().contains(k2));
                            assert(pre.contains(t2, k2));
                            assert(pre.buckets@[w].timestamp != t);
                        } else {
                            assert(pre.buckets@[w + 1].keys.deep_view().contains(k2));
                            assert(pre.contains(t2, k2));
                            assert(pre.buckets@[w + 1].timestamp != t);
                        }
                    }
                    if pre.contains(t2, k2) && !(t2 == t && k2 == key@) {
                        let w = choose|w: int|
                            0 <= w < pre.buckets@.len() && pre.buckets@[w].timestamp == t2
                                && pre.buckets@[w].keys.deep_view().contains(k2);
                        if w == ip {
                            assert(t2 == t && k2 != key@);
                            assert(bkeys.contains(k2));
                            assert(kept.deep_view().contains(k2));
                            assert(false);
                        } else if w < ip {
                            assert(self.buckets@[w].keys.deep_view().contains(k2));
                            assert(self.contains(t2, k2));
                        } else {
                            assert(self.buckets@[w - 1].keys.deep_view().contains(k2));
                            assert(self.contains(t2, k2));
                        }
                    }
                }
                assert(retracted(pre, *self, t, key@));
            }
        } else {
            self.buckets.insert(i, ExpirationBucket { timestamp: t, keys: kept });
            proof {
                assert(self.buckets@ =~= pre.buckets@.update(ip, self.buckets@[ip]));
                assert forall|t2: u128, k2: Seq<char>|
                    self.contains(t2, k2) <==> (pre.contains(t2, k2) && !(t2 == t && k2
                        == key@)) by {
                    if self.contains(t2, k2) {
                        let w = choose|w: int|
                            0 <= w < self.buckets@.len() && self.buckets@[w].timestamp == t2
                                && self.buckets@[w].keys.deep_view().contains(k2);
                        if w == ip {
                            assert(bkeys.contains(k2) && k2 != key@);
                            assert(pre.buckets@[ip].keys.deep_view().contains(k2));
                            assert(pre.contains(t2, k2));
                        } else {
                            assert(pre.buckets@[w].keys.deep_view().contains(k2));
                            assert(pre.contains(t2, k2));
                            assert(pre.buckets@[w].timestamp != t);
                        }
                    }
                    if pre.contains(t2, k2) && !(t2 == t && k2 == key@) {
                        let w = choose|w: int|
                            0 <= w < pre.buckets@.len() && pre.buckets@[w].timestamp == t2
                                && pre.buckets@[w].keys.deep_view().contains(k2);
                        if w == ip {
                            assert(k2 != key@);
                            assert(kept.deep_view().contains(k2));
                            assert(self.contains(t2, k2));
                        } else {
                            assert(self.buckets@[w].keys.deep_view().contains(k2));
                            assert(self.contains(t2, k2));
                        }
                    }
                }
                assert(retracted(pre, *self, t, key@));
            }
        }
    }
}

} // verus!
