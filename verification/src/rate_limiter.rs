//! The per-client sliding-window rate limiter: a client is admitted while
//! fewer than `capacity` of its admitted requests lie within the trailing
//! `window` ticks; its stale timestamps are evicted lazily on access.
use vstd::prelude::*;

verus! {

/// A timestamp lies within the trailing window ending at `now`.
pub open spec fn in_window(t: u64, now: u64, window: u64) -> bool {
    t + window > now
}

/// The timestamps of `ts` still within the trailing window.
pub open spec fn recent(ts: Seq<u64>, now: u64, window: u64) -> Seq<u64> {
    ts.filter(|t: u64| in_window(t, now, window))
}

/// The timestamp list of the first entry keyed `client`; empty when absent.
pub open spec fn lookup(entries: Seq<(u64, Seq<u64>)>, client: u64) -> Seq<u64>
    decreases entries.len(),
{
    if entries.len() == 0 {
        Seq::<u64>::empty()
    } else if entries[0].0 == client {
        entries[0].1
    } else {
        lookup(entries.drop_first(), client)
    }
}

/// The views of a sequence of rate-limiter entries.
pub open spec fn entry_views(s: Seq<(u64, Vec<u64>)>) -> Seq<(u64, Seq<u64>)> {
    s.map_values(|p: (u64, Vec<u64>)| (p.0, p.1@))
}

/// Sliding-window admission state shared by all requests: per-client
/// timestamps of admitted requests, a capacity and a window length.
pub struct RateLimiter {
    pub capacity: usize,
    pub window: u64,
    pub entries: Vec<(u64, Vec<u64>)>,
}

impl RateLimiter {
    /// The per-client entries as a sequence of (client, timestamps) pairs.
    pub open spec fn clients(&self) -> Seq<(u64, Seq<u64>)> {
        entry_views(self.entries@)
    }

    /// The timestamps recorded for a client.
    pub open spec fn timestamps_of(&self, client: u64) -> Seq<u64> {
        lookup(self.clients(), client)
    }

    /// Well-formed: one entry per client.
    pub open spec fn wf(&self) -> bool {
        forall|i: int, j: int|
            0 <= i < j < self.clients().len() ==> self.clients()[i].0 != self.clients()[j].0
    }

    /// A fresh limiter admitting `capacity` requests per `window` ticks.
    pub fn new(capacity: usize, window: u64) -> (r: RateLimiter)
        ensures
            r.capacity == capacity,
            r.window == window,
            r.clients() == Seq::<(u64, Seq<u64>)>::empty(),
            r.wf(),
    {
        let r = RateLimiter { capacity, window, entries: Vec::new() };
        proof {
            assert(r.clients() =~= Seq::<(u64, Seq<u64>)>::empty());
        }
        r
    }

    /// One admission decision at time `now`: the client is admitted exactly
    /// when fewer than `capacity` of its recorded timestamps lie within the
    /// trailing window; on admission `now` is recorded. The touched client's
    /// stale timestamps are evicted; every other client is untouched.
    pub fn check_and_update(&mut self, client: u64, now: u64) -> (admitted: bool)
        requires
            old(self).wf(),
        ensures
            final(self).wf(),
            final(self).capacity == old(self).capacity,
            final(self).window == old(self).window,
            admitted == (recent(old(self).timestamps_of(client), now, old(self).window).len()
                < old(self).capacity),
            final(self).timestamps_of(client) == if admitted {
                recent(old(self).timestamps_of(client), now, old(self).window).push(now)
            } else {
                recent(old(self).timestamps_of(client), now, old(self).window)
            },
            forall|c: u64|
                c != client ==> final(self).timestamps_of(c) == old(self).timestamps_of(c),
    {
        let ghost ov = self.clients();
        let ghost expected = recent(lookup(ov, client), now, self.window);
        let ghost adm = expected.len() < self.capacity;
        let mut new_entries: Vec<(u64, Vec<u64>)> = Vec::new();
        let mut found: bool = false;
        let mut admitted: bool = false;
        let mut i: usize = 0;
        proof {
            assert(entry_views(new_entries@) =~= Seq::<(u64, Seq<u64>)>::empty());
        }
        while i < self.entries.len()
            invariant
                0 <= i <= self.entries@.len(),
                ov == self.clients(),
                expected == recent(lookup(ov, client), now, self.window),
                adm == (expected.len() < self.capacity),
                old(self).wf(),
                self == old(self),
                entry_views(new_entries@).len() == i,
                forall|j: int|
                    0 <= j < i ==> entry_views(new_entries@)[j].0 == ov[j].0,
                forall|j: int|
                    0 <= j < i && ov[j].0 != client ==> entry_views(new_entries@)[j].1 == ov[j].1,
                found <==> exists|j: int| 0 <= j < i && ov[j].0 == client,
                forall|j: int|
                    0 <= j < i && ov[j].0 == client ==> entry_views(new_entries@)[j].1 == (
                    if adm {
                        expected.push(now)
                    } else {
                        expected
                    }),
                found ==> admitted == adm,
                !found ==> admitted == false,
            decreases self.entries@.len() - i,
        {
            let ghost nv0 = entry_views(new_entries@);
            let key = self.entries[i].0;
            if key == client {
                proof {
                    assert forall|k: int| 0 <= k < i implies ov[k].0 != client by {
                        if ov[k].0 == client {
                            assert(ov[i as int].0 == client);
                        }
                    }
                    lemma_lookup_first(ov, client, i as int);
                    assert(lookup(ov, client) == ov[i as int].1);
                    assert(ov[i as int].1 == self.entries@[i as int].1@);
                }
                let mut pruned = prune_window(&self.entries[i].1, now, self.window);
                let ok = pruned.len() < self.capacity;
                if ok {
                    pruned.push(now);
                }
                admitted = ok;
                found = true;
                new_entries.push((client, pruned));
                proof {
                    assert(entry_views(new_entries@) =~= nv0.push(
                        (client, new_entries@.last().1@),
                    ));
                }
            } else {
                let ts = copy_u64s(&self.entries[i].1);
                new_entries.push((key, ts));
                proof {
                    assert(entry_views(new_entries@) =~= nv0.push((key, new_entries@.last().1@)));
                    assert(ov[i as int].0 == key);
                    assert(ov[i as int].1 == self.entries@[i as int].1@);
                }
            }
            i += 1;
        }
        let ghost nv = entry_views(new_entries@);
        if !found {
            proof {
                reveal(Seq::filter);
                assert forall|j: int| 0 <= j < ov.len() implies ov[j].0 != client by {}
                lemma_lookup_absent(ov, client);
                assert(expected =~= recent(Seq::<u64>::empty(), now, self.window));
                assert(Seq::<u64>::empty().filter(|t: u64| in_window(t, now, self.window))
                    =~= Seq::<u64>::empty());
            }
            let ok = 0 < self.capacity;
            admitted = ok;
            if ok {
                let mut ts: Vec<u64> = Vec::new();
                ts.push(now);
                new_entries.push((client, ts));
                proof {
                    assert(entry_views(new_entries@) =~= nv.push((client, seq![now])));
                    assert(expected =~= Seq::<u64>::empty());
                    assert(expected.push(now) =~= seq![now]);
                }
            }
        }
        let ghost fv = entry_views(new_entries@);
        proof {
            // The touched client's entry.
            if found {
                let j = choose|j: int| 0 <= j < ov.len() && ov[j].0 == client;
                assert forall|k: int| 0 <= k < j implies fv[k].0 != client by {
                    if fv[k].0 == client {
                        assert(ov[k].0 == client);
                    }
                }
                lemma_lookup_first(fv, client, j);
            } else if adm {
                assert forall|k: int| 0 <= k < fv.len() - 1 implies fv[k].0 != client by {
                    if fv[k].0 == client {
                        assert(ov[k].0 == client);
                    }
                }
                lemma_lookup_first(fv, client, fv.len() - 1);
            } else {
                assert forall|k: int| 0 <= k < fv.len() implies fv[k].0 != client by {
                    if fv[k].0 == client {
                        assert(ov[k].0 == client);
                    }
                }
                lemma_lookup_absent(fv, client);
            }
            // Other clients are untouched.
            assert forall|c: u64| c != client implies lookup(fv, c) == lookup(ov, c) by {
                if found {
                    lemma_lookup_same_except(ov, fv, client, c);
                } else if adm {
                    lemma_lookup_same_except(ov, fv.drop_last(), client, c);
                    lemma_lookup_push_other(fv.drop_last(), (client, seq![now]), c);
                    assert(fv.drop_last().push((client, seq![now])) =~~= fv);
                } else {
                    lemma_lookup_same_except(ov, fv, client, c);
                }
            }
            // Well-formedness is preserved: keys are the old keys, plus the
            // client's at the end only when it was absent.
            assert forall|x: int, y: int| 0 <= x < y < fv.len() implies fv[x].0 != fv[y].0 by {
                if found || !adm {
                    assert(fv[x].0 == ov[x].0 && fv[y].0 == ov[y].0);
                } else {
                    if y < fv.len() - 1 {
                        assert(fv[x].0 == ov[x].0 && fv[y].0 == ov[y].0);
                    } else {
                        assert(fv[x].0 == ov[x].0);
                        if ov[x].0 == client {
                            assert(ov[x].0 == client);
                        }
                    }
                }
            }
        }
        self.entries = new_entries;
        admitted
    }
}

/// The timestamps still within the trailing window, in order.
pub fn prune_window(ts: &Vec<u64>, now: u64, window: u64) -> (r: Vec<u64>)
    ensures
        r@ == recent(ts@, now, window),
{
    let mut r: Vec<u64> = Vec::new();
    let mut k: usize = 0;
    proof {
        reveal(Seq::filter);
        assert(ts@.take(0) =~= Seq::<u64>::empty());
        assert(recent(ts@.take(0), now, window) =~= Seq::<u64>::empty());
    }
    while k < ts.len()
        invariant
            0 <= k <= ts@.len(),
            r@ == recent(ts@.take(k as int), now, window),
        decreases ts@.len() - k,
    {
        let t = ts[k];
        let keep = if now < window {
            true
        } else {
            t > now - window
        };
        proof {
            reveal(Seq::filter);
            assert(keep == in_window(t, now, window));
            assert(ts@.take(k + 1).drop_last() =~= ts@.take(k as int));
            assert(ts@.take(k + 1).last() == ts@[k as int]);
            assert(recent(ts@.take(k + 1), now, window) == if in_window(
                ts@[k as int],
                now,
                window,
            ) {
                recent(ts@.take(k as int), now, window).push(ts@[k as int])
            } else {
                recent(ts@.take(k as int), now, window)
            });
        }
        if keep {
            r.push(t);
        }
        k += 1;
    }
    proof {
        assert(ts@.take(ts@.len() as int) =~= ts@);
    }
    r
}

/// A copy of a timestamp vector.
pub fn copy_u64s(ts: &Vec<u64>) -> (r: Vec<u64>)
    ensures
        r@ == ts@,
{
    let mut r: Vec<u64> = Vec::new();
    let mut k: usize = 0;
    while k < ts.len()
        invariant
            0 <= k <= ts@.len(),
            r@ == ts@.take(k as int),
        decreases ts@.len() - k,
    {
        r.push(ts[k]);
        proof {
            assert(r@ =~= ts@.take(k + 1));
        }
        k += 1;
    }
    proof {
        assert(ts@.take(ts@.len() as int) =~= ts@);
    }
    r
}

/// The lookup of a client resolves to its first entry.
pub proof fn lemma_lookup_first(s: Seq<(u64, Seq<u64>)>, client: u64, i: int)
    requires
        0 <= i < s.len(),
        s[i].0 == client,
        forall|j: int| 0 <= j < i ==> s[j].0 != client,
    ensures
        lookup(s, client) == s[i].1,
    decreases i,
{
    if i == 0 {
    } else {
        assert(forall|j: int| 0 <= j < i - 1 ==> s.drop_first()[j] == s[j + 1]);
        lemma_lookup_first(s.drop_first(), client, i - 1);
    }
}

/// A client with no entry resolves to the empty timestamp list.
pub proof fn lemma_lookup_absent(s: Seq<(u64, Seq<u64>)>, client: u64)
    requires
        forall|j: int| 0 <= j < s.len() ==> s[j].0 != client,
    ensures
        lookup(s, client) == Seq::<u64>::empty(),
    decreases s.len(),
{
    if s.len() > 0 {
        assert(forall|j: int| 0 <= j < s.len() - 1 ==> s.drop_first()[j] == s[j + 1]);
        lemma_lookup_absent(s.drop_first(), client);
    }
}

/// Two entry lists with the same keys whose values differ at most at
/// `client`'s entries resolve every other client alike.
pub proof fn lemma_lookup_same_except(
    s1: Seq<(u64, Seq<u64>)>,
    s2: Seq<(u64, Seq<u64>)>,
    client: u64,
    c: u64,
)
    requires
        s1.len() == s2.len(),
        forall|j: int| 0 <= j < s1.len() ==> s1[j].0 == s2[j].0,
        forall|j: int| 0 <= j < s1.len() && s1[j].0 != client ==> s1[j].1 == s2[j].1,
        c != client,
    ensures
        lookup(s2, c) == lookup(s1, c),
    decreases s1.len(),
{
    if s1.len() > 0 {
        if s1[0].0 == c {
        } else {
            assert(forall|j: int| 0 <= j < s1.len() - 1 ==> s1.drop_first()[j] == s1[j + 1]);
            assert(forall|j: int| 0 <= j < s2.len() - 1 ==> s2.drop_first()[j] == s2[j + 1]);
            lemma_lookup_same_except(s1.drop_first(), s2.drop_first(), client, c);
        }
    }
}

/// Appending an entry for another client leaves a lookup unchanged.
pub proof fn lemma_lookup_push_other(s: Seq<(u64, Seq<u64>)>, e: (u64, Seq<u64>), c: u64)
    requires
        c != e.0,
    ensures
        lookup(s.push(e), c) == lookup(s, c),
    decreases s.len(),
{
    if s.len() == 0 {
        assert(s.push(e)[0] == e);
        assert(s.push(e).drop_first() =~= Seq::<(u64, Seq<u64>)>::empty());
        assert(lookup(s.push(e), c) == lookup(s.push(e).drop_first(), c));
    } else {
        assert(s.push(e)[0] == s[0]);
        assert(s.push(e).drop_first() =~= s.drop_first().push(e));
        if s[0].0 == c {
            assert(lookup(s.push(e), c) == s.push(e)[0].1);
            assert(lookup(s, c) == s[0].1);
        } else {
            lemma_lookup_push_other(s.drop_first(), e, c);
            assert(lookup(s.push(e), c) == lookup(s.push(e).drop_first(), c));
            assert(lookup(s, c) == lookup(s.drop_first(), c));
        }
    }
}

} // verus!
