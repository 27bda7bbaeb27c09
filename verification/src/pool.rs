use vstd::prelude::*;
use rand::RngExt;

verus! {

/// What a checkout attempt should do next: health-check an idle
/// connection, create a fresh one under the given new identifier, or
/// wait until a connection is given back.
#[derive(Debug, Clone, Copy, PartialEq, Eq, Structural)]
pub enum CheckoutStep {
    Recycle(u64),
    Create(u64),
    Wait,
}

/// Relies on rand's `RngExt::random_range` over the thread-local
/// generator: the sampled value lies within the given range, which is
/// nonempty here. Seeding the generator aborts only if the operating
/// system cannot supply entropy.
#[verifier::external_body]
fn random_below(n: usize) -> (r: usize)
    requires
        n > 0,
    ensures
        r < n,
{
    rand::rng().random_range(0..n)
}

/// Pick the endpoint a fresh connection should dial: a uniformly random
/// element of the discovered list, picked anew per creation.
pub fn pick_endpoint(servers: &Vec<String>) -> (r: &String)
    requires
        servers@.len() > 0,
    ensures
        exists|i: int| 0 <= i < servers@.len() && r == servers@[i],
{
    let i = random_below(servers.len());
    &servers[i]
}

pub open spec fn nodup_seq(s: Seq<u64>) -> bool {
    forall|i: int, j: int| 0 <= i < j < s.len() ==> s[i] != s[j]
}

/// The bookkeeping of the bounded connection pool: which connection
/// identifiers sit idle, which are leased out, which single one is being
/// health-checked or created, and which are gone for good.
pub struct PoolModel {
    pub max_size: usize,
    pub idle: Vec<u64>,
    pub leased: Vec<u64>,
    pub pending: Option<u64>,
    pub creating: Option<u64>,
    pub next_id: u64,
    pub destroyed: Ghost<Set<u64>>,
}

impl PoolModel {
    /// Connections currently out of the idle set: leased, under a health
    /// check, or being created.
    pub open spec fn outstanding(self) -> int {
        self.leased@.len() + (if self.pending is Some {
            1int
        } else {
            0int
        }) + (if self.creating is Some {
            1int
        } else {
            0int
        })
    }

    /// The pool's invariant: a bounded, duplicate-free collection of
    /// fresh, never-destroyed identifiers, each tracked in exactly one
    /// place.
    pub open spec fn wf(self) -> bool {
        &&& self.max_size >= 1
        &&& self.idle@.len() + self.outstanding() <= self.max_size
        &&& nodup_seq(self.idle@)
        &&& nodup_seq(self.leased@)
        &&& (forall|i: int| 0 <= i < self.idle@.len() ==> !self.leased@.contains(
            #[trigger] self.idle@[i],
        ))
        &&& (self.pending matches Some(p) ==> !self.idle@.contains(p) && !self.leased@.contains(
            p,
        ) && self.creating != Some(p))
        &&& (self.creating matches Some(c) ==> !self.idle@.contains(c) && !self.leased@.contains(
            c,
        ))
        &&& (forall|i: int| 0 <= i < self.idle@.len() ==> #[trigger] self.idle@[i] < self.next_id
            && !self.destroyed@.contains(self.idle@[i]))
        &&& (forall|i: int| 0 <= i < self.leased@.len() ==> #[trigger] self.leased@[i]
            < self.next_id && !self.destroyed@.contains(self.leased@[i]))
        &&& (self.pending matches Some(p) ==> p < self.next_id && !self.destroyed@.contains(p))
        &&& (self.creating matches Some(c) ==> c < self.next_id && !self.destroyed@.contains(c))
        &&& (forall|d: u64| self.destroyed@.contains(d) ==> d < self.next_id)
    }

    /// A fresh pool of the given bound, with nothing created yet.
    pub fn new(max_size: usize) -> (r: PoolModel)
        requires
            max_size >= 1,
        ensures
            r.wf(),
            r.max_size == max_size,
            r.idle@.len() == 0,
            r.leased@.len() == 0,
            r.pending is None,
            r.creating is None,
            r.destroyed@ == Set::<u64>::empty(),
    {
        PoolModel {
            max_size,
            idle: Vec::new(),
            leased: Vec::new(),
            pending: None,
            creating: None,
            next_id: 0,
            destroyed: Ghost(Set::empty()),
        }
    }

    /// Decide a checkout attempt: reuse the most recently returned idle
    /// connection after a health check, create a fresh one when below the
    /// bound, or make the caller wait. Never names a destroyed identifier,
    /// and never lets the bound be exceeded.
    pub fn checkout_step(&mut self) -> (s: CheckoutStep)
        requires
            old(self).wf(),
            old(self).pending is None,
            old(self).creating is None,
            old(self).next_id < 0xffff_ffff_ffff_ffff_u64,
        ensures
            final(self).wf(),
            final(self).max_size == old(self).max_size,
            final(self).leased@ == old(self).leased@,
            final(self).destroyed@ == old(self).destroyed@,
            old(self).idle@.len() > 0 ==> {
                &&& s == CheckoutStep::Recycle(old(self).idle@.last())
                &&& final(self).idle@ == old(self).idle@.drop_last()
                &&& final(self).pending == Some(old(self).idle@.last())
                &&& final(self).creating is None
                &&& !final(self).destroyed@.contains(old(self).idle@.last())
            },
            old(self).idle@.len() == 0 && old(self).outstanding() < old(self).max_size ==> {
                &&& s == CheckoutStep::Create(old(self).next_id)
                &&& final(self).creating == Some(old(self).next_id)
                &&& final(self).pending is None
                &&& final(self).idle@ == old(self).idle@
                &&& !final(self).destroyed@.contains(old(self).next_id)
            },
            old(self).idle@.len() == 0 && old(self).outstanding() >= old(self).max_size ==> s
                == CheckoutStep::Wait && *final(self) == *old(self),
            final(self).outstanding() <= final(self).max_size,
    {
        if self.idle.len() > 0 {
            let id = self.idle[self.idle.len() - 1];
            self.idle.pop();
            self.pending = Some(id);
            proof {
                let oldidle = old(self).idle@;
                assert(self.idle@ == oldidle.drop_last());
                assert(oldidle[oldidle.len() - 1] == id);
                assert forall|i: int| 0 <= i < self.idle@.len() implies self.idle@[i] != id by {
                    assert(oldidle[i] != oldidle[oldidle.len() - 1]);
                }
                assert(!self.idle@.contains(id));
                assert(oldidle.contains(id));
            }
            CheckoutStep::Recycle(id)
        } else if self.leased.len() < self.max_size {
            let id = self.next_id;
            self.creating = Some(id);
            self.next_id = id + 1;
            proof {
                assert(!self.leased@.contains(id)) by {
                    if self.leased@.contains(id) {
                        let k = choose|k: int|
                            0 <= k < self.leased@.len() && self.leased@[k] == id;
                        assert(self.leased@[k] < id);
                    }
                }
            }
            CheckoutStep::Create(id)
        } else {
            CheckoutStep::Wait
        }
    }

    /// Record the health check of the pending connection. A healthy one is
    /// leased to the caller; an unhealthy one is destroyed and never seen
    /// again, a later attempt creating a replacement instead.
    pub fn recycle_result(&mut self, healthy: bool) -> (granted: Option<u64>)
        requires
            old(self).wf(),
            old(self).pending is Some,
        ensures
            final(self).wf(),
            final(self).max_size == old(self).max_size,
            final(self).pending is None,
            final(self).creating == old(self).creating,
            final(self).idle@ == old(self).idle@,
            healthy ==> {
                &&& granted == Some(old(self).pending.unwrap())
                &&& final(self).leased@ == old(self).leased@.push(old(self).pending.unwrap())
                &&& final(self).destroyed@ == old(self).destroyed@
            },
            !healthy ==> {
                &&& granted is None
                &&& final(self).leased@ == old(self).leased@
                &&& final(self).destroyed@ == old(self).destroyed@.insert(
                    old(self).pending.unwrap(),
                )
                &&& !final(self).idle@.contains(old(self).pending.unwrap())
                &&& !final(self).leased@.contains(old(self).pending.unwrap())
            },
            final(self).outstanding() <= final(self).max_size,
    {
        let id = match self.pending {
            Some(id) => id,
            None => {
                proof {
                    assert(false);
                }
                0
            },
        };
        self.pending = None;
        if healthy {
            self.leased.push(id);
            proof {
                self.lemma_after_lease_push(*old(self), id);
            }
            Some(id)
        } else {
            self.destroyed = Ghost(self.destroyed@.insert(id));
            proof {
                assert forall|i: int| 0 <= i < self.idle@.len() implies #[trigger] self.idle@[i]
                    < self.next_id && !self.destroyed@.contains(self.idle@[i]) by {
                    assert(self.idle@.contains(self.idle@[i]));
                }
                assert forall|i: int| 0 <= i < self.leased@.len() implies #[trigger] self.leased@[
                    i
                ] < self.next_id && !self.destroyed@.contains(self.leased@[i]) by {
                    assert(self.leased@.contains(self.leased@[i]));
                }
            }
            None
        }
    }

    proof fn lemma_after_lease_push(self, prev: PoolModel, id: u64)
        requires
            prev.wf(),
            !prev.idle@.contains(id),
            !prev.leased@.contains(id),
            self.idle@ == prev.idle@,
            self.leased@ == prev.leased@.push(id),
            self.next_id == prev.next_id,
            self.destroyed@ == prev.destroyed@,
            id < prev.next_id,
            !prev.destroyed@.contains(id),
        ensures
            nodup_seq(self.leased@),
            forall|i: int| 0 <= i < self.idle@.len() ==> !self.leased@.contains(
                #[trigger] self.idle@[i],
            ),
            forall|i: int| 0 <= i < self.leased@.len() ==> #[trigger] self.leased@[i]
                < self.next_id && !self.destroyed@.contains(self.leased@[i]),
    {
        let oldleased = prev.leased@;
        assert forall|i: int, j: int| 0 <= i < j < self.leased@.len() implies self.leased@[i]
            != self.leased@[j] by {
            if j == self.leased@.len() - 1 {
                assert(self.leased@[i] == oldleased[i]);
                assert(oldleased.contains(oldleased[i]));
            }
        }
        assert forall|i: int| 0 <= i < self.idle@.len() implies !self.leased@.contains(
            #[trigger] self.idle@[i],
        ) by {
            if self.leased@.contains(self.idle@[i]) {
                let k = choose|k: int| 0 <= k < self.leased@.len() && self.leased@[k]
                    == self.idle@[i];
                if k < self.leased@.len() - 1 {
                    assert(oldleased[k] == self.leased@[k]);
                    assert(oldleased.contains(oldleased[k]));
                } else {
                    assert(self.idle@.contains(self.idle@[i]));
                }
            }
        }
        assert forall|i: int| 0 <= i < self.leased@.len() implies #[trigger] self.leased@[i]
            < self.next_id && !self.destroyed@.contains(self.leased@[i]) by {
            if i < self.leased@.len() - 1 {
                assert(oldleased[i] == self.leased@[i]);
            }
        }
    }

    /// Record the outcome of creating a fresh connection. A successful one
    /// is leased to the caller; a failed attempt frees its slot, and its
    /// identifier is never used again.
    pub fn create_result(&mut self, ok: bool) -> (granted: Option<u64>)
        requires
            old(self).wf(),
            old(self).creating is Some,
        ensures
            final(self).wf(),
            final(self).max_size == old(self).max_size,
            final(self).creating is None,
            final(self).pending == old(self).pending,
            final(self).idle@ == old(self).idle@,
            ok ==> {
                &&& granted == Some(old(self).creating.unwrap())
                &&& final(self).leased@ == old(self).leased@.push(old(self).creating.unwrap())
                &&& final(self).destroyed@ == old(self).destroyed@
            },
            !ok ==> {
                &&& granted is None
                &&& final(self).leased@ == old(self).leased@
                &&& final(self).destroyed@ == old(self).destroyed@.insert(
                    old(self).creating.unwrap(),
                )
            },
            final(self).outstanding() <= final(self).max_size,
    {
        let id = match self.creating {
            Some(id) => id,
            None => {
                proof {
                    assert(false);
                }
                0
            },
        };
        self.creating = None;
        if ok {
            self.leased.push(id);
            proof {
                self.lemma_after_lease_push(*old(self), id);
            }
            Some(id)
        } else {
            self.destroyed = Ghost(self.destroyed@.insert(id));
            proof {
                assert forall|i: int| 0 <= i < self.idle@.len() implies #[trigger] self.idle@[i]
                    < self.next_id && !self.destroyed@.contains(self.idle@[i]) by {
                    assert(self.idle@.contains(self.idle@[i]));
                }
                assert forall|i: int| 0 <= i < self.leased@.len() implies #[trigger] self.leased@[
                    i
                ] < self.next_id && !self.destroyed@.contains(self.leased@[i]) by {
                    assert(self.leased@.contains(self.leased@[i]));
                }
            }
            None
        }
    }

    fn lease_index(&self, id: u64) -> (k: usize)
        requires
            self.leased@.contains(id),
        ensures
            k < self.leased@.len(),
            self.leased@[k as int] == id,
    {
        let mut k: usize = 0;
        while k < self.leased.len()
            invariant
                0 <= k <= self.leased@.len(),
                forall|j: int| 0 <= j < k ==> self.leased@[j] != id,
                self.leased@.contains(id),
            decreases self.leased@.len() - k,
        {
            if self.leased[k] == id {
                return k;
            }
            k += 1;
        }
        proof {
            let w = choose|w: int| 0 <= w < self.leased@.len() && self.leased@[w] == id;
            assert(self.leased@[w] != id);
        }
        0
    }

    proof fn lemma_after_lease_remove(self, prev: PoolModel, id: u64, k: int)
        requires
            prev.wf(),
            0 <= k < prev.leased@.len(),
            prev.leased@[k] == id,
            self.leased@ == prev.leased@.remove(k),
            self.next_id == prev.next_id,
        ensures
            nodup_seq(self.leased@),
            !self.leased@.contains(id),
            forall|i: int| 0 <= i < self.leased@.len() ==> prev.leased@.contains(
                #[trigger] self.leased@[i],
            ),
    {
        let oldleased = prev.leased@;
        assert forall|i: int| 0 <= i < self.leased@.len() implies self.leased@[i] != id
            && oldleased.contains(#[trigger] self.leased@[i]) by {
            if i < k {
                assert(self.leased@[i] == oldleased[i]);
            } else {
                assert(self.leased@[i] == oldleased[i + 1]);
            }
        }
        assert forall|i: int, j: int| 0 <= i < j < self.leased@.len() implies self.leased@[i]
            != self.leased@[j] by {
            if i < k {
                assert(self.leased@[i] == oldleased[i]);
            } else {
                assert(self.leased@[i] == oldleased[i + 1]);
            }
            if j < k {
                assert(self.leased@[j] == oldleased[j]);
            } else {
                assert(self.leased@[j] == oldleased[j + 1]);
            }
        }
    }

    /// Give a leased connection back: it joins the idle set and waits for
    /// its next health check. Exactly one lease, the one named, is
    /// consumed.
    pub fn give_back(&mut self, id: u64)
        requires
            old(self).wf(),
            old(self).leased@.contains(id),
        ensures
            final(self).wf(),
            final(self).max_size == old(self).max_size,
            final(self).idle@ == old(self).idle@.push(id),
            final(self).pending == old(self).pending,
            final(self).creating == old(self).creating,
            final(self).destroyed@ == old(self).destroyed@,
            exists|k: int|
                #![auto]
                0 <= k < old(self).leased@.len() && old(self).leased@[k] == id
                    && final(self).leased@ == old(self).leased@.remove(k),
    {
        let k = self.lease_index(id);
        self.leased.remove(k);
        self.idle.push(id);
        proof {
            let oldleased = old(self).leased@;
            let oldidle = old(self).idle@;
            self.lemma_after_lease_remove(*old(self), id, k as int);
            assert(oldleased.contains(id));
            assert(nodup_seq(self.idle@)) by {
                assert forall|i: int, j: int| 0 <= i < j < self.idle@.len() implies self.idle@[i]
                    != self.idle@[j] by {
                    if j == self.idle@.len() - 1 {
                        assert(self.idle@[i] == oldidle[i]);
                        assert(oldidle.contains(oldidle[i]));
                    }
                }
            }
            assert forall|i: int| 0 <= i < self.idle@.len() implies !self.leased@.contains(
                #[trigger] self.idle@[i],
            ) by {
                if self.leased@.contains(self.idle@[i]) {
                    assert(oldleased.contains(self.idle@[i]));
                    if i < self.idle@.len() - 1 {
                        assert(self.idle@[i] == oldidle[i]);
                        assert(oldidle.contains(oldidle[i]));
                    } else {
                        assert(self.idle@[i] == id);
                        assert(!self.leased@.contains(id));
                    }
                }
            }
            assert forall|i: int| 0 <= i < self.idle@.len() implies #[trigger] self.idle@[i]
                < self.next_id && !self.destroyed@.contains(self.idle@[i]) by {
                if i < self.idle@.len() - 1 {
                    assert(self.idle@[i] == oldidle[i]);
                    assert(oldidle.contains(oldidle[i]));
                } else {
                    assert(self.idle@[i] == id);
                }
            }
            if self.pending is Some {
                let p = self.pending.unwrap();
                assert(!self.idle@.contains(p)) by {
                    if self.idle@.contains(p) {
                        let w = choose|w: int|
                            0 <= w < self.idle@.len() && self.idle@[w] == p;
                        if w < self.idle@.len() - 1 {
                            assert(oldidle[w] == p);
                            assert(oldidle.contains(oldidle[w]));
                        } else {
                            assert(p == id);
                            assert(oldleased.contains(id));
                        }
                    }
                }
                assert(!self.leased@.contains(p)) by {
                    if self.leased@.contains(p) {
                        assert(oldleased.contains(p));
                    }
                }
            }
            if self.creating is Some {
                let c = self.creating.unwrap();
                assert(!self.idle@.contains(c)) by {
                    if self.idle@.contains(c) {
                        let w = choose|w: int|
                            0 <= w < self.idle@.len() && self.idle@[w] == c;
                        if w < self.idle@.len() - 1 {
                            assert(oldidle[w] == c);
                            assert(oldidle.contains(oldidle[w]));
                        } else {
                            assert(c == id);
                            assert(oldleased.contains(id));
                        }
                    }
                }
                assert(!self.leased@.contains(c)) by {
                    if self.leased@.contains(c) {
                        assert(oldleased.contains(c));
                    }
                }
            }
        }
    }

    /// Destroy a leased connection outright, for a fatal protocol error:
    /// it never rejoins the pool.
    pub fn discard(&mut self, id: u64)
        requires
            old(self).wf(),
            old(self).leased@.contains(id),
        ensures
            final(self).wf(),
            final(self).max_size == old(self).max_size,
            final(self).idle@ == old(self).idle@,
            final(self).pending == old(self).pending,
            final(self).creating == old(self).creating,
            final(self).destroyed@ == old(self).destroyed@.insert(id),
            !final(self).leased@.contains(id),
            exists|k: int|
                #![auto]
                0 <= k < old(self).leased@.len() && old(self).leased@[k] == id
                    && final(self).leased@ == old(self).leased@.remove(k),
    {
        let k = self.lease_index(id);
        self.leased.remove(k);
        self.destroyed = Ghost(self.destroyed@.insert(id));
        proof {
            let oldleased = old(self).leased@;
            self.lemma_after_lease_remove(*old(self), id, k as int);
            assert forall|i: int| 0 <= i < self.idle@.len() implies #[trigger] self.idle@[i]
                < self.next_id && !self.destroyed@.contains(self.idle@[i]) by {
                assert(self.idle@.contains(self.idle@[i]));
                assert(oldleased.contains(id));
            }
            assert forall|i: int| 0 <= i < self.leased@.len() implies #[trigger] self.leased@[i]
                < self.next_id && !self.destroyed@.contains(self.leased@[i]) by {
                assert(oldleased.contains(self.leased@[i]));
                let w = choose|w: int|
                    0 <= w < oldleased.len() && oldleased[w] == self.leased@[i];
                assert(oldleased[w] == self.leased@[i]);
                assert(self.leased@[i] != id);
            }
            if self.pending is Some {
                let p = self.pending.unwrap();
                assert(p != id) by {
                    assert(oldleased.contains(id));
                }
            }
            if self.creating is Some {
                let c = self.creating.unwrap();
                assert(c != id) by {
                    assert(oldleased.contains(id));
                }
            }
        }
    }
}

/// The pool never has more than `max_size` connections outstanding, nor
/// more than `max_size` tracked at all.
pub proof fn lemma_pool_bounded(p: PoolModel)
    requires
        p.wf(),
    ensures
        p.outstanding() <= p.max_size,
        p.idle@.len() + p.outstanding() <= p.max_size,
{
}

/// A destroyed connection is nowhere among those the pool still tracks,
/// so no later checkout can see it again.
pub proof fn lemma_destroyed_stay_out(p: PoolModel, id: u64)
    requires
        p.wf(),
        p.destroyed@.contains(id),
    ensures
        !p.idle@.contains(id),
        !p.leased@.contains(id),
        p.pending != Some(id),
        p.creating != Some(id),
{
    if p.idle@.contains(id) {
        let k = choose|k: int| 0 <= k < p.idle@.len() && p.idle@[k] == id;
        assert(p.idle@[k] == id);
    }
    if p.leased@.contains(id) {
        let k = choose|k: int| 0 <= k < p.leased@.len() && p.leased@[k] == id;
        assert(p.leased@[k] == id);
    }
}

} // verus!
