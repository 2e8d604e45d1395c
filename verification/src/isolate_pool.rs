//! The per-plugin isolate pool: at most one isolate per plugin, kept in creation order
//! and given up in the reverse order, as V8 requires of nested isolates. The isolates
//! themselves (`H`) are made and run by the application.
use vstd::prelude::*;
use crate::keyed_vec::KeyedVec;

verus! {

/// Why the pool refused a request.
#[derive(Debug, Clone, Copy, PartialEq, Eq)]
pub enum PoolError {
    /// The plugin already has an isolate.
    AlreadyExists,
    /// The plugin has no isolate.
    NotFound,
}

/// The isolates by plugin, in creation order.
pub struct IsolatePool<H> {
    isolates: KeyedVec<H>,
}

impl<H> IsolatePool<H> {
    pub closed spec fn wf(&self) -> bool {
        self.isolates.wf()
    }

    /// The plugins with an isolate, in creation order.
    pub closed spec fn order(&self) -> Seq<Seq<char>> {
        self.isolates.keys()
    }

    /// The isolates, in creation order.
    pub closed spec fn hosts(&self) -> Seq<H> {
        self.isolates.values()
    }

    /// The pool lists each plugin once, with one isolate each.
    pub proof fn lemma_wf(&self)
        requires
            self.wf(),
        ensures
            self.order().no_duplicates(),
            self.order().len() == self.hosts().len(),
    {
        self.isolates.lemma_wf();
    }

    /// An empty pool.
    pub fn new() -> (r: Self)
        ensures
            r.wf(),
            r.order() == Seq::<Seq<char>>::empty(),
            r.hosts() == Seq::<H>::empty(),
    {
        IsolatePool { isolates: KeyedVec::new() }
    }

    /// How many isolates there are.
    pub fn len(&self) -> (n: usize)
        requires
            self.wf(),
        ensures
            n == self.order().len(),
    {
        self.isolates.len()
    }

    /// Whether `plugin_id` has an isolate.
    pub fn has(&self, plugin_id: &str) -> (b: bool)
        requires
            self.wf(),
        ensures
            b == self.order().contains(plugin_id@),
    {
        self.isolates.contains(plugin_id)
    }

    /// The plugins with an isolate, in creation order.
    pub fn list(&self) -> (r: Vec<String>)
        requires
            self.wf(),
        ensures
            r@.map_values(|s: String| s@) == self.order(),
    {
        proof {
            self.isolates.lemma_wf();
        }
        let n = self.isolates.len();
        let mut out: Vec<String> = Vec::new();
        for i in 0..n
            invariant
                n == self.order().len(),
                self.wf(),
                out@.map_values(|s: String| s@) == self.order().take(i as int),
        {
            let k = self.isolates.key_at(i).clone();
            let ghost before = out@;
            out.push(k);
            proof {
                assert(out@.map_values(|s: String| s@) =~= before.map_values(|s: String| s@).push(
                    self.order()[i as int],
                ));
                assert(self.order().take(i + 1) =~= self.order().take(i as int).push(self.order()[i as int]));
            }
        }
        proof {
            assert(self.order().take(n as int) =~= self.order());
        }
        out
    }

    /// Adds the isolate of a plugin after all others; refused when it already has one.
    pub fn add(&mut self, plugin_id: &str, host: H) -> (r: Result<(), PoolError>)
        requires
            old(self).wf(),
        ensures
            final(self).wf(),
            r is Ok <==> !old(self).order().contains(plugin_id@),
            r is Ok ==> final(self).order() == old(self).order().push(plugin_id@) && final(self).hosts()
                == old(self).hosts().push(host),
            r is Err ==> r == Err::<(), PoolError>(PoolError::AlreadyExists) && final(self).order() == old(
                self,
            ).order() && final(self).hosts() == old(self).hosts(),
    {
        if self.isolates.contains(plugin_id) {
            return Err(PoolError::AlreadyExists);
        }
        self.isolates.insert(plugin_id.to_owned(), host);
        Ok(())
    }

    /// Takes a plugin's isolate out of the pool, the others keeping their order;
    /// refused when it has none.
    pub fn kill(&mut self, plugin_id: &str) -> (r: Result<H, PoolError>)
        requires
            old(self).wf(),
        ensures
            final(self).wf(),
            r is Ok <==> old(self).order().contains(plugin_id@),
            match r {
                Ok(h) => {
                    let i = old(self).order().index_of(plugin_id@);
                    &&& h == old(self).hosts()[i]
                    &&& final(self).order() == old(self).order().remove(i)
                    &&& final(self).hosts() == old(self).hosts().remove(i)
                },
                Err(e) => e == PoolError::NotFound && final(self).order() == old(self).order()
                    && final(self).hosts() == old(self).hosts(),
            },
    {
        proof {
            self.isolates.lemma_wf();
        }
        match self.isolates.remove(plugin_id) {
            Some(h) => {
                proof {
                    crate::keyed_vec::lemma_index_of_unique(old(self).order(), old(self).order().index_of(plugin_id@));
                }
                Ok(h)
            },
            None => Err(PoolError::NotFound),
        }
    }

    /// The isolate at position `i` of the creation order, to be run.
    pub fn host_at_mut(&mut self, i: usize) -> (h: &mut H)
        requires
            old(self).wf(),
            i < old(self).order().len(),
        ensures
            *h == old(self).hosts()[i as int],
            final(self).wf(),
            final(self).order() == old(self).order(),
            final(self).hosts() == old(self).hosts().update(i as int, *final(h)),
    {
        self.isolates.value_at_mut(i)
    }

    /// Empties the pool, handing out the isolates newest first.
    pub fn drain_lifo(&mut self) -> (r: Vec<(String, H)>)
        requires
            old(self).wf(),
        ensures
            final(self).wf(),
            final(self).order() == Seq::<Seq<char>>::empty(),
            r@.len() == old(self).order().len(),
            forall|j: int|
                0 <= j < r@.len() ==> (#[trigger] r@[j]).0@ == old(self).order()[old(self).order().len() - 1 - j]
                    && r@[j].1 == old(self).hosts()[old(self).order().len() - 1 - j],
    {
        proof {
            self.isolates.lemma_wf();
        }
        let ghost ko = old(self).order();
        let ghost ho = old(self).hosts();
        let n = self.isolates.len();
        let mut out: Vec<(String, H)> = Vec::new();
        let mut k = n;
        while k > 0
            invariant
                k <= n,
                n == ko.len(),
                ko.len() == ho.len(),
                self.wf(),
                self.order() == ko.take(k as int),
                self.hosts() == ho.take(k as int),
                out@.len() == n - k,
                forall|j: int| 0 <= j < out@.len() ==> (#[trigger] out@[j]).0@ == ko[n - 1 - j] && out@[j].1 == ho[n - 1 - j],
            decreases k,
        {
            let pair = self.isolates.remove_at(k - 1);
            proof {
                assert(ko.take(k as int).remove(k - 1) =~= ko.take(k - 1));
                assert(ho.take(k as int).remove(k - 1) =~= ho.take(k - 1));
            }
            let ghost before = out@;
            out.push(pair);
            proof {
                assert forall|j: int| 0 <= j < out@.len() implies (#[trigger] out@[j]).0@ == ko[n - 1 - j]
                    && out@[j].1 == ho[n - 1 - j] by {
                    if j < before.len() {
                        assert(out@[j] == before[j]);
                    }
                }
            }
            k = k - 1;
        }
        proof {
            assert(self.order() =~= Seq::<Seq<char>>::empty());
        }
        out
    }
}

} // verus!
