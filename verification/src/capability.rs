//! The capability registry: which capabilities the host can bind at run time.
use vstd::prelude::*;
use crate::keyed_vec::KeyedVec;

verus! {

/// A capability name and what it binds to.
pub struct CapabilityBinding {
    pub name: String,
    pub description: String,
}

/// Capability name to binding; v1 comes with `widget:overlay`, `window:create` and
/// `notification` registered.
pub struct CapabilityRegistry {
    bindings: KeyedVec<CapabilityBinding>,
}

impl CapabilityRegistry {
    /// The bindings are well formed and each is stored under its own name.
    pub closed spec fn wf(&self) -> bool {
        &&& self.bindings.wf()
        &&& forall|i: int|
            0 <= i < self.bindings.keys().len() ==> (#[trigger] self.bindings.values()[i]).name@
                == self.bindings.keys()[i]
    }

    /// The registered capability names with their descriptions.
    pub closed spec fn view(&self) -> Map<Seq<char>, Seq<char>> {
        Map::new(
            |k: Seq<char>| self.bindings.keys().contains(k),
            |k: Seq<char>| self.bindings.values()[self.bindings.keys().index_of(k)].description@,
        )
    }

    fn register(&mut self, name: &str, description: &str)
        requires
            old(self).wf(),
        ensures
            final(self).wf(),
            final(self).view() == old(self).view().insert(name@, description@),
    {
        proof {
            self.bindings.lemma_wf();
        }
        let binding = CapabilityBinding { name: name.to_owned(), description: description.to_owned() };
        let ghost old_b = self.bindings;
        self.bindings.insert(name.to_owned(), binding);
        proof {
            self.bindings.lemma_wf();
            if old_b.keys().contains(name@) {
                crate::keyed_vec::lemma_index_of_unique(
                    old_b.keys(),
                    old_b.keys().index_of(name@),
                );
            }
            assert forall|i: int|
                0 <= i < self.bindings.keys().len() implies (#[trigger] self.bindings.values()[i]).name@
                == self.bindings.keys()[i] by {}
            assert forall|k: Seq<char>|
                #![trigger self.view().dom().contains(k)]
                self.view().dom().contains(k) <==> old(self).view().insert(name@, description@).dom().contains(k) by {
                if old_b.keys().contains(k) {
                    let j = old_b.keys().index_of(k);
                    assert(self.bindings.keys()[j] == k);
                }
                if k == name@ && !old_b.keys().contains(k) {
                    assert(self.bindings.keys()[self.bindings.keys().len() - 1] == k);
                }
            }
            assert forall|k: Seq<char>|
                #![trigger self.view()[k]]
                self.view().dom().contains(k) implies self.view()[k] == old(self).view().insert(
                    name@,
                    description@,
                )[k] by {
                let j = self.bindings.keys().index_of(k);
                crate::keyed_vec::lemma_index_of_unique(self.bindings.keys(), j);
                if k != name@ {
                    let oj = old_b.keys().index_of(k);
                    if old_b.keys().contains(name@) {
                        crate::keyed_vec::lemma_index_of_unique(old_b.keys(), oj);
                        assert(self.bindings.keys()[oj] == k);
                        crate::keyed_vec::lemma_index_of_unique(self.bindings.keys(), oj);
                    } else {
                        crate::keyed_vec::lemma_index_of_unique(old_b.keys(), oj);
                        assert(self.bindings.keys()[oj] == k);
                        crate::keyed_vec::lemma_index_of_unique(self.bindings.keys(), oj);
                    }
                }
            }
            assert(self.view() =~= old(self).view().insert(name@, description@));
        }
    }

    /// A registry holding the three capabilities known to v1.
    pub fn new() -> (r: Self)
        ensures
            r.wf(),
            r.view() == Map::<Seq<char>, Seq<char>>::empty().insert(
                "widget:overlay"@,
                "Widget overlay 桌面窗口渲染"@,
            ).insert("window:create"@, "创建 Utility Window（Tauri WebView）"@).insert(
                "notification"@,
                "系统通知推送"@,
            ),
    {
        let mut reg = CapabilityRegistry { bindings: KeyedVec::new() };
        proof {
            assert(reg.view() =~= Map::<Seq<char>, Seq<char>>::empty());
        }
        reg.register("widget:overlay", "Widget overlay 桌面窗口渲染");
        reg.register("window:create", "创建 Utility Window（Tauri WebView）");
        reg.register("notification", "系统通知推送");
        reg
    }

    /// Registers `name` with `description`, replacing an earlier binding of that name.
    pub fn register_capability(&mut self, name: &str, description: &str) -> (r: Result<(), ()>)
        requires
            old(self).wf(),
        ensures
            final(self).wf(),
            r is Ok,
            final(self).view() == old(self).view().insert(name@, description@),
            final(self).view().dom().finite(),
    {
        self.register(name, description);
        proof {
            self.lemma_finite();
        }
        Ok(())
    }

    /// Finitely many capabilities are registered.
    pub proof fn lemma_finite(&self)
        requires
            self.wf(),
        ensures
            self.view().dom().finite(),
    {
        self.bindings.lemma_wf();
        assert(self.view().dom() =~= self.bindings.keys().to_set());
        vstd::seq_lib::seq_to_set_is_finite(self.bindings.keys());
    }

    /// Whether a capability of that name is registered.
    pub fn has(&self, name: &str) -> (r: bool)
        requires
            self.wf(),
        ensures
            r == self.view().dom().contains(name@),
    {
        self.bindings.contains(name)
    }

    /// The binding registered under `name`.
    pub fn get(&self, name: &str) -> (r: Option<&CapabilityBinding>)
        requires
            self.wf(),
        ensures
            match r {
                Some(b) => self.view().dom().contains(name@) && b.name@ == name@ && b.description@
                    == self.view()[name@],
                None => !self.view().dom().contains(name@),
            },
    {
        proof {
            self.bindings.lemma_wf();
        }
        let r = self.bindings.get(name);
        proof {
            if self.bindings.keys().contains(name@) {
                let j = self.bindings.keys().index_of(name@);
                assert(self.bindings.values()[j].name@ == self.bindings.keys()[j]);
            }
        }
        r
    }

    /// Every registered binding, each once, in no particular order.
    pub fn list(&self) -> (r: Vec<&CapabilityBinding>)
        requires
            self.wf(),
        ensures
            r@.len() == self.view().dom().len(),
            self.view().dom().finite(),
            forall|i: int|
                0 <= i < r@.len() ==> self.view().dom().contains((#[trigger] r@[i]).name@)
                    && r@[i].description@ == self.view()[r@[i].name@],
            forall|i: int, j: int|
                0 <= i < r@.len() && 0 <= j < r@.len() && i != j ==> r@[i].name@ != r@[j].name@,
    {
        proof {
            self.bindings.lemma_wf();
        }
        let n = self.bindings.len();
        let mut out: Vec<&CapabilityBinding> = Vec::new();
        for i in 0..n
            invariant
                n == self.bindings.keys().len(),
                self.bindings.wf(),
                self.bindings.keys().len() == self.bindings.values().len(),
                out@.len() == i,
                forall|j: int| 0 <= j < i ==> *out@[j] == self.bindings.values()[j],
        {
            out.push(self.bindings.value_at(i));
        }
        proof {
            assert forall|i: int|
                0 <= i < out@.len() implies self.view().dom().contains((#[trigger] out@[i]).name@)
                && out@[i].description@ == self.view()[out@[i].name@] by {
                assert(self.bindings.values()[i].name@ == self.bindings.keys()[i]);
                crate::keyed_vec::lemma_index_of_unique(self.bindings.keys(), i);
            }
            assert forall|i: int, j: int|
                0 <= i < out@.len() && 0 <= j < out@.len() && i != j implies out@[i].name@
                != out@[j].name@ by {
                assert(self.bindings.values()[i].name@ == self.bindings.keys()[i]);
                assert(self.bindings.values()[j].name@ == self.bindings.keys()[j]);
            }
            lemma_keys_card(self.bindings.keys());
            assert(self.view().dom() =~= self.bindings.keys().to_set());
            self.lemma_finite();
        }
        out
    }
}

/// A sequence without duplicates has as many distinct elements as it has positions.
pub proof fn lemma_keys_card(s: Seq<Seq<char>>)
    requires
        s.no_duplicates(),
    ensures
        s.to_set().len() == s.len(),
{
    s.unique_seq_to_set();
}

} // verus!
