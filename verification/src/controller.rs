use crate::imposter::{Imposter, ImposterView};
use vstd::prelude::*;

verus! {

/// The views of a list of imposters, in order.
pub open spec fn imposter_views(imposters: Seq<Imposter>) -> Seq<ImposterView> {
    Seq::new(imposters.len(), |i: int| imposters[i]@)
}

/// No two entries share an identifier.
pub open spec fn unique_ids(entries: Seq<ImposterView>) -> bool {
    forall|i: int, j: int| 0 <= i < j < entries.len() ==> entries[i].id != entries[j].id
}

/// Whether some entry has the identifier.
pub open spec fn has_id(entries: Seq<ImposterView>, id: u32) -> bool {
    exists|i: int| 0 <= i < entries.len() && entries[i].id == id
}

/// The place of the entry with the identifier, if there is one.
pub open spec fn position(entries: Seq<ImposterView>, id: u32) -> Option<int> {
    if has_id(entries, id) {
        Some(choose|i: int| 0 <= i < entries.len() && entries[i].id == id)
    } else {
        None
    }
}

/// The entry with the identifier, if there is one.
pub open spec fn lookup(entries: Seq<ImposterView>, id: u32) -> Option<ImposterView> {
    match position(entries, id) {
        Some(i) => Some(entries[i]),
        None => None,
    }
}

/// The entries without the one that has the identifier.
pub open spec fn deleted(entries: Seq<ImposterView>, id: u32) -> Seq<ImposterView> {
    match position(entries, id) {
        Some(i) => entries.remove(i),
        None => entries,
    }
}

/// The entries after an imposter was put in: it takes the place of the
/// entry with its identifier, if there is one, and stands last.
pub open spec fn upserted(entries: Seq<ImposterView>, imposter: ImposterView) -> Seq<
    ImposterView,
> {
    deleted(entries, imposter.id).push(imposter)
}

/// Among unique identifiers, an entry's place is the place of its identifier.
pub proof fn lemma_position(entries: Seq<ImposterView>, id: u32, i: int)
    requires
        unique_ids(entries),
        0 <= i < entries.len(),
        entries[i].id == id,
    ensures
        position(entries, id) == Some(i),
{
    let k = choose|k: int| 0 <= k < entries.len() && entries[k].id == id;
    if k < i {
        assert(entries[k].id != entries[i].id);
    } else if i < k {
        assert(entries[i].id != entries[k].id);
    }
}

/// Taking an entry out leaves the identifiers unique; the identifier that
/// left is gone, and every other identifier finds what it found before.
pub proof fn lemma_deleted(entries: Seq<ImposterView>, id: u32)
    requires
        unique_ids(entries),
    ensures
        unique_ids(deleted(entries, id)),
        !has_id(entries, id) ==> deleted(entries, id) == entries,
        lookup(deleted(entries, id), id) is None,
        forall|other: u32|
            other != id ==> lookup(deleted(entries, id), other) == lookup(entries, other),
        deleted(entries, id).len() + (if has_id(entries, id) {
            1nat
        } else {
            0nat
        }) == entries.len(),
{
    let rest = deleted(entries, id);
    match position(entries, id) {
        Some(i) => {
            assert forall|a: int, b: int| 0 <= a < b < rest.len() implies rest[a].id
                != rest[b].id by {
                let a0 = if a < i {
                    a
                } else {
                    a + 1
                };
                let b0 = if b < i {
                    b
                } else {
                    b + 1
                };
                assert(rest[a] == entries[a0] && rest[b] == entries[b0]);
            }
            if has_id(rest, id) {
                let k = choose|k: int| 0 <= k < rest.len() && rest[k].id == id;
                let k0 = if k < i {
                    k
                } else {
                    k + 1
                };
                assert(rest[k] == entries[k0]);
                if k0 < i {
                    assert(entries[k0].id != entries[i].id);
                } else {
                    assert(entries[i].id != entries[k0].id);
                }
            }
            assert forall|other: u32| other != id implies lookup(rest, other) == lookup(
                entries,
                other,
            ) by {
                if has_id(rest, other) {
                    let k = choose|k: int| 0 <= k < rest.len() && rest[k].id == other;
                    let k0 = if k < i {
                        k
                    } else {
                        k + 1
                    };
                    assert(rest[k] == entries[k0]);
                    lemma_position(entries, other, k0);
                } else if has_id(entries, other) {
                    let k = choose|k: int| 0 <= k < entries.len() && entries[k].id == other;
                    let k1 = if k < i {
                        k
                    } else {
                        k - 1
                    };
                    assert(rest[k1] == entries[k]);
                }
            }
        },
        None => {},
    }
}

/// Putting an imposter in leaves the identifiers unique; its identifier
/// finds it, and every other identifier finds what it found before.
pub proof fn lemma_upserted(entries: Seq<ImposterView>, imposter: ImposterView)
    requires
        unique_ids(entries),
    ensures
        unique_ids(upserted(entries, imposter)),
        lookup(upserted(entries, imposter), imposter.id) == Some(imposter),
        forall|other: u32|
            other != imposter.id ==> lookup(upserted(entries, imposter), other) == lookup(
                entries,
                other,
            ),
        upserted(entries, imposter).len() == entries.len() + (if has_id(entries, imposter.id) {
            0nat
        } else {
            1nat
        }),
{
    lemma_deleted(entries, imposter.id);
    let rest = deleted(entries, imposter.id);
    let all = upserted(entries, imposter);
    assert forall|a: int, b: int| 0 <= a < b < all.len() implies all[a].id != all[b].id by {
        if b == rest.len() {
            assert(all[a] == rest[a]);
            if rest[a].id == imposter.id {
                lemma_position(rest, imposter.id, a);
            }
        } else {
            assert(all[a] == rest[a] && all[b] == rest[b]);
        }
    }
    lemma_position(all, imposter.id, rest.len() as int);
    assert forall|other: u32| other != imposter.id implies lookup(all, other) == lookup(
        entries,
        other,
    ) by {
        if has_id(all, other) {
            let k = choose|k: int| 0 <= k < all.len() && all[k].id == other;
            assert(all[k] == rest[k]);
            lemma_position(rest, other, k);
        } else if has_id(rest, other) {
            let k = choose|k: int| 0 <= k < rest.len() && rest[k].id == other;
            assert(all[k] == rest[k]);
        }
    }
}

/// The imposters that a process serves, each under its own identifier.
#[derive(Debug)]
pub struct ImposterList {
    inner: Vec<Imposter>,
}

impl View for ImposterList {
    type V = Seq<ImposterView>;

    closed spec fn view(&self) -> Seq<ImposterView> {
        imposter_views(self.inner@)
    }
}

impl ImposterList {
    /// No two entries share an identifier. Every list that `new` made and
    /// the methods below changed is well formed.
    pub open spec fn wf(&self) -> bool {
        unique_ids(self@)
    }

    /// The empty list.
    pub fn new() -> (list: ImposterList)
        ensures
            list@ == Seq::<ImposterView>::empty(),
            list.wf(),
    {
        let list = ImposterList { inner: Vec::new() };
        assert(list@ =~= Seq::<ImposterView>::empty());
        list
    }

    /// The place of the entry with the identifier, if there is one.
    fn find(&self, id: u32) -> (found: Option<usize>)
        requires
            self.wf(),
        ensures
            match found {
                Some(i) => position(self@, id) == Some(i as int) && i < self.inner.len(),
                None => position(self@, id) is None,
            },
    {
        let mut i: usize = 0;
        while i < self.inner.len()
            invariant
                self.wf(),
                i <= self.inner.len(),
                forall|j: int| 0 <= j < i ==> (#[trigger] self@[j]).id != id,
            decreases self.inner.len() - i,
        {
            if self.inner[i].id == id {
                proof {
                    lemma_position(self@, id, i as int);
                }
                return Some(i);
            }
            i += 1;
        }
        None
    }

    /// Puts the imposter in. An entry with the same identifier is replaced.
    /// Returns whether the identifier was new.
    pub fn upsert(&mut self, imposter: Imposter) -> (created: bool)
        requires
            old(self).wf(),
        ensures
            final(self).wf(),
            created == !has_id(old(self)@, imposter.id),
            final(self)@ == upserted(old(self)@, imposter@),
            lookup(final(self)@, imposter.id) == Some(imposter@),
            forall|other: u32|
                other != imposter.id ==> lookup(final(self)@, other) == lookup(old(self)@, other),
            final(self)@.len() == old(self)@.len() + (if created {
                1nat
            } else {
                0nat
            }),
    {
        let found = self.find(imposter.id);
        proof {
            lemma_upserted(self@, imposter@);
            lemma_deleted(self@, imposter.id);
        }
        let ghost rest = deleted(self@, imposter.id);
        match found {
            Some(i) => {
                assert(imposter_views(self.inner@.remove(i as int)) =~= rest);
                self.inner.remove(i);
            },
            None => {},
        }
        assert(imposter_views(self.inner@.push(imposter)) =~= rest.push(imposter@));
        self.inner.push(imposter);
        found.is_none()
    }

    /// Takes out the entry with the identifier. Returns whether there was one.
    pub fn delete_by_id(&mut self, id: u32) -> (removed: bool)
        requires
            old(self).wf(),
        ensures
            final(self).wf(),
            removed == has_id(old(self)@, id),
            final(self)@ == deleted(old(self)@, id),
            lookup(final(self)@, id) is None,
            forall|other: u32| other != id ==> lookup(final(self)@, other) == lookup(old(self)@, other),
            final(self)@.len() + (if removed {
                1nat
            } else {
                0nat
            }) == old(self)@.len(),
    {
        let found = self.find(id);
        proof {
            lemma_deleted(self@, id);
        }
        match found {
            Some(i) => {
                assert(imposter_views(self.inner@.remove(i as int)) =~= deleted(self@, id));
                self.inner.remove(i);
                true
            },
            None => false,
        }
    }

    /// Runs `func` on the entry with the identifier, in place, and hands
    /// back what it returned; `None`, and nothing run, where there is no such
    /// entry. `func` may change the entry in any way but for its identifier.
    pub fn do_with_imposter_by_id<R, F: FnOnce(&mut Imposter) -> R>(
        &mut self,
        id: u32,
        func: F,
    ) -> (outcome: Option<R>)
        requires
            old(self).wf(),
            forall|imposter: &mut Imposter|
                lookup(old(self)@, id) == Some((*imposter)@) ==> call_requires(func, (imposter,)),
            forall|imposter: &mut Imposter, out: R|
                call_ensures(func, (imposter,), out) ==> (*final(imposter))@.id == (*imposter)@.id,
        ensures
            final(self).wf(),
            match position(old(self)@, id) {
                Some(i) => outcome matches Some(out) && exists|imposter: &mut Imposter|
                    {
                        &&& (*imposter)@ == old(self)@[i]
                        &&& call_ensures(func, (imposter,), out)
                        &&& final(self)@ == old(self)@.update(i, (*final(imposter))@)
                    },
                None => outcome is None && final(self)@ == old(self)@,
            },
    {
        match self.find(id) {
            Some(i) => {
                let out = func(&mut self.inner[i]);
                proof {
                    let after = self.inner[i as int]@;
                    assert(self@ =~= old(self)@.update(i as int, after));
                    assert forall|a: int, b: int| 0 <= a < b < self@.len() implies self@[a].id
                        != self@[b].id by {
                        assert(self@[a].id == old(self)@[a].id);
                        assert(self@[b].id == old(self)@[b].id);
                    }
                }
                Some(out)
            },
            None => None,
        }
    }

    /// A copy of every entry, in the list's order.
    pub fn get_all(&self) -> (all: Vec<Imposter>)
        ensures
            imposter_views(all@) == self@,
    {
        let all = self.inner.clone();
        assert(imposter_views(all@) =~= imposter_views(self.inner@));
        all
    }

    /// A copy of the entry with the identifier, if there is one.
    pub fn get_by_id(&self, id: u32) -> (found: Option<Imposter>)
        requires
            self.wf(),
        ensures
            match found {
                Some(imposter) => lookup(self@, id) == Some(imposter@),
                None => lookup(self@, id) is None,
            },
    {
        match self.find(id) {
            Some(i) => Some(self.inner[i].clone()),
            None => None,
        }
    }
}

} // verus!
