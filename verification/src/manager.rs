//! The registry of named tracking instances.
//!
//! The server keeps one entry per instance name; an entry owns the
//! instance's worker handle and the simulations attached to it. Names are
//! unique: creating an instance under an existing name replaces the old
//! entry outright, and stopping one removes its entry, so stopping twice
//! is a no-op. The worker handle and simulation handle types belong to
//! the caller.

use vstd::prelude::*;
use crate::instance::assoc_index;

verus! {

/// What `summary` reports for one instance.
pub struct InstanceMetadata {
    pub name: String,
    pub map_key: String,
    pub attached_simulations: Vec<String>,
}

/// One registered instance: its name, the key of the map it tracks on,
/// its worker handle, and its attached simulations by name.
pub struct InstanceEntry<H, S> {
    pub name: String,
    pub map_key: String,
    pub handle: H,
    pub sims: Vec<(String, S)>,
}

/// The index of the first entry named `name`.
pub open spec fn entry_index<H, S>(s: Seq<InstanceEntry<H, S>>, name: Seq<char>) -> Option<int>
    decreases s.len(),
{
    if s.len() == 0 {
        None
    } else if s[0].name@ == name {
        Some(0)
    } else {
        match entry_index(s.drop_first(), name) {
            Some(i) => Some(i + 1),
            None => None,
        }
    }
}

/// No two entries share a name.
pub open spec fn unique_names<H, S>(s: Seq<InstanceEntry<H, S>>) -> bool {
    forall|i: int, j: int| 0 <= i < j < s.len() ==> s[i].name@ != s[j].name@
}

/// What registering an entry does: replace the entry of the same name,
/// or append.
pub open spec fn spec_register<H, S>(
    s: Seq<InstanceEntry<H, S>>,
    e: InstanceEntry<H, S>,
) -> Seq<InstanceEntry<H, S>> {
    match entry_index(s, e.name@) {
        Some(i) => s.update(i, e),
        None => s.push(e),
    }
}

/// What stopping a name does: remove its entry, or nothing.
pub open spec fn spec_stop<H, S>(s: Seq<InstanceEntry<H, S>>, name: Seq<char>) -> Seq<
    InstanceEntry<H, S>,
> {
    match entry_index(s, name) {
        Some(i) => s.remove(i),
        None => s,
    }
}

/// A found index carries its name, and nothing before it does.
pub proof fn lemma_entry_index_found<H, S>(s: Seq<InstanceEntry<H, S>>, name: Seq<char>)
    ensures
        (match entry_index(s, name) {
            Some(i) => 0 <= i < s.len() && s[i].name@ == name && forall|j: int|
                0 <= j < i ==> s[j].name@ != name,
            None => forall|j: int| 0 <= j < s.len() ==> s[j].name@ != name,
        }),
    decreases s.len(),
{
    if s.len() > 0 && s[0].name@ != name {
        lemma_entry_index_found(s.drop_first(), name);
        match entry_index(s.drop_first(), name) {
            Some(i) => {
                assert forall|j: int| 0 <= j < i + 1 implies s[j].name@ != name by {
                    if j > 0 {
                        assert(s.drop_first()[j - 1] == s[j]);
                    }
                };
                assert(s[i + 1] == s.drop_first()[i]);
            },
            None => {
                assert forall|j: int| 0 <= j < s.len() implies s[j].name@ != name by {
                    if j > 0 {
                        assert(s.drop_first()[j - 1] == s[j]);
                    }
                };
            },
        }
    }
}

/// If no entry carries `name`, the lookup finds nothing.
pub proof fn lemma_entry_index_absent<H, S>(s: Seq<InstanceEntry<H, S>>, name: Seq<char>)
    requires
        forall|j: int| 0 <= j < s.len() ==> s[j].name@ != name,
    ensures
        entry_index(s, name) is None,
    decreases s.len(),
{
    if s.len() > 0 {
        assert forall|j: int| 0 <= j < s.drop_first().len() implies s.drop_first()[j].name@
            != name by {
            assert(s.drop_first()[j] == s[j + 1]);
        };
        lemma_entry_index_absent(s.drop_first(), name);
    }
}

/// Registering an instance and then stopping the same name undoes the
/// registration; on an empty registry the pair leaves it empty.
pub proof fn lemma_register_then_stop_empty<H, S>(e: InstanceEntry<H, S>)
    ensures
        spec_stop(spec_register(Seq::<InstanceEntry<H, S>>::empty(), e), e.name@) == Seq::<
            InstanceEntry<H, S>,
        >::empty(),
{
    let one = Seq::<InstanceEntry<H, S>>::empty().push(e);
    assert(entry_index(Seq::<InstanceEntry<H, S>>::empty(), e.name@) is None);
    assert(one[0].name@ == e.name@);
    assert(entry_index(one, e.name@) == Some(0int));
    assert(one.remove(0) =~= Seq::<InstanceEntry<H, S>>::empty());
}

/// Stopping a name twice is the same as stopping it once: after the
/// first stop the registry holds no entry of that name.
pub proof fn lemma_stop_idempotent<H, S>(s: Seq<InstanceEntry<H, S>>, name: Seq<char>)
    requires
        unique_names(s),
    ensures
        spec_stop(spec_stop(s, name), name) == spec_stop(s, name),
{
    lemma_entry_index_found(s, name);
    match entry_index(s, name) {
        Some(i) => {
            let t = s.remove(i);
            assert forall|j: int| 0 <= j < t.len() implies t[j].name@ != name by {
                if j < i {
                    assert(t[j] == s[j]);
                } else {
                    assert(t[j] == s[j + 1]);
                }
            };
            lemma_entry_index_absent(t, name);
        },
        None => {},
    }
}

/// The registry itself, generic in the worker and simulation handles.
pub struct TrackingManager<H, S> {
    pub instances: Vec<InstanceEntry<H, S>>,
}

impl<H, S> TrackingManager<H, S> {
    /// The registry invariant: one entry per name.
    pub open spec fn wf(&self) -> bool {
        unique_names(self.instances@)
    }

    /// An empty registry.
    pub fn new() -> (m: TrackingManager<H, S>)
        ensures
            m.instances@ =~= Seq::<InstanceEntry<H, S>>::empty(),
            m.wf(),
    {
        TrackingManager { instances: Vec::new() }
    }

    /// Find the entry registered under `name`.
    pub fn get_instance_index(&self, name: &String) -> (r: Option<usize>)
        ensures
            (match r {
                Some(i) => entry_index(self.instances@, name@) == Some(i as int) && i
                    < self.instances@.len(),
                None => entry_index(self.instances@, name@) is None,
            }),
    {
        let mut i: usize = 0;
        proof {
            lemma_entry_index_found(self.instances@, name@);
        }
        while i < self.instances.len()
            invariant
                i <= self.instances@.len(),
                forall|j: int| 0 <= j < i ==> self.instances@[j].name@ != name@,
                (match entry_index(self.instances@, name@) {
                    Some(k) => 0 <= k < self.instances@.len() && self.instances@[k].name@ == name@
                        && forall|j: int| 0 <= j < k ==> self.instances@[j].name@ != name@,
                    None => forall|j: int|
                        0 <= j < self.instances@.len() ==> self.instances@[j].name@ != name@,
                }),
            decreases self.instances@.len() - i,
        {
            if self.instances[i].name == *name {
                return Some(i);
            }
            i += 1;
        }
        None
    }

    /// Register an instance: replace the entry of the same name, or add a
    /// new one, with no simulations attached yet.
    pub fn new_instance(&mut self, name: String, map_key: String, handle: H)
        requires
            old(self).wf(),
        ensures
            final(self).wf(),
            ({
                let e = match entry_index(old(self).instances@, name@) {
                    Some(i) => final(self).instances@[i],
                    None => final(self).instances@.last(),
                };
                &&& e.name@ == name@
                &&& e.map_key@ == map_key@
                &&& e.handle == handle
                &&& e.sims@.len() == 0
                &&& final(self).instances@ == spec_register(old(self).instances@, e)
            }),
    {
        proof {
            lemma_entry_index_found(self.instances@, name@);
        }
        let idx = self.get_instance_index(&name);
        let entry = InstanceEntry { name, map_key, handle, sims: Vec::new() };
        match idx {
            Some(i) => {
                self.instances.set(i, entry);
                proof {
                    let old_s = old(self).instances@;
                    let new_s = self.instances@;
                    assert forall|a: int, b: int| 0 <= a < b < new_s.len() implies new_s[a].name@
                        != new_s[b].name@ by {
                        assert(old_s[a].name@ != old_s[b].name@);
                    };
                }
            },
            None => {
                self.instances.push(entry);
                proof {
                    let old_s = old(self).instances@;
                    let new_s = self.instances@;
                    assert forall|a: int, b: int| 0 <= a < b < new_s.len() implies new_s[a].name@
                        != new_s[b].name@ by {
                        if b < old_s.len() {
                            assert(old_s[a].name@ != old_s[b].name@);
                        } else {
                            assert(old_s[a].name@ != new_s[b].name@);
                        }
                    };
                }
            },
        }
    }

    /// Stop an instance: drop its entry, releasing the handle and every
    /// attached simulation with it. Stopping an unknown name does
    /// nothing.
    pub fn stop_instance(&mut self, name: &String)
        requires
            old(self).wf(),
        ensures
            final(self).wf(),
            final(self).instances@ == spec_stop(old(self).instances@, name@),
    {
        let idx = self.get_instance_index(name);
        match idx {
            Some(i) => {
                self.instances.remove(i);
                proof {
                    let old_s = old(self).instances@;
                    let new_s = self.instances@;
                    assert forall|a: int, b: int| 0 <= a < b < new_s.len() implies new_s[a].name@
                        != new_s[b].name@ by {
                        let a0 = if a < i {
                            a
                        } else {
                            a + 1
                        };
                        let b0 = if b < i {
                            b
                        } else {
                            b + 1
                        };
                        assert(new_s[a] == old_s[a0]);
                        assert(new_s[b] == old_s[b0]);
                        assert(old_s[a0].name@ != old_s[b0].name@);
                    };
                }
            },
            None => {},
        }
    }


    /// What `summary` says of one entry.
    pub open spec fn meta_matches(m: InstanceMetadata, e: InstanceEntry<H, S>) -> bool {
        &&& m.name@ == e.name@
        &&& m.map_key@ == e.map_key@
        &&& m.attached_simulations@.len() == e.sims@.len()
        &&& forall|j: int|
            0 <= j < e.sims@.len() ==> #[trigger] m.attached_simulations@[j]@ == e.sims@[j].0@
    }

    /// A snapshot of the registry: every instance's name, map key and
    /// attached simulation names, in registration order.
    pub fn summary(&self) -> (r: Vec<InstanceMetadata>)
        ensures
            r@.len() == self.instances@.len(),
            forall|i: int|
                0 <= i < r@.len() ==> Self::meta_matches(#[trigger] r@[i], self.instances@[i]),
    {
        let mut r: Vec<InstanceMetadata> = Vec::new();
        let mut i: usize = 0;
        while i < self.instances.len()
            invariant
                i <= self.instances@.len(),
                r@.len() == i,
                forall|k: int|
                    0 <= k < i ==> Self::meta_matches(#[trigger] r@[k], self.instances@[k]),
            decreases self.instances@.len() - i,
        {
            let entry = &self.instances[i];
            let mut sims: Vec<String> = Vec::new();
            let mut j: usize = 0;
            while j < entry.sims.len()
                invariant
                    j <= entry.sims@.len(),
                    sims@.len() == j,
                    forall|k: int| 0 <= k < j ==> #[trigger] sims@[k]@ == entry.sims@[k].0@,
                decreases entry.sims@.len() - j,
            {
                sims.push(entry.sims[j].0.clone());
                j += 1;
            }
            r.push(
                InstanceMetadata {
                    name: entry.name.clone(),
                    map_key: entry.map_key.clone(),
                    attached_simulations: sims,
                },
            );
            i += 1;
        }
        r
    }

    /// Attach a simulation to an instance: an existing simulation of the
    /// same name is replaced. Reports whether the instance exists.
    pub fn new_sim(&mut self, instance_name: &String, sim_name: String, sim: S) -> (r: bool)
        requires
            old(self).wf(),
        ensures
            final(self).wf(),
            (match entry_index(old(self).instances@, instance_name@) {
                Some(i) => {
                    &&& r
                    &&& final(self).instances@.len() == old(self).instances@.len()
                    &&& forall|k: int|
                        0 <= k < old(self).instances@.len() && k != i
                            ==> final(self).instances@[k] == #[trigger] old(self).instances@[k]
                    &&& ({
                        let e0 = old(self).instances@[i];
                        let e1 = final(self).instances@[i];
                        &&& e1.name@ == e0.name@
                        &&& e1.map_key == e0.map_key
                        &&& e1.sims@ == (match assoc_index(e0.sims@, sim_name@) {
                            Some(j) => e0.sims@.update(j, (sim_name, sim)),
                            None => e0.sims@.push((sim_name, sim)),
                        })
                    })
                },
                None => !r && final(self).instances@ == old(self).instances@,
            }),
    {
        let idx = match self.get_instance_index(instance_name) {
            Some(i) => i,
            None => {
                return false;
            },
        };
        let mut entry = self.instances.remove(idx);
        let ghost e0 = entry;
        match crate::instance::assoc_get_index(&entry.sims, &sim_name) {
            Some(j) => {
                entry.sims.set(j, (sim_name, sim));
            },
            None => {
                entry.sims.push((sim_name, sim));
            },
        }
        proof {
            assert(entry.name@ == e0.name@);
        }
        self.instances.insert(idx, entry);
        proof {
            let old_s = old(self).instances@;
            let new_s = self.instances@;
            assert forall|a: int| 0 <= a < new_s.len() implies #[trigger] new_s[a].name@
                == old_s[a].name@ by {
                if a < idx {
                    assert(new_s[a] == old_s[a]);
                } else if a > idx {
                    assert(new_s[a] == old_s.remove(idx as int).insert(idx as int, entry)[a]);
                    assert(new_s[a] == old_s[a]);
                }
            };
            assert forall|a: int, b: int| 0 <= a < b < new_s.len() implies new_s[a].name@
                != new_s[b].name@ by {
                assert(old_s[a].name@ != old_s[b].name@);
            };
        }
        true
    }

    /// Detach a simulation from an instance; unknown names do nothing.
    pub fn stop_sim(&mut self, instance_name: &String, sim_name: &String)
        requires
            old(self).wf(),
        ensures
            final(self).wf(),
            (match entry_index(old(self).instances@, instance_name@) {
                Some(i) => {
                    &&& final(self).instances@.len() == old(self).instances@.len()
                    &&& forall|k: int|
                        0 <= k < old(self).instances@.len() && k != i
                            ==> final(self).instances@[k] == #[trigger] old(self).instances@[k]
                    &&& ({
                        let e0 = old(self).instances@[i];
                        let e1 = final(self).instances@[i];
                        &&& e1.name@ == e0.name@
                        &&& e1.map_key == e0.map_key
                        &&& e1.sims@ == (match assoc_index(e0.sims@, sim_name@) {
                            Some(j) => e0.sims@.remove(j),
                            None => e0.sims@,
                        })
                    })
                },
                None => final(self).instances@ == old(self).instances@,
            }),
    {
        let idx = match self.get_instance_index(instance_name) {
            Some(i) => i,
            None => {
                return ;
            },
        };
        let mut entry = self.instances.remove(idx);
        let ghost e0 = entry;
        match crate::instance::assoc_get_index(&entry.sims, sim_name) {
            Some(j) => {
                entry.sims.remove(j);
            },
            None => {},
        }
        self.instances.insert(idx, entry);
        proof {
            let old_s = old(self).instances@;
            let new_s = self.instances@;
            assert forall|a: int| 0 <= a < new_s.len() implies #[trigger] new_s[a].name@
                == old_s[a].name@ by {
                if a < idx {
                    assert(new_s[a] == old_s[a]);
                } else if a > idx {
                    assert(new_s[a] == old_s[a]);
                }
            };
            assert forall|a: int, b: int| 0 <= a < b < new_s.len() implies new_s[a].name@
                != new_s[b].name@ by {
                assert(old_s[a].name@ != old_s[b].name@);
            };
        }
    }

    /// How many instances are registered.
    pub fn num_instances(&self) -> (n: usize)
        ensures
            n == self.instances@.len(),
    {
        self.instances.len()
    }
}

} // verus!
