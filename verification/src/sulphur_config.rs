//! The per-user configuration store: the launch command and the list of
//! instances, with ordering and filtering queries over the play history.

use vstd::prelude::*;
use vstd::string::*;
use vstd::multiset::Multiset;

use crate::instance::{Instance, InstanceV};

verus! {

pub struct SulphurConfig {
    pub gzdoom_command: String,
    pub instances: Vec<Instance>,
}

pub open spec fn instances_view(s: Seq<Instance>) -> Seq<InstanceV> {
    s.map_values(|i: Instance| i@)
}

/// The sort key of an instance: whether it was ever played, then the
/// seconds and nanoseconds of the ordering field. Comparison is
/// lexicographic, as the underlying time values compare.
pub open spec fn inst_key(v: InstanceV, by_last_played: bool) -> (bool, u64, u32) {
    if by_last_played {
        match v.metadata.last_played {
            Some(t) => (true, t.secs, t.nanos),
            None => (false, 0, 0),
        }
    } else {
        (true, v.metadata.playtime.secs, v.metadata.playtime.nanos)
    }
}

/// `a` sorts at or before `b` in descending order.
pub open spec fn key_ge(a: (bool, u64, u32), b: (bool, u64, u32)) -> bool {
    ||| (a.0 && !b.0)
    ||| (a.0 == b.0 && a.1 > b.1)
    ||| (a.0 == b.0 && a.1 == b.1 && a.2 >= b.2)
}

/// The indices whose instance's played state matches `played`, in order.
pub open spec fn state_indices(s: Seq<InstanceV>, played: bool) -> Seq<int>
    decreases s.len(),
{
    if s.len() == 0 {
        Seq::empty()
    } else {
        let r = state_indices(s.drop_last(), played);
        if (s.last().metadata.last_played is Some) == played {
            r.push(s.len() - 1)
        } else {
            r
        }
    }
}

impl SulphurConfig {
    pub fn new() -> (r: SulphurConfig)
        ensures
            r.gzdoom_command@ == "gzdoom"@,
            r.instances@.len() == 0,
    {
        SulphurConfig { gzdoom_command: "gzdoom".to_owned(), instances: Vec::new() }
    }

    pub fn get_command(&self) -> (r: String)
        ensures
            r@ == self.gzdoom_command@,
    {
        self.gzdoom_command.clone()
    }

    pub fn set_command(&mut self, new: String)
        ensures
            final(self).gzdoom_command@ == new@,
            final(self).instances == old(self).instances,
    {
        self.gzdoom_command = new;
    }

    pub fn get_instances(&self) -> (r: &Vec<Instance>)
        ensures
            r == &self.instances,
    {
        &self.instances
    }

    /// A mutable borrow of one instance.
    pub fn get_instance_mut(&mut self, index: usize) -> (r: &mut Instance)
        requires
            index < old(self).instances@.len(),
        ensures
            *r == old(self).instances@[index as int],
            final(self).instances@ == old(self).instances@.update(index as int, *final(r)),
            final(self).gzdoom_command == old(self).gzdoom_command,
    {
        vstd::std_specs::vec::vec_index_mut(&mut self.instances, index)
    }

    /// The indices of the instances whose played state matches `played`,
    /// in list order.
    pub fn get_instances_with_played_state(&self, played: bool) -> (r: Vec<usize>)
        ensures
            r@.map_values(|u: usize| u as int) == state_indices(
                instances_view(self.instances@),
                played,
            ),
            forall|k: int| 0 <= k < r@.len() ==> (#[trigger] r@[k]) < self.instances@.len(),
    {
        let ghost vs = instances_view(self.instances@);
        let mut r: Vec<usize> = Vec::new();
        let mut i: usize = 0;
        proof {
            assert(r@.map_values(|u: usize| u as int) =~= state_indices(vs.take(0), played));
        }
        while i < self.instances.len()
            invariant
                i <= self.instances@.len(),
                vs == instances_view(self.instances@),
                r@.map_values(|u: usize| u as int) == state_indices(vs.take(i as int), played),
                forall|k: int| 0 <= k < r@.len() ==> (#[trigger] r@[k]) < i,
            decreases self.instances@.len() - i,
        {
            let ghost r0 = r@;
            let is_played = match &self.instances[i].metadata.last_played {
                Some(_) => true,
                None => false,
            };
            proof {
                assert(vs[i as int] == self.instances@[i as int]@);
                assert(vs.take(i + 1 as int).drop_last() =~= vs.take(i as int));
                assert(vs.take(i + 1 as int).last() == vs[i as int]);
            }
            if is_played == played {
                r.push(i);
                proof {
                    crate::utils::lemma_map_values_push(r0, |u: usize| u as int, i);
                }
            }
            i = i + 1;
        }
        proof {
            assert(vs.take(vs.len() as int) =~= vs);
        }
        r
    }

    /// The indices of the instances played at least once.
    pub fn get_played_instances(&self) -> (r: Vec<usize>)
        ensures
            r@.map_values(|u: usize| u as int) == state_indices(
                instances_view(self.instances@),
                true,
            ),
            forall|k: int| 0 <= k < r@.len() ==> (#[trigger] r@[k]) < self.instances@.len(),
    {
        self.get_instances_with_played_state(true)
    }

    /// The indices of the instances never played.
    pub fn get_unplayed_instances(&self) -> (r: Vec<usize>)
        ensures
            r@.map_values(|u: usize| u as int) == state_indices(
                instances_view(self.instances@),
                false,
            ),
            forall|k: int| 0 <= k < r@.len() ==> (#[trigger] r@[k]) < self.instances@.len(),
    {
        self.get_instances_with_played_state(false)
    }

    /// Whether instance `a` sorts at or before instance `b`, descending.
    fn key_ge_in(&self, a: usize, b: usize, by_last_played: bool) -> (r: bool)
        requires
            a < self.instances@.len(),
            b < self.instances@.len(),
        ensures
            r == key_ge(
                inst_key(self.instances@[a as int]@, by_last_played),
                inst_key(self.instances@[b as int]@, by_last_played),
            ),
    {
        let ka: (bool, u64, u32) = if by_last_played {
            match &self.instances[a].metadata.last_played {
                Some(t) => (true, t.secs, t.nanos),
                None => (false, 0, 0),
            }
        } else {
            (true, self.instances[a].metadata.playtime.secs, self.instances[a].metadata.playtime.nanos)
        };
        let kb: (bool, u64, u32) = if by_last_played {
            match &self.instances[b].metadata.last_played {
                Some(t) => (true, t.secs, t.nanos),
                None => (false, 0, 0),
            }
        } else {
            (true, self.instances[b].metadata.playtime.secs, self.instances[b].metadata.playtime.nanos)
        };
        (ka.0 && !kb.0) || (ka.0 == kb.0 && ka.1 > kb.1) || (ka.0 == kb.0 && ka.1 == kb.1 && ka.2
            >= kb.2)
    }

    /// Sorts indices so that their instances' keys descend.
    fn sort_indices_desc(&self, idx: Vec<usize>, by_last_played: bool) -> (r: Vec<usize>)
        requires
            forall|k: int| 0 <= k < idx@.len() ==> (#[trigger] idx@[k]) < self.instances@.len(),
        ensures
            r@.to_multiset() == idx@.to_multiset(),
            forall|k: int| 0 <= k < r@.len() ==> (#[trigger] r@[k]) < self.instances@.len(),
            forall|i: int, j: int|
                0 <= i < j < r@.len() ==> key_ge(
                    inst_key(self.instances@[#[trigger] r@[i] as int]@, by_last_played),
                    inst_key(self.instances@[#[trigger] r@[j] as int]@, by_last_played),
                ),
    {
        broadcast use vstd::seq_lib::group_to_multiset_ensures;

        let mut rest = idx;
        let mut out: Vec<usize> = Vec::new();
        while rest.len() > 0
            invariant
                out@.to_multiset().add(rest@.to_multiset()) == idx@.to_multiset(),
                forall|k: int|
                    0 <= k < rest@.len() ==> (#[trigger] rest@[k]) < self.instances@.len(),
                forall|k: int| 0 <= k < out@.len() ==> (#[trigger] out@[k]) < self.instances@.len(),
                forall|i: int, j: int|
                    0 <= i < j < out@.len() ==> key_ge(
                        inst_key(self.instances@[#[trigger] out@[i] as int]@, by_last_played),
                        inst_key(self.instances@[#[trigger] out@[j] as int]@, by_last_played),
                    ),
                forall|i: int, j: int|
                    0 <= i < out@.len() && 0 <= j < rest@.len() ==> key_ge(
                        inst_key(self.instances@[#[trigger] out@[i] as int]@, by_last_played),
                        inst_key(self.instances@[#[trigger] rest@[j] as int]@, by_last_played),
                    ),
            decreases rest@.len(),
        {
            let mut m: usize = 0;
            let mut t: usize = 1;
            while t < rest.len()
                invariant
                    m < rest@.len(),
                    t <= rest@.len(),
                    forall|k: int| 0 <= k < rest@.len() ==> (#[trigger] rest@[k])
                        < self.instances@.len(),
                    forall|k: int|
                        0 <= k < t ==> key_ge(
                            inst_key(self.instances@[rest@[m as int] as int]@, by_last_played),
                            inst_key(self.instances@[#[trigger] rest@[k] as int]@, by_last_played),
                        ),
                decreases rest@.len() - t,
            {
                if !self.key_ge_in(rest[m], rest[t], by_last_played) {
                    m = t;
                    proof {
                        assert forall|k: int|
                            0 <= k < t + 1 implies key_ge(
                            inst_key(self.instances@[rest@[m as int] as int]@, by_last_played),
                            inst_key(self.instances@[#[trigger] rest@[k] as int]@, by_last_played),
                        ) by {
                            let km = inst_key(
                                self.instances@[rest@[m as int] as int]@,
                                by_last_played,
                            );
                            let kk = inst_key(
                                self.instances@[rest@[k] as int]@,
                                by_last_played,
                            );
                        }
                    }
                }
                t = t + 1;
            }
            let ghost rest0 = rest@;
            let ghost out0 = out@;
            let v = rest.remove(m);
            out.push(v);
            proof {
                rest0.to_multiset_ensures();
                out0.to_multiset_ensures();
                assert(rest@ == rest0.remove(m as int));
                assert(rest0.remove(m as int).to_multiset() == rest0.to_multiset().remove(
                    rest0[m as int],
                ));
                assert(out0.push(v).to_multiset() == out0.to_multiset().insert(v));
                assert(out@.to_multiset().add(rest@.to_multiset()) =~= idx@.to_multiset());
                assert forall|j: int| 0 <= j < rest@.len() implies key_ge(
                    inst_key(self.instances@[v as int]@, by_last_played),
                    inst_key(self.instances@[#[trigger] rest@[j] as int]@, by_last_played),
                ) by {
                    if j < m {
                        assert(rest@[j] == rest0[j]);
                    } else {
                        assert(rest@[j] == rest0[j + 1]);
                    }
                }
            }
        }
        proof {
            rest@.to_multiset_ensures();
            assert(rest@.to_multiset() =~= Multiset::<usize>::empty());
            assert(out@.to_multiset() =~= idx@.to_multiset());
        }
        out
    }

    /// The played instances' indices, longest total playtime first.
    pub fn get_indices_by_playtime(&self) -> (r: Vec<usize>)
        ensures
            r@.to_multiset() == Seq::new(
                state_indices(instances_view(self.instances@), true).len(),
                |k: int| state_indices(instances_view(self.instances@), true)[k] as usize,
            ).to_multiset(),
            forall|k: int| 0 <= k < r@.len() ==> (#[trigger] r@[k]) < self.instances@.len(),
            forall|i: int, j: int|
                0 <= i < j < r@.len() ==> key_ge(
                    inst_key(self.instances@[#[trigger] r@[i] as int]@, false),
                    inst_key(self.instances@[#[trigger] r@[j] as int]@, false),
                ),
    {
        let played = self.get_played_instances();
        proof {
            assert(Seq::new(
                state_indices(instances_view(self.instances@), true).len(),
                |k: int| state_indices(instances_view(self.instances@), true)[k] as usize,
            ) =~= played@);
        }
        self.sort_indices_desc(played, false)
    }

    /// The played instances' indices, most recently played first.
    pub fn get_indices_by_last_played(&self) -> (r: Vec<usize>)
        ensures
            r@.to_multiset() == Seq::new(
                state_indices(instances_view(self.instances@), true).len(),
                |k: int| state_indices(instances_view(self.instances@), true)[k] as usize,
            ).to_multiset(),
            forall|k: int| 0 <= k < r@.len() ==> (#[trigger] r@[k]) < self.instances@.len(),
            forall|i: int, j: int|
                0 <= i < j < r@.len() ==> key_ge(
                    inst_key(self.instances@[#[trigger] r@[i] as int]@, true),
                    inst_key(self.instances@[#[trigger] r@[j] as int]@, true),
                ),
    {
        let played = self.get_played_instances();
        proof {
            assert(Seq::new(
                state_indices(instances_view(self.instances@), true).len(),
                |k: int| state_indices(instances_view(self.instances@), true)[k] as usize,
            ) =~= played@);
        }
        self.sort_indices_desc(played, true)
    }

    /// Appends an instance; its index is returned.
    pub fn add_instance(&mut self, new_inst: Instance) -> (r: usize)
        ensures
            final(self).instances@ == old(self).instances@.push(new_inst),
            final(self).gzdoom_command == old(self).gzdoom_command,
            r == old(self).instances@.len(),
    {
        self.instances.push(new_inst);
        self.instances.len() - 1
    }

    /// Removes the instance at `index`, moving the last one into its
    /// place; a pure list removal, with no effect on any file.
    pub fn remove_instance(&mut self, index: usize)
        requires
            index < old(self).instances@.len(),
        ensures
            final(self).instances@ == old(self).instances@.update(
                index as int,
                old(self).instances@.last(),
            ).drop_last(),
            final(self).gzdoom_command == old(self).gzdoom_command,
    {
        self.instances.swap_remove(index);
    }
}

} // verus!
