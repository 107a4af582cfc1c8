//! The built-in components and the kinds that identify them in the store.

use vstd::prelude::*;

verus! {

/// Kind of the transform component (position and scale).
pub const TRANSFORM_KIND: u64 = 1;

/// Kind of the mesh allocation component.
pub const MESH_ALLOCATION_KIND: u64 = 2;

/// Kind of the script component.
pub const SCRIPT_KIND: u64 = 3;

/// Kind of the health component.
pub const HEALTH_KIND: u64 = 4;

/// Kind of the position marker component.
pub const POSITION_KIND: u64 = 5;

/// A value that can be stored as a component.
pub trait Component {

}

/// The part of the shared vertex and index buffers that a mesh occupies.
#[derive(Clone, Copy, Debug, PartialEq, Eq, Structural)]
pub struct MeshAllocation {
    pub index_count: u32,
    pub first_index: u32,
    pub first_vertex: i32,
}

impl Default for MeshAllocation {
    /// An allocation of nothing at the start of the buffers.
    fn default() -> (m: Self)
        ensures
            m.index_count == 0,
            m.first_index == 0,
            m.first_vertex == 0,
    {
        MeshAllocation { index_count: 0, first_index: 0, first_vertex: 0 }
    }
}

impl Component for MeshAllocation {

}

/// A named game object with tags.
#[derive(Clone, Debug)]
pub struct GameObject {
    pub entity_id: u32,
    pub name: String,
    pub tags: Vec<String>,
}

/// What a script may see of the world.
pub struct WorldView {
    delta_time: i32,
}

/// A script that moves its entity along the x axis.
pub struct MoveScriptInstance {}


/// The listeners registered under each message name, kept as a list of
/// (name, listeners) rather than a hash map keyed by name: std's `HashMap`
/// is specified here only for keys with plain equality, which `String` is
/// not.
pub struct BroadCaster<L> {
    broadcast_listener_collection: Vec<(String, Vec<L>)>,
}

/// Whether no two entries have the same name.
pub open spec fn distinct_names<L>(s: Seq<(String, Vec<L>)>) -> bool {
    forall|i: int, j: int| 0 <= i < j < s.len() ==> s[i].0@ != s[j].0@
}

/// The position of the entry named `name`.
pub open spec fn name_pos<L>(s: Seq<(String, Vec<L>)>, name: Seq<char>) -> int {
    choose|i: int| 0 <= i < s.len() && s[i].0@ == name
}

proof fn lemma_name_pos<L>(s: Seq<(String, Vec<L>)>, i: int)
    requires
        distinct_names(s),
        0 <= i < s.len(),
    ensures
        name_pos(s, s[i].0@) == i,
{
    let j = name_pos(s, s[i].0@);
    assert(0 <= j < s.len() && s[j].0@ == s[i].0@);
}

impl<L> BroadCaster<L> {
    /// The listeners of each message name that has any.
    pub closed spec fn listeners(self) -> Map<Seq<char>, Seq<L>> {
        let s = self.broadcast_listener_collection@;
        Map::new(
            |n: Seq<char>| exists|i: int| 0 <= i < s.len() && s[i].0@ == n,
            |n: Seq<char>| s[name_pos(s, n)].1@,
        )
    }

    /// No name appears twice.
    pub closed spec fn wf(self) -> bool {
        distinct_names(self.broadcast_listener_collection@)
    }

    /// A broadcaster with no listener.
    pub fn new() -> (b: Self)
        ensures
            b.wf(),
            b.listeners() == Map::<Seq<char>, Seq<L>>::empty(),
    {
        let b = BroadCaster { broadcast_listener_collection: Vec::new() };
        assert(b.listeners() =~= Map::<Seq<char>, Seq<L>>::empty());
        b
    }

    /// The position of the entry named `name`, if there is one.
    fn find(&self, name: &String) -> (r: Option<usize>)
        requires
            self.wf(),
        ensures
            r.is_some() == self.listeners().contains_key(name@),
            r matches Some(i) ==> i < self.broadcast_listener_collection@.len()
                && self.broadcast_listener_collection@[i as int].0@ == name@
                && name_pos(self.broadcast_listener_collection@, name@) == i,
    {
        let mut i: usize = 0;
        while i < self.broadcast_listener_collection.len()
            invariant
                self.wf(),
                i <= self.broadcast_listener_collection@.len(),
                forall|j: int| 0 <= j < i ==> self.broadcast_listener_collection@[j].0@ != name@,
            decreases self.broadcast_listener_collection.len() - i,
        {
            if self.broadcast_listener_collection[i].0 == *name {
                proof {
                    lemma_name_pos(self.broadcast_listener_collection@, i as int);
                }
                return Some(i);
            }
            i = i + 1;
        }
        None
    }

    /// The listeners registered under `message`, if there are any.
    pub fn listeners_for(&self, message: &String) -> (r: Option<&Vec<L>>)
        requires
            self.wf(),
        ensures
            r.is_some() == self.listeners().contains_key(message@),
            r matches Some(v) ==> v@ == self.listeners()[message@],
    {
        match self.find(message) {
            Some(i) => Some(&self.broadcast_listener_collection[i].1),
            None => None,
        }
    }

    /// Registers `listener` under `name`, after the listeners already there.
    pub fn add_listener(&mut self, name: String, listener: L)
        requires
            old(self).wf(),
        ensures
            final(self).wf(),
            final(self).listeners() == old(self).listeners().insert(
                name@,
                if old(self).listeners().contains_key(name@) {
                    old(self).listeners()[name@].push(listener)
                } else {
                    seq![listener]
                },
            ),
    {
        let ghost s0 = self.broadcast_listener_collection@;
        match self.find(&name) {
            Some(i) => {
                self.broadcast_listener_collection[i].1.push(listener);
                proof {
                    let s1 = self.broadcast_listener_collection@;
                    assert forall|a: int, b: int| 0 <= a < b < s1.len() implies s1[a].0@ != s1[b].0@ by {
                        assert(s0[a].0@ != s0[b].0@);
                    }
                    assert forall|n: Seq<char>| #[trigger] self.listeners().contains_key(n) && n != name@ implies
                        self.listeners()[n] == old(self).listeners()[n] by {
                        if n != name@ {
                            let j = choose|j: int| 0 <= j < s1.len() && s1[j].0@ == n;
                            lemma_name_pos(s1, j);
                            lemma_name_pos(s0, j);
                        }
                    }
                    assert forall|n: Seq<char>| old(self).listeners().contains_key(n) implies #[trigger] self.listeners().contains_key(n) by {
                        let j = choose|j: int| 0 <= j < s0.len() && s0[j].0@ == n;
                        assert(s1[j].0@ == n);
                    }
                    assert forall|n: Seq<char>| #[trigger] self.listeners().contains_key(n) implies old(self).listeners().contains_key(n) by {
                        let j = choose|j: int| 0 <= j < s1.len() && s1[j].0@ == n;
                        assert(s0[j].0@ == n);
                    }
                    lemma_name_pos(s1, i as int);
                    assert(self.listeners() =~= old(self).listeners().insert(name@, old(self).listeners()[name@].push(listener)));
                }
            },
            None => {
                let mut listeners: Vec<L> = Vec::new();
                listeners.push(listener);
                let ghost nm = name@;
                self.broadcast_listener_collection.push((name, listeners));
                proof {
                    let s1 = self.broadcast_listener_collection@;
                    let n1 = s0.len() as int;
                    assert forall|a: int, b: int| 0 <= a < b < s1.len() implies s1[a].0@ != s1[b].0@ by {
                        if b < n1 {
                            assert(s0[a].0@ != s0[b].0@);
                        } else {
                            assert(s1[a] == s0[a]);
                        }
                    }
                    assert forall|n: Seq<char>| #[trigger] self.listeners().contains_key(n) && n != nm implies
                        self.listeners()[n] == old(self).listeners()[n] by {
                        if n != nm {
                            let j = choose|j: int| 0 <= j < s1.len() && s1[j].0@ == n;
                            assert(j < n1);
                            lemma_name_pos(s1, j);
                            lemma_name_pos(s0, j);
                        }
                    }
                    assert forall|n: Seq<char>| old(self).listeners().contains_key(n) implies #[trigger] self.listeners().contains_key(n) by {
                        let j = choose|j: int| 0 <= j < s0.len() && s0[j].0@ == n;
                        assert(s1[j].0@ == n);
                    }
                    assert forall|n: Seq<char>| #[trigger] self.listeners().contains_key(n) && n != nm implies old(self).listeners().contains_key(n) by {
                        let j = choose|j: int| 0 <= j < s1.len() && s1[j].0@ == n;
                        assert(j < n1);
                        assert(s0[j].0@ == n);
                    }
                    lemma_name_pos(s1, n1);
                    assert(s1[n1].1@ =~= seq![listener]);
                    assert(self.listeners() =~= old(self).listeners().insert(nm, seq![listener]));
                }
            },
        }
    }
}

} // verus!
