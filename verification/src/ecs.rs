//! The entity-component store: entities are grouped into archetypes by the
//! sorted set of their component kinds, and each archetype keeps one column
//! of component values per kind, one row per entity.

use vstd::prelude::*;
use crate::components::{Component, HEALTH_KIND, MESH_ALLOCATION_KIND, POSITION_KIND, TRANSFORM_KIND};

verus! {

/// Identifier of an entity.
pub type EntityID = u64;

/// A sequence of kinds is in ascending order.
pub open spec fn ascending(s: Seq<u64>) -> bool {
    forall|i: int, j: int| 0 <= i < j < s.len() ==> s[i] <= s[j]
}

/// Sorts the kinds in place with std's `slice::sort` (reached through
/// `Vec`'s `DerefMut`). The contract claims what std documents: the kinds
/// end up in ascending order and are a permutation of the kinds before.
#[verifier::external_body]
fn sort_kinds(kinds: &mut Vec<u64>)
    ensures
        ascending(final(kinds)@),
        final(kinds)@.to_multiset() == old(kinds)@.to_multiset(),
{
    kinds.sort();
}

/// Two sequences that are permutations of each other hold the same
/// elements, and one has no duplicates exactly when the other has none.
proof fn lemma_permutation_same_elements(a: Seq<u64>, b: Seq<u64>)
    requires
        a.to_multiset() == b.to_multiset(),
    ensures
        forall|x: u64| a.contains(x) <==> b.contains(x),
        a.to_set() == b.to_set(),
        a.no_duplicates() ==> b.no_duplicates(),
{
    broadcast use vstd::seq_lib::group_to_multiset_ensures;
    assert forall|x: u64| a.contains(x) <==> b.contains(x) by {
        assert(a.contains(x) <==> a.to_multiset().count(x) > 0);
        assert(b.contains(x) <==> b.to_multiset().count(x) > 0);
    }
    assert(a.to_set() =~= b.to_set());
    if a.no_duplicates() {
        a.lemma_multiset_has_no_duplicates();
        b.lemma_multiset_has_no_duplicates_conv();
    }
}

proof fn lemma_push_to_set(s: Seq<u64>, x: u64)
    ensures
        s.push(x).to_set() == s.to_set().insert(x),
{
    assert forall|k: u64| s.push(x).to_set().contains(k) implies s.to_set().insert(x).contains(k) by {
        let i = choose|i: int| 0 <= i < s.push(x).len() && s.push(x)[i] == k;
        if i < s.len() {
            assert(s[i] == k);
        }
    }
    assert forall|k: u64| s.to_set().insert(x).contains(k) implies s.push(x).to_set().contains(k) by {
        if k == x {
            assert(s.push(x)[s.len() as int] == x);
        } else {
            let i = choose|i: int| 0 <= i < s.len() && s[i] == k;
            assert(s.push(x)[i] == k);
        }
    }
    assert(s.push(x).to_set() =~= s.to_set().insert(x));
}

/// Whether two signatures are equal.
fn same_signature(a: &Vec<u64>, b: &Vec<u64>) -> (r: bool)
    ensures
        r == (a@ == b@),
{
    if a.len() != b.len() {
        return false;
    }
    let mut i: usize = 0;
    while i < a.len()
        invariant
            i <= a.len(),
            a.len() == b.len(),
            forall|j: int| 0 <= j < i ==> a@[j] == b@[j],
        decreases a.len() - i,
    {
        if a[i] != b[i] {
            return false;
        }
        i = i + 1;
    }
    assert(a@ =~= b@);
    true
}

/// Whether no two entries have the same key.
pub open spec fn distinct_keys<C>(s: Seq<(u64, C)>) -> bool {
    forall|i: int, j: int| 0 <= i < j < s.len() ==> s[i].0 != s[j].0
}

/// The keys of a sequence of keyed values.
pub open spec fn keys_of<C>(s: Seq<(u64, C)>) -> Set<u64> {
    Set::new(|k: u64| exists|i: int| 0 <= i < s.len() && s[i].0 == k)
}

/// The position of the entry with key `k`.
pub open spec fn pos_of<C>(s: Seq<(u64, C)>, k: u64) -> int {
    choose|i: int| 0 <= i < s.len() && s[i].0 == k
}

/// The value stored under key `k`.
pub open spec fn value_of<C>(s: Seq<(u64, C)>, k: u64) -> C {
    s[pos_of(s, k)].1
}

proof fn lemma_pos_of<C>(s: Seq<(u64, C)>, i: int)
    requires
        distinct_keys(s),
        0 <= i < s.len(),
    ensures
        pos_of(s, s[i].0) == i,
        keys_of(s).contains(s[i].0),
        value_of(s, s[i].0) == s[i].1,
{
    let j = pos_of(s, s[i].0);
    assert(0 <= j < s.len() && s[j].0 == s[i].0);
}


/// Two ascending sequences without duplicates that hold the same elements
/// are equal.
proof fn lemma_ascending_unique(a: Seq<u64>, b: Seq<u64>)
    requires
        ascending(a),
        ascending(b),
        a.no_duplicates(),
        b.no_duplicates(),
        a.to_set() == b.to_set(),
    ensures
        a == b,
    decreases a.len(),
{
    if a.len() == 0 {
        if b.len() > 0 {
            assert(b.to_set().contains(b[0]));
        }
        assert(a =~= b);
    } else {
        assert(a.to_set().contains(a[0]));
        assert(b.len() > 0);
        assert(b.to_set().contains(b[0]));
        let j = choose|j: int| 0 <= j < b.len() && b[j] == a[0];
        let i = choose|i: int| 0 <= i < a.len() && a[i] == b[0];
        assert(a[0] <= a[i]);
        assert(b[0] <= b[j]);
        let a1 = a.drop_first();
        let b1 = b.drop_first();
        assert(a1.to_set() =~= b1.to_set()) by {
            assert forall|x: u64| a1.to_set().contains(x) implies b1.to_set().contains(x) by {
                let p = choose|p: int| 0 <= p < a1.len() && a1[p] == x;
                assert(a[p + 1] == x);
                assert(x != a[0]);
                assert(a.to_set().contains(x));
                let q = choose|q: int| 0 <= q < b.len() && b[q] == x;
                assert(q != 0);
                assert(b1[q - 1] == x);
            }
            assert forall|x: u64| b1.to_set().contains(x) implies a1.to_set().contains(x) by {
                let p = choose|p: int| 0 <= p < b1.len() && b1[p] == x;
                assert(b[p + 1] == x);
                assert(x != b[0]);
                assert(b.to_set().contains(x));
                let q = choose|q: int| 0 <= q < a.len() && a[q] == x;
                assert(q != 0);
                assert(a1[q - 1] == x);
            }
        }
        lemma_ascending_unique(a1, b1);
        assert(a =~= b) by {
            assert forall|x: int| 0 <= x < a.len() implies a[x] == b[x] by {
                if x > 0 {
                    assert(a[x] == a1[x - 1]);
                    assert(b[x] == b1[x - 1]);
                }
            }
        }
    }
}

/// The signature of the kinds `kinds`: the same kinds, each once, in
/// ascending order.
pub open spec fn signature_of(kinds: Seq<u64>) -> Seq<u64> {
    choose|s: Seq<u64>| ascending(s) && s.no_duplicates() && s.to_set() == kinds.to_set()
}

proof fn lemma_signature_of(kinds: Seq<u64>, s: Seq<u64>)
    requires
        ascending(s),
        s.no_duplicates(),
        s.to_set() == kinds.to_set(),
    ensures
        signature_of(kinds) == s,
{
    let t = signature_of(kinds);
    assert(ascending(t) && t.no_duplicates() && t.to_set() == kinds.to_set());
    lemma_ascending_unique(t, s);
}

/// The signature of an entity depends only on which kinds it has, not on
/// the order they were given in: builders given the same kinds in any
/// order are stored in the same archetype.
pub proof fn law_signature_order_independent(kinds1: Seq<u64>, kinds2: Seq<u64>, sig1: Seq<u64>, sig2: Seq<u64>)
    requires
        kinds1.no_duplicates(),
        kinds2.no_duplicates(),
        kinds1.to_set() == kinds2.to_set(),
        ascending(sig1),
        sig1.to_multiset() == kinds1.to_multiset(),
        ascending(sig2),
        sig2.to_multiset() == kinds2.to_multiset(),
    ensures
        sig1 == sig2,
{
    lemma_permutation_same_elements(kinds1, sig1);
    lemma_permutation_same_elements(kinds2, sig2);
    lemma_ascending_unique(sig1, sig2);
}

/// Two ascending sequences that are permutations of each other are equal.
proof fn lemma_ascending_same_multiset(a: Seq<u64>, b: Seq<u64>)
    requires
        ascending(a),
        ascending(b),
        a.to_multiset() == b.to_multiset(),
    ensures
        a == b,
    decreases a.len(),
{
    broadcast use vstd::seq_lib::group_to_multiset_ensures;
    assert(a.len() == a.to_multiset().len());
    assert(b.len() == b.to_multiset().len());
    if a.len() == 0 {
        assert(a =~= b);
    } else {
        assert(a.to_multiset().count(a[0]) > 0);
        assert(b.contains(a[0]));
        let j = choose|j: int| 0 <= j < b.len() && b[j] == a[0];
        assert(b[0] <= b[j]);
        assert(b.to_multiset().count(b[0]) > 0);
        assert(a.contains(b[0]));
        let i = choose|i: int| 0 <= i < a.len() && a[i] == b[0];
        assert(a[0] <= a[i]);
        assert(a[0] == b[0]);
        assert(a.remove(0) =~= a.drop_first());
        assert(b.remove(0) =~= b.drop_first());
        assert(a.remove(0).to_multiset() =~= a.to_multiset().remove(a[0]));
        assert(b.remove(0).to_multiset() =~= b.to_multiset().remove(b[0]));
        lemma_ascending_same_multiset(a.drop_first(), b.drop_first());
        assert forall|x: int| 0 <= x < a.len() implies a[x] == b[x] by {
            if x > 0 {
                assert(a[x] == a.drop_first()[x - 1]);
                assert(b[x] == b.drop_first()[x - 1]);
            }
        }
        assert(a =~= b);
    }
}

/// The signature depends only on which kinds were given and how often,
/// not on their order, repeated kinds included: signatures of two
/// permutations of the same kinds are equal.
pub proof fn law_signature_permutation(ids1: Seq<u64>, ids2: Seq<u64>, sig1: Seq<u64>, sig2: Seq<u64>)
    requires
        ids1.to_multiset() == ids2.to_multiset(),
        ascending(sig1),
        sig1.to_multiset() == ids1.to_multiset(),
        ascending(sig2),
        sig2.to_multiset() == ids2.to_multiset(),
    ensures
        sig1 == sig2,
{
    lemma_ascending_same_multiset(sig1, sig2);
}

/// Making the signature of a signature gives it back unchanged.
pub proof fn law_signature_idempotent(sig: Seq<u64>, again: Seq<u64>)
    requires
        ascending(sig),
        ascending(again),
        again.to_multiset() == sig.to_multiset(),
    ensures
        again == sig,
{
    lemma_ascending_same_multiset(again, sig);
}

/// Building two entities with the same kinds, given in any order, one
/// after the other, with any number of spawns in between (`mid` is the
/// store when the second is built; spawning keeps records, archetypes and
/// signatures): both are recorded with the same signature, the second in
/// the row after the first, and at most one archetype is made, only when
/// the store had none of that signature.
pub proof fn law_build_order_independent<C>(
    w0: World<C>,
    b1: EntityBuilder<C>,
    w1: World<C>,
    mid: World<C>,
    b2: EntityBuilder<C>,
    w2: World<C>,
)
    requires
        w1.wf(),
        b1.kinds().no_duplicates(),
        b2.kinds().no_duplicates(),
        b1.kinds().to_set() == b2.kinds().to_set(),
        b1.spec_id() != b2.spec_id(),
        b1.stored(w0, w1),
        mid.records() == w1.records(),
        mid.archetypes() == w1.archetypes(),
        mid.signatures() == w1.signatures(),
        b2.stored(mid, w2),
    ensures
        w2.records()[b1.spec_id()].signature() == w2.records()[b2.spec_id()].signature(),
        w2.records()[b2.spec_id()].row() == w2.records()[b1.spec_id()].row() + 1,
        w2.archetypes().len() == w0.archetypes().len() + (if w0.signatures().contains(
            signature_of(b1.kinds()),
        ) {
            0int
        } else {
            1int
        }),
{
    let s1 = signature_of(b1.kinds());
    let s2 = signature_of(b2.kinds());
    let n0 = w0.archetypes().len() as int;
    // the archetype that received the first entity
    let i: int = if w0.signatures().contains(s1) {
        choose|i: int| 0 <= i < w0.signatures().len() && w0.signatures()[i] == s1
    } else {
        n0
    };
    assert(w1.signatures()[i] == s1);
    assert(w1.archetype_index@[i].0@ == s1);
    assert(w1.archetypes()[i] == w1.archetype_index@[i].1);
    // its signature is also the signature of the second entity's kinds
    lemma_signature_of(b2.kinds(), s1);
    assert(s2 == s1);
    assert(mid.signatures().contains(s1));
    assert(w2.signatures() == mid.signatures());
    assert(w2.signatures()[i] == s1);
    assert(0 <= i < mid.archetypes().len());
    assert(w2.archetypes().len() == mid.archetypes().len());
    let e0 = if i < n0 {
        w0.archetypes()[i].entities()
    } else {
        Seq::<u64>::empty()
    };
    assert(w1.archetypes()[i].entities() == e0.push(b1.spec_id()));
    assert(w1.records()[b1.spec_id()].row() == e0.len());
    assert(w2.records()[b2.spec_id()].row() == mid.archetypes()[i].entities().len());
    assert(mid.records().contains_key(b1.spec_id()));
    assert(w2.records().contains_key(b1.spec_id()));
    assert(w2.records()[b1.spec_id()] == mid.records()[b1.spec_id()]);
}

/// Reading back what was built: after an entity is built into a store,
/// each of its components is the one it was given for that kind, it has no
/// other, and every other entity keeps exactly its components.
pub proof fn law_component_read_back<C>(before: World<C>, builder: EntityBuilder<C>, after: World<C>)
    requires
        before.wf(),
        builder.wf(),
        builder.kinds().no_duplicates(),
        after.components() == before.components().insert(builder.spec_id(), builder.component_map()),
    ensures
        after.components().contains_key(builder.spec_id()),
        forall|k: u64|
            builder.kinds().contains(k) <==> #[trigger] after.components()[builder.spec_id()].contains_key(k),
        forall|k: u64|
            #![trigger builder.component_map()[k]]
            builder.kinds().contains(k) ==> after.components()[builder.spec_id()][k]
                == builder.component_map()[k],
        forall|e: u64|
            e != builder.spec_id() ==> (#[trigger] after.components().contains_key(e)
                == before.components().contains_key(e) && (before.components().contains_key(e)
                ==> after.components()[e] == before.components()[e])),
{
    builder.lemma_wf_facts();
}

/// Reading back what was written in place: after the component of kind
/// `kind` of `entity` is set to `v` through `get_component_as_mut`, that
/// component reads `v`, the entity keeps the same kinds, and every other
/// component of every entity is unchanged.
pub proof fn law_component_write_read<C>(before: World<C>, entity: u64, kind: u64, v: C, after: World<C>)
    requires
        before.components().contains_key(entity),
        before.components()[entity].contains_key(kind),
        after.components() == before.components().insert(entity, before.components()[entity].insert(kind, v)),
    ensures
        after.components().contains_key(entity),
        after.components()[entity].contains_key(kind),
        after.components()[entity][kind] == v,
        after.components()[entity].dom() == before.components()[entity].dom(),
        forall|k: u64|
            k != kind && #[trigger] before.components()[entity].contains_key(k) ==> after.components()[entity][k]
                == before.components()[entity][k],
        after.components().dom() == before.components().dom(),
        forall|e: u64|
            e != entity && #[trigger] before.components().contains_key(e) ==> after.components()[e]
                == before.components()[e],
{
    assert(after.components()[entity].dom() =~= before.components()[entity].dom());
    assert(after.components().dom() =~= before.components().dom());
}

/// A group of entities that all have the same kinds of components: one
/// column of values per kind and one row per entity. The columns are kept
/// as a list of (kind, values) rather than a hash map from kind to values:
/// a value is handed out to be changed in place (`World::get_component_as_mut`),
/// and std's `HashMap::get_mut` has no specification to build that on.
pub struct Archetype<C> {
    id: usize,
    columns: Vec<(u64, Vec<C>)>,
    entity_ids: Vec<u64>,
}

/// Whether no two columns are of the same kind.
pub open spec fn distinct_kinds<C>(cols: Seq<(u64, Vec<C>)>) -> bool {
    forall|i: int, j: int| 0 <= i < j < cols.len() ==> cols[i].0 != cols[j].0
}

/// The position of the column of kind `k`.
pub open spec fn slot_of<C>(cols: Seq<(u64, Vec<C>)>, k: u64) -> int {
    choose|i: int| 0 <= i < cols.len() && cols[i].0 == k
}

/// The set of kinds that have a column.
pub open spec fn kinds_of<C>(cols: Seq<(u64, Vec<C>)>) -> Set<u64> {
    Set::new(|k: u64| exists|i: int| 0 <= i < cols.len() && cols[i].0 == k)
}

proof fn lemma_slot_of<C>(cols: Seq<(u64, Vec<C>)>, i: int)
    requires
        distinct_kinds(cols),
        0 <= i < cols.len(),
    ensures
        slot_of(cols, cols[i].0) == i,
        kinds_of(cols).contains(cols[i].0),
{
    let j = slot_of(cols, cols[i].0);
    assert(0 <= j < cols.len() && cols[j].0 == cols[i].0);
}

impl<C> Archetype<C> {
    /// The signature of a set of component kinds: the kinds in ascending order.
    pub fn generate_signature(ids: &Vec<u64>) -> (ret: Vec<u64>)
        ensures
            ascending(ret@),
            ret@.to_multiset() == ids@.to_multiset(),
            ret@.to_set() == ids@.to_set(),
            ids@.no_duplicates() ==> ret@.no_duplicates(),
            ids@.no_duplicates() ==> ret@ == signature_of(ids@),
    {
        let mut ret: Vec<u64> = Vec::new();
        let mut i: usize = 0;
        while i < ids.len()
            invariant
                i <= ids.len(),
                ret@ == ids@.subrange(0, i as int),
            decreases ids.len() - i,
        {
            ret.push(ids[i]);
            i = i + 1;
        }
        assert(ret@ =~= ids@);
        let ghost before = ret@;
        sort_kinds(&mut ret);
        proof {
            lemma_permutation_same_elements(before, ret@);
            if ids@.no_duplicates() {
                lemma_signature_of(ids@, ret@);
            }
        }
        ret
    }

    /// The archetype's identifier.
    pub closed spec fn spec_id(self) -> usize {
        self.id
    }

    /// The kinds of component this archetype stores.
    pub closed spec fn kinds(self) -> Set<u64> {
        kinds_of(self.columns@)
    }

    /// The column of kind `k`, one value per row.
    pub closed spec fn column(self, k: u64) -> Seq<C> {
        self.columns@[slot_of(self.columns@, k)].1@
    }

    /// The entities stored, one per row.
    pub closed spec fn entities(self) -> Seq<u64> {
        self.entity_ids@
    }

    /// Every column holds one value per stored entity and no two columns
    /// are of the same kind.
    pub closed spec fn wf(self) -> bool {
        &&& distinct_kinds(self.columns@)
        &&& forall|i: int|
            0 <= i < self.columns@.len() ==> #[trigger] self.columns@[i].1@.len()
                == self.entity_ids@.len()
    }

    /// In a well-formed archetype every column has one value per row.
    pub proof fn lemma_column_len(self, k: u64)
        requires
            self.wf(),
            self.kinds().contains(k),
        ensures
            self.column(k).len() == self.entities().len(),
    {
        let i = choose|i: int| 0 <= i < self.columns@.len() && self.columns@[i].0 == k;
        lemma_slot_of(self.columns@, i);
    }

    /// The entities stored, one per row.
    pub fn entity_ids(&self) -> (r: &Vec<u64>)
        ensures
            r@ == self.entities(),
    {
        &self.entity_ids
    }

    /// Whether this archetype has a column of kind `id`.
    pub fn has_id(&self, id: &u64) -> (r: bool)
        requires
            self.wf(),
        ensures
            r == self.kinds().contains(*id),
    {
        self.find_column(*id).is_some()
    }

    /// Whether this archetype has a column of kind `kind`.
    pub fn has_component(&self, kind: u64) -> (r: bool)
        requires
            self.wf(),
        ensures
            r == self.kinds().contains(kind),
    {
        self.find_column(kind).is_some()
    }

    /// The position of the column of kind `kind`, if there is one.
    fn find_column(&self, kind: u64) -> (r: Option<usize>)
        requires
            self.wf(),
        ensures
            r.is_some() == self.kinds().contains(kind),
            r matches Some(i) ==> i < self.columns@.len() && self.columns@[i as int].0 == kind
                && slot_of(self.columns@, kind) == i,
    {
        let mut i: usize = 0;
        while i < self.columns.len()
            invariant
                self.wf(),
                i <= self.columns@.len(),
                forall|j: int| 0 <= j < i ==> self.columns@[j].0 != kind,
            decreases self.columns.len() - i,
        {
            if self.columns[i].0 == kind {
                proof {
                    lemma_slot_of(self.columns@, i as int);
                }
                return Some(i);
            }
            i = i + 1;
        }
        assert(!self.kinds().contains(kind));
        None
    }

    /// The values of the column of kind `kind`, one per row.
    pub fn get_components_as_slice(&self, kind: u64) -> (r: &[C])
        requires
            self.wf(),
            self.kinds().contains(kind),
        ensures
            r@ == self.column(kind),
    {
        let i = self.find_column(kind).unwrap();
        self.columns[i].1.as_slice()
    }


    /// Adds an entity with one component of each kind of the archetype;
    /// returns the row it is stored at.
    fn add_entity(&mut self, id: u64, push_components: Vec<(u64, C)>) -> (row: usize)
        requires
            old(self).wf(),
            distinct_keys(push_components@),
            keys_of(push_components@) == old(self).kinds(),
        ensures
            row == old(self).entities().len(),
            final(self).wf(),
            final(self).spec_id() == old(self).spec_id(),
            final(self).kinds() == old(self).kinds(),
            final(self).entities() == old(self).entities().push(id),
            forall|k: u64|
                #![trigger final(self).column(k)]
                old(self).kinds().contains(k) ==> final(self).column(k) == old(self).column(k).push(
                    value_of(push_components@, k),
                ),
    {
        let ghost orig = push_components@;
        let ghost old_cols = self.columns@;
        let mut comps = push_components;
        assert forall|j: int| 0 <= j < old_cols.len() implies 0 <= #[trigger] pos_of(orig, old_cols[j].0)
            < orig.len() by {
            lemma_slot_of(old_cols, j);
        }
        assert(comps@ =~= orig.subrange(0, comps.len() as int));
        while comps.len() > 0
            invariant
                distinct_keys(orig),
                keys_of(orig) == kinds_of(old_cols),
                distinct_kinds(old_cols),
                comps.len() <= orig.len(),
                comps@ == orig.subrange(0, comps.len() as int),
                self.columns@.len() == old_cols.len(),
                forall|j: int| 0 <= j < old_cols.len() ==> #[trigger] self.columns@[j].0 == old_cols[j].0,
                forall|j: int|
                    0 <= j < old_cols.len() ==> {
                        let m = pos_of(orig, old_cols[j].0);
                        &&& m < comps.len() ==> #[trigger] self.columns@[j].1@ == old_cols[j].1@
                        &&& m >= comps.len() ==> self.columns@[j].1@ == old_cols[j].1@.push(orig[m].1)
                    },
                forall|j: int|
                    0 <= j < old_cols.len() ==> 0 <= #[trigger] pos_of(orig, old_cols[j].0) < orig.len(),
                self.entity_ids@ == old(self).entity_ids@,
                self.id == old(self).id,
            decreases comps.len(),
        {
            let ghost n = comps.len() as int;
            let (kind, value) = comps.pop().unwrap();
            proof {
                assert(orig[n - 1] == (kind, value));
                lemma_pos_of(orig, n - 1);
                assert(kinds_of(old_cols).contains(kind));
            }
            let ghost before = self.columns@;
            let mut j: usize = 0;
            while j < self.columns.len() && self.columns[j].0 != kind
                invariant
                    self.columns@ == before,
                    before.len() == old_cols.len(),
                    forall|x: int| 0 <= x < old_cols.len() ==> #[trigger] before[x].0 == old_cols[x].0,
                    kinds_of(old_cols).contains(kind),
                    j <= before.len(),
                    forall|x: int| 0 <= x < j ==> before[x].0 != kind,
                decreases before.len() - j,
            {
                j = j + 1;
            }
            if j == self.columns.len() {
                proof {
                    let x = choose|x: int| 0 <= x < old_cols.len() && old_cols[x].0 == kind;
                    assert(before[x].0 == kind);
                }
            }
            assert(j < self.columns.len() && self.columns@[j as int].0 == kind);
            self.columns[j].1.push(value);
            proof {
                assert forall|x: int| 0 <= x < old_cols.len() implies {
                    let m = pos_of(orig, old_cols[x].0);
                    &&& m < comps.len() ==> #[trigger] self.columns@[x].1@ == old_cols[x].1@
                    &&& m >= comps.len() ==> self.columns@[x].1@ == old_cols[x].1@.push(orig[m].1)
                } by {
                    let m = pos_of(orig, old_cols[x].0);
                    if x == j as int {
                        assert(m == n - 1);
                    } else {
                        assert(old_cols[x].0 != kind);
                        assert(self.columns@[x] == before[x]);
                        assert(keys_of(orig).contains(old_cols[x].0));
                        assert(0 <= m < orig.len() && orig[m].0 == old_cols[x].0);
                        assert(m != n - 1);
                    }
                }
            }
        }
        let row = self.entity_ids.len();
        self.entity_ids.push(id);
        proof {
            assert forall|j: int| 0 <= j < self.columns@.len() implies #[trigger] self.columns@[j].1@.len()
                == self.entity_ids@.len() by {
                let m = pos_of(orig, old_cols[j].0);
                lemma_slot_of(old_cols, j);
                assert(keys_of(orig).contains(old_cols[j].0));
                assert(0 <= m < orig.len());
                assert(old_cols[j].1@.len() == old(self).entity_ids@.len());
            }
            assert forall|a: int, b: int| 0 <= a < b < self.columns@.len() implies self.columns@[a].0
                != self.columns@[b].0 by {
                assert(old_cols[a].0 != old_cols[b].0);
            }
            assert(kinds_of(self.columns@) =~= kinds_of(old_cols)) by {
                assert forall|k: u64| kinds_of(self.columns@).contains(k) implies kinds_of(old_cols).contains(k) by {
                    let x = choose|x: int| 0 <= x < self.columns@.len() && self.columns@[x].0 == k;
                    assert(old_cols[x].0 == k);
                }
                assert forall|k: u64| kinds_of(old_cols).contains(k) implies kinds_of(self.columns@).contains(k) by {
                    let x = choose|x: int| 0 <= x < old_cols.len() && old_cols[x].0 == k;
                    assert(self.columns@[x].0 == k);
                }
            }
            assert forall|k: u64| #![trigger self.column(k)] old(self).kinds().contains(k) implies self.column(
                k,
            ) == old(self).column(k).push(value_of(orig, k)) by {
                let x = choose|x: int| 0 <= x < old_cols.len() && old_cols[x].0 == k;
                lemma_slot_of(old_cols, x);
                assert(self.columns@[x].0 == k);
                lemma_slot_of(self.columns@, x);
                assert(keys_of(orig).contains(k));
                let m = pos_of(orig, k);
                assert(0 <= m < orig.len() && orig[m].0 == k);
            }
        }
        row
    }

    /// An empty archetype with a column for each of `components` that the
    /// registry knows.
    pub fn new(id: usize, components: Vec<u64>, registry: &TypeRegister) -> (r: Self)
        ensures
            r.wf(),
            r.spec_id() == id,
            r.entities() == Seq::<u64>::empty(),
            r.kinds() == components@.to_set().intersect(registry@),
            forall|k: u64| #[trigger] r.kinds().contains(k) ==> r.column(k) == Seq::<C>::empty(),
    {
        let mut columns: Vec<(u64, Vec<C>)> = Vec::new();
        let mut i: usize = 0;
        while i < components.len()
            invariant
                i <= components@.len(),
                distinct_kinds(columns@),
                forall|j: int| 0 <= j < columns@.len() ==> #[trigger] columns@[j].1@.len() == 0,
                kinds_of(columns@) == components@.subrange(0, i as int).to_set().intersect(registry@),
            decreases components.len() - i,
        {
            let comp = components[i];
            let ghost prev = columns@;
            if registry.contains(comp) {
                let mut present = false;
                let mut j: usize = 0;
                while j < columns.len()
                    invariant
                        j <= columns@.len(),
                        present == exists|m: int| 0 <= m < j && columns@[m].0 == comp,
                    decreases columns.len() - j,
                {
                    if columns[j].0 == comp {
                        present = true;
                    }
                    j = j + 1;
                }
                if !present {
                    columns.push((comp, Vec::new()));
                    assert forall|a: int, b: int| 0 <= a < b < columns@.len() implies columns@[a].0
                        != columns@[b].0 by {
                        if b == columns@.len() - 1 {
                            assert(prev[a].0 != comp);
                        } else {
                            assert(prev[a].0 != prev[b].0);
                        }
                    }
                }
            }
            proof {
                let before = components@.subrange(0, i as int);
                let after = components@.subrange(0, i + 1);
                assert(after =~= before.push(comp));
                assert(kinds_of(columns@) =~= after.to_set().intersect(registry@))
                    by {
                    assert forall|k: u64| #[trigger] kinds_of(columns@).contains(k) implies after.to_set().intersect(registry@).contains(k) by {
                        let m = choose|m: int| 0 <= m < columns@.len() && columns@[m].0 == k;
                        if m < prev.len() {
                            assert(prev[m] == columns@[m]);
                            assert(kinds_of(prev).contains(k));
                            assert(before.to_set().contains(k));
                            let x = choose|x: int| 0 <= x < before.len() && before[x] == k;
                            assert(after[x] == k);
                        } else {
                            assert(k == comp);
                            assert(after[i as int] == comp);
                        }
                    }
                    assert forall|k: u64| #[trigger] after.to_set().intersect(registry@).contains(k)
                        implies kinds_of(columns@).contains(k) by {
                        if k == comp {
                            if exists|m: int| 0 <= m < prev.len() && prev[m].0 == comp {
                                let m = choose|m: int| 0 <= m < prev.len() && prev[m].0 == comp;
                                assert(columns@[m] == prev[m]);
                            } else {
                                assert(columns@[columns@.len() - 1].0 == comp);
                            }
                        } else {
                            assert(before.to_set().contains(k));
                            assert(kinds_of(prev).contains(k));
                            let m = choose|m: int| 0 <= m < prev.len() && prev[m].0 == k;
                            assert(columns@[m] == prev[m]);
                        }
                    }
                }
            }
            i = i + 1;
        }
        assert(components@.subrange(0, components@.len() as int) =~= components@);
        Archetype { id, columns, entity_ids: Vec::new() }
    }
}



/// The archetypes among `archs` that have a column of every kind in `ids`,
/// in order.
pub open spec fn with_all_kinds<C>(archs: Seq<Archetype<C>>, ids: Set<u64>) -> Seq<Archetype<C>>
    decreases archs.len(),
{
    if archs.len() == 0 {
        Seq::empty()
    } else {
        let rest = with_all_kinds(archs.drop_last(), ids);
        if ids.subset_of(archs.last().kinds()) {
            rest.push(archs.last())
        } else {
            rest
        }
    }
}


/// The archetypes found by kinds are exactly the archetypes of the store
/// that have a column of every one of those kinds.
pub proof fn law_with_all_kinds_members<C>(archs: Seq<Archetype<C>>, ids: Set<u64>)
    ensures
        forall|a: Archetype<C>|
            #[trigger] with_all_kinds(archs, ids).contains(a) <==> (archs.contains(a) && ids.subset_of(
                a.kinds(),
            )),
    decreases archs.len(),
{
    if archs.len() > 0 {
        let rest = archs.drop_last();
        law_with_all_kinds_members(rest, ids);
        let res = with_all_kinds(archs, ids);
        let r = with_all_kinds(rest, ids);
        assert forall|a: Archetype<C>| #[trigger] res.contains(a) <==> (archs.contains(a) && ids.subset_of(
            a.kinds(),
        )) by {
            if res.contains(a) {
                let i = choose|i: int| 0 <= i < res.len() && res[i] == a;
                if ids.subset_of(archs.last().kinds()) {
                    assert(res == r.push(archs.last()));
                    if i < r.len() {
                        assert(r.contains(a));
                        let j = choose|j: int| 0 <= j < rest.len() && rest[j] == a;
                        assert(archs[j] == a);
                    } else {
                        assert(archs[archs.len() - 1] == a);
                    }
                } else {
                    assert(res == r);
                    assert(r.contains(a));
                    let j = choose|j: int| 0 <= j < rest.len() && rest[j] == a;
                    assert(archs[j] == a);
                }
            }
            if archs.contains(a) && ids.subset_of(a.kinds()) {
                let j = choose|j: int| 0 <= j < archs.len() && archs[j] == a;
                if j == archs.len() - 1 {
                    assert(res == r.push(archs.last()));
                    assert(res[r.len() as int] == a);
                } else {
                    assert(rest[j] == a);
                    assert(r.contains(a));
                    let i = choose|i: int| 0 <= i < r.len() && r[i] == a;
                    if ids.subset_of(archs.last().kinds()) {
                        assert(res == r.push(archs.last()));
                        assert(res[i] == a);
                    } else {
                        assert(res == r);
                    }
                }
            }
        }
    } else {
        assert(with_all_kinds(archs, ids) =~= Seq::<Archetype<C>>::empty());
    }
}

/// The transform and mesh columns of each archetype that has both.
pub open spec fn render_batches_of<C>(archs: Seq<Archetype<C>>) -> Seq<(Seq<C>, Seq<C>)> {
    with_all_kinds(archs, set![TRANSFORM_KIND, MESH_ALLOCATION_KIND]).map_values(
        |a: Archetype<C>| (a.column(TRANSFORM_KIND), a.column(MESH_ALLOCATION_KIND)),
    )
}

/// Whether an archetype has a column of every kind in `ids`.
pub open spec fn has_all_kinds<C>(ids: Set<u64>) -> spec_fn(Archetype<C>) -> bool {
    |a: Archetype<C>| ids.subset_of(a.kinds())
}

/// The archetypes found by kinds are the archetypes that have every one of
/// those kinds, each once, in the order of `archs`: exactly what filtering
/// `archs` by that condition keeps. With no archetype repeated in `archs`,
/// none is repeated in what is found.
pub proof fn law_with_all_kinds_filter<C>(archs: Seq<Archetype<C>>, ids: Set<u64>)
    ensures
        with_all_kinds(archs, ids) == archs.filter(has_all_kinds::<C>(ids)),
        with_all_kinds(archs, ids).len() == archs.filter(has_all_kinds::<C>(ids)).len(),
        archs.no_duplicates() ==> with_all_kinds(archs, ids).no_duplicates(),
    decreases archs.len(),
{
    reveal(Seq::filter);
    if archs.len() > 0 {
        let rest = archs.drop_last();
        law_with_all_kinds_filter(rest, ids);
        law_with_all_kinds_members(rest, ids);
        let r = with_all_kinds(rest, ids);
        let last = archs.last();
        assert(has_all_kinds::<C>(ids)(last) == ids.subset_of(last.kinds()));
        if archs.no_duplicates() {
            assert(rest.no_duplicates()) by {
                assert forall|i: int, j: int| 0 <= i < rest.len() && 0 <= j < rest.len() && i != j implies rest[i]
                    != rest[j] by {
                    assert(rest[i] == archs[i] && rest[j] == archs[j]);
                }
            }
            if ids.subset_of(last.kinds()) {
                assert(!r.contains(last)) by {
                    if r.contains(last) {
                        assert(rest.contains(last));
                        let j = choose|j: int| 0 <= j < rest.len() && rest[j] == last;
                        assert(archs[j] == archs[archs.len() - 1]);
                    }
                }
                let res = r.push(last);
                assert forall|i: int, j: int| 0 <= i < res.len() && 0 <= j < res.len() && i != j implies res[i]
                    != res[j] by {
                    if i < r.len() && j < r.len() {
                        assert(res[i] == r[i] && res[j] == r[j]);
                    } else if i < r.len() {
                        assert(res[i] == r[i]);
                        assert(r.contains(r[i]));
                    } else {
                        assert(res[j] == r[j]);
                        assert(r.contains(r[j]));
                    }
                }
            }
        }
    } else {
        assert(with_all_kinds(archs, ids) =~= archs.filter(has_all_kinds::<C>(ids)));
    }
}

/// The render batches are one per archetype that has both a transform and a
/// mesh column, in order: batch `i` is the transform and mesh columns of the
/// `i`-th such archetype.
pub proof fn law_render_batches<C>(archs: Seq<Archetype<C>>)
    ensures
        render_batches_of(archs).len() == archs.filter(
            has_all_kinds::<C>(set![TRANSFORM_KIND, MESH_ALLOCATION_KIND]),
        ).len(),
        forall|i: int|
            0 <= i < render_batches_of(archs).len() ==> #[trigger] render_batches_of(archs)[i] == (
            archs.filter(has_all_kinds::<C>(set![TRANSFORM_KIND, MESH_ALLOCATION_KIND]))[i].column(
                TRANSFORM_KIND,
            ), archs.filter(has_all_kinds::<C>(set![TRANSFORM_KIND, MESH_ALLOCATION_KIND]))[i].column(
                MESH_ALLOCATION_KIND,
            )),
{
    law_with_all_kinds_filter(archs, set![TRANSFORM_KIND, MESH_ALLOCATION_KIND]);
}

proof fn lemma_with_all_kinds_wf<C>(archs: Seq<Archetype<C>>, ids: Set<u64>)
    requires
        forall|i: int| 0 <= i < archs.len() ==> #[trigger] archs[i].wf(),
    ensures
        forall|i: int|
            0 <= i < with_all_kinds(archs, ids).len() ==> #[trigger] with_all_kinds(archs, ids)[i].wf()
                && ids.subset_of(with_all_kinds(archs, ids)[i].kinds()),
    decreases archs.len(),
{
    if archs.len() > 0 {
        let rest = archs.drop_last();
        assert forall|i: int| 0 <= i < rest.len() implies #[trigger] rest[i].wf() by {
            assert(rest[i] == archs[i]);
        }
        lemma_with_all_kinds_wf(rest, ids);
        assert(archs[archs.len() - 1].wf());
        let res = with_all_kinds(archs, ids);
        let r = with_all_kinds(rest, ids);
        if ids.subset_of(archs.last().kinds()) {
            assert(res == r.push(archs.last()));
            assert forall|i: int| 0 <= i < res.len() implies #[trigger] res[i].wf() && ids.subset_of(
                res[i].kinds(),
            ) by {
                if i < r.len() {
                    assert(res[i] == r[i]);
                } else {
                    assert(res[i] == archs.last());
                }
            }
        } else {
            assert(res == r);
        }
    }
}

/// A health component.
pub struct Health {
    pub current: u32,
    pub max: u32,
}

impl Health {
    /// Health `current` out of `max`.
    pub fn new(current: u32, max: u32) -> (h: Self)
        ensures
            h.current == current,
            h.max == max,
    {
        Health { current, max }
    }
}

impl Component for Health {

}

/// A marker component for things that have a position.
pub struct Position {}

impl Component for Position {

}

/// Where the components of an entity are stored: the signature of its
/// archetype and its row there.
pub struct EntityRecord {
    row_index: usize,
    archetype_signature: Vec<u64>,
}

impl EntityRecord {
    /// The row of the entity in its archetype.
    pub closed spec fn row(self) -> int {
        self.row_index as int
    }

    /// The signature of the entity's archetype.
    pub closed spec fn signature(self) -> Seq<u64> {
        self.archetype_signature@
    }

    /// The row of the entity in its archetype.
    pub fn row_index(&self) -> (r: usize)
        ensures
            r == self.row(),
    {
        self.row_index
    }

    /// The signature of the entity's archetype.
    pub fn archetype_signature(&self) -> (r: &Vec<u64>)
        ensures
            r@ == self.signature(),
    {
        &self.archetype_signature
    }
}

/// An entity under construction: its identifier and the components given
/// so far, at most one of each kind.
pub struct EntityBuilder<C> {
    id: EntityID,
    signature: Vec<u64>,
    components: Vec<(u64, C)>,
}

impl<C> EntityBuilder<C> {
    /// The identifier the entity will have.
    pub closed spec fn spec_id(self) -> u64 {
        self.id
    }

    /// The kinds of the components given so far, in the order given.
    pub closed spec fn kinds(self) -> Seq<u64> {
        self.signature@
    }

    /// The component given for each kind.
    pub closed spec fn component_map(self) -> Map<u64, C> {
        Map::new(
            |k: u64| keys_of(self.components@).contains(k),
            |k: u64| value_of(self.components@, k),
        )
    }

    /// The components given so far, each with its kind, in the order given.
    pub closed spec fn entries(self) -> Seq<(u64, C)> {
        self.components@
    }

    /// The kinds match the components.
    pub closed spec fn wf(self) -> bool {
        &&& self.signature@.len() == self.components@.len()
        &&& forall|i: int|
            0 <= i < self.signature@.len() ==> #[trigger] self.signature@[i]
                == self.components@[i].0
    }

    /// With distinct kinds, the components given are exactly one for each
    /// kind given.
    pub proof fn lemma_kinds_map(self)
        requires
            self.wf(),
            self.kinds().no_duplicates(),
        ensures
            self.component_map().dom() == self.kinds().to_set(),
    {
        self.lemma_wf_facts();
    }

    proof fn lemma_wf_facts(self)
        requires
            self.wf(),
            self.kinds().no_duplicates(),
        ensures
            distinct_keys(self.components@),
            self.kinds().to_set() == keys_of(self.components@),
            self.component_map().dom() == self.kinds().to_set(),
    {
        assert(self.kinds().to_set() =~= keys_of(self.components@)) by {
            assert forall|k: u64| self.kinds().to_set().contains(k) implies keys_of(
                self.components@,
            ).contains(k) by {
                let i = choose|i: int| 0 <= i < self.kinds().len() && self.kinds()[i] == k;
                assert(self.components@[i].0 == k);
            }
            assert forall|k: u64| keys_of(self.components@).contains(k) implies self.kinds().to_set().contains(
                k,
            ) by {
                let i = choose|i: int| 0 <= i < self.components@.len() && self.components@[i].0 == k;
                assert(self.kinds()[i] == k);
            }
        }
        assert(self.component_map().dom() =~= self.kinds().to_set());
        assert forall|i: int, j: int| 0 <= i < j < self.components@.len() implies self.components@[i].0
            != self.components@[j].0 by {
            assert(self.kinds()[i] == self.components@[i].0);
            assert(self.kinds()[j] == self.components@[j].0);
        }
    }

    /// Adds a component of kind `kind` to the entity. A kind given a second
    /// time is recorded again; such a builder cannot be stored (see
    /// `build`).
    pub fn with(self, kind: u64, component: C) -> (r: Self)
        requires
            self.wf(),
        ensures
            r.wf(),
            r.spec_id() == self.spec_id(),
            r.kinds() == self.kinds().push(kind),
            r.entries() == self.entries().push((kind, component)),
            self.kinds().no_duplicates() && !self.kinds().contains(kind) ==> r.kinds().no_duplicates()
                && r.component_map() == self.component_map().insert(kind, component),
    {
        let EntityBuilder { id, mut signature, mut components } = self;
        let ghost old_components = components@;
        signature.push(kind);
        components.push((kind, component));
        let r = EntityBuilder { id, signature, components };
        proof {
            assert(r.wf());
            assert(r.kinds() =~= self.kinds().push(kind));
            if self.kinds().no_duplicates() && !self.kinds().contains(kind) {
                self.lemma_wf_facts();
                assert forall|i: int| 0 <= i < old_components.len() implies old_components[i].0 != kind by {
                    assert(self.signature@[i] == old_components[i].0);
                }
                assert(r.component_map() =~= self.component_map().insert(kind, component)) by {
                    let n = old_components.len() as int;
                    assert(distinct_keys(r.components@)) by {
                        assert forall|a: int, b: int| 0 <= a < b < r.components@.len() implies r.components@[a].0
                            != r.components@[b].0 by {
                            if b < n {
                                assert(old_components[a].0 != old_components[b].0);
                            }
                        }
                    }
                    lemma_pos_of(r.components@, n);
                    assert forall|k: u64| #[trigger] r.component_map().contains_key(k) implies r.component_map()[k]
                        == self.component_map().insert(kind, component)[k] by {
                        if k != kind {
                            let i = choose|i: int| 0 <= i < r.components@.len() && r.components@[i].0 == k;
                            assert(i < n);
                            lemma_pos_of(old_components, i);
                            lemma_pos_of(r.components@, i);
                        }
                    }
                    assert forall|k: u64| #[trigger] self.component_map().insert(kind, component).contains_key(k)
                        implies r.component_map().contains_key(k) by {
                        if k != kind {
                            let i = choose|i: int| 0 <= i < old_components.len() && old_components[i].0 == k;
                            assert(r.components@[i].0 == k);
                        }
                    }
                    assert forall|k: u64| #[trigger] r.component_map().contains_key(k) implies self.component_map().insert(
                        kind,
                        component,
                    ).contains_key(k) by {
                        if k != kind {
                            let i = choose|i: int| 0 <= i < r.components@.len() && r.components@[i].0 == k;
                            assert(i < n);
                            assert(old_components[i].0 == k);
                        }
                    }
                }
            }
        }
        r
    }


    /// `after` is `before` with this builder's entity stored: it is recorded
    /// at the end of the archetype of its signature (made, empty, after the
    /// others if there was none), the other archetypes are unchanged, each
    /// column of that archetype grows by the entity's
    /// component of that kind, every other record is kept, and the count of
    /// recorded entities grows by one unless the entity was recorded before.
    pub open spec fn stored(self, before: World<C>, after: World<C>) -> bool {
        let id = self.spec_id();
        let sig = signature_of(self.kinds());
        &&& after.records().contains_key(id)
        &&& after.records()[id].signature() == sig
        &&& forall|e: u64|
            e != id ==> (#[trigger] after.records().contains_key(e) == before.records().contains_key(e) && (
            before.records().contains_key(e) ==> after.records()[e] == before.records()[e]))
        &&& after.entity_count() == before.entity_count() + (if before.records().contains_key(id) {
            0int
        } else {
            1int
        })
        &&& after.signatures() == (if before.signatures().contains(sig) {
            before.signatures()
        } else {
            before.signatures().push(sig)
        })
        &&& forall|i: int|
            0 <= i < after.archetypes().len() && #[trigger] after.signatures()[i] != sig ==> after.archetypes()[i]
                == before.archetypes()[i]
        &&& forall|i: int|
            0 <= i < after.archetypes().len() && #[trigger] after.signatures()[i] == sig ==> {
                let old_entities = if i < before.archetypes().len() {
                    before.archetypes()[i].entities()
                } else {
                    Seq::<u64>::empty()
                };
                &&& after.archetypes()[i].kinds() == self.kinds().to_set()
                &&& after.archetypes()[i].entities() == old_entities.push(id)
                &&& after.records()[id].row() == old_entities.len()
                &&& forall|k: u64|
                    #[trigger] self.kinds().contains(k) ==> after.archetypes()[i].column(k) == (if i
                        < before.archetypes().len() {
                        before.archetypes()[i].column(k)
                    } else {
                        Seq::<C>::empty()
                    }).push(self.component_map()[k])
            }
    }

    /// Stores the entity in `world`, registering its kinds and making its
    /// archetype if needed; returns its identifier. The kinds must be
    /// distinct: with a kind given twice, one row would get two values in
    /// that kind's column and the columns would no longer line up.
    pub fn build(self, world: &mut World<C>) -> (id: u64)
        requires
            self.wf(),
            self.kinds().no_duplicates(),
            old(world).wf(),
        ensures
            id == self.spec_id(),
            self.stored(*old(world), *final(world)),
            final(world).wf(),
            final(world).components() == old(world).components().insert(id, self.component_map()),
            final(world).registered() == old(world).registered().union(self.kinds().to_set()),
            final(world).next_entity_id() == old(world).next_entity_id(),
    {
        let ghost b = self;
        proof {
            b.lemma_wf_facts();
        }
        let EntityBuilder { id, signature, components } = self;
        let ghost w0 = *world;
        let mut i: usize = 0;
        while i < signature.len()
            invariant
                i <= signature@.len(),
                signature@ == b.kinds(),
                world.wf(),
                world.registered() == w0.registered().union(signature@.subrange(0, i as int).to_set()),
                world.archetype_index == w0.archetype_index,
                world.entity_index == w0.entity_index,
                world.next_available_entity_id == w0.next_available_entity_id,
            decreases signature.len() - i,
        {
            world.ensure_registered(signature[i]);
            proof {
                assert(signature@.subrange(0, i + 1) =~= signature@.subrange(0, i as int).push(
                    signature@[i as int],
                ));
                lemma_push_to_set(signature@.subrange(0, i as int), signature@[i as int]);
                assert(world.registered() =~= w0.registered().union(
                    signature@.subrange(0, i + 1).to_set(),
                ));
            }
            i = i + 1;
        }
        assert(signature@.subrange(0, signature@.len() as int) =~= signature@);
        let sig = Archetype::<C>::generate_signature(&signature);
        let ghost w1 = *world;
        assert(w1.components() == w0.components()) by {
            assert(w1.components() =~= w0.components());
        }
        world.build_archetype(&sig);
        let pos = world.find_archetype(&sig).unwrap();
        let ghost w2 = *world;
        let row = world.archetype_index[pos].1.add_entity(id, components);
        let ghost w3 = *world;
        proof {
            let p = pos as int;
            assert(w3.archetype_index@.len() == w2.archetype_index@.len());
            assert forall|j: int| 0 <= j < w2.archetype_index@.len() && j != p implies #[trigger] w3.archetype_index@[j]
                == w2.archetype_index@[j] by {}
            assert(w3.wf_archetypes());
            assert forall|j: int| 0 <= j < w2.archetype_index@.len() implies {
                let a1 = #[trigger] w2.archetype_index@[j];
                let a2 = w3.archetype_index@[j];
                &&& a2.0@ == a1.0@
                &&& a2.1.kinds() == a1.1.kinds()
                &&& a1.1.entity_ids@.len() <= a2.1.entity_ids@.len()
                &&& forall|k: u64, x: int|
                    a1.1.kinds().contains(k) && 0 <= x < a1.1.entity_ids@.len() ==> #[trigger] a2.1.column(k)[x]
                        == a1.1.column(k)[x]
            } by {
                if j == p {
                    assert forall|k: u64, x: int|
                        w2.archetype_index@[j].1.kinds().contains(k) && 0 <= x
                            < w2.archetype_index@[j].1.entity_ids@.len() implies #[trigger] w3.archetype_index@[j].1.column(
                        k,
                    )[x] == w2.archetype_index@[j].1.column(k)[x] by {
                        w2.archetype_index@[j].1.lemma_column_len(k);
                    }
                }
            }
            assert forall|e: u64| #[trigger] w3.entity_index@.contains_key(e) implies w3.record_ok(
                w3.entity_index@[e],
            ) && w3.record_components(w3.entity_index@[e]) == w2.record_components(w3.entity_index@[e]) by {
                w2.lemma_record_stable(w3, w3.entity_index@[e]);
            }
            assert(w3.components() =~= w2.components());
        }
        let record = EntityRecord { archetype_signature: sig, row_index: row };
        let ghost rec = record;
        world.entity_index.insert(id, record);
        proof {
            broadcast use vstd::std_specs::hash::group_hash_axioms;
            let p = pos as int;
            w3.lemma_arch_pos(p);
            assert(world.archetype_index@[p].0@ == rec.archetype_signature@);
            assert(w3.archetype_index@[p].1.entities() == w2.archetype_index@[p].1.entities().push(id));
            assert(rec.row_index < world.archetype_index@[p].1.entity_ids@.len());
            assert(world.record_ok(rec));
            assert(world.wf());
            let a = w3.archetype_index@[p].1;
            assert(w3.record_components(rec) =~= b.component_map()) by {
                assert forall|k: u64| #[trigger] a.kinds().contains(k) implies a.column(k)[row as int]
                    == value_of(b.components@, k) by {
                    w2.archetype_index@[p].1.lemma_column_len(k);
                }
            }
            assert(world.components() =~= w3.components().insert(id, b.component_map()));
            assert(world.registered() == w0.registered().union(b.kinds().to_set()));
            // the archetypes: only the one with the entity's signature changed
            let sg = signature_of(b.kinds());
            assert(sig@ == sg);
            let n0 = w0.archetype_index@.len() as int;
            assert(w0.signatures().contains(sg) == exists|i: int|
                0 <= i < n0 && w0.archetype_index@[i].0@ == sg) by {
                if w0.signatures().contains(sg) {
                    let i = choose|i: int| 0 <= i < w0.signatures().len() && w0.signatures()[i] == sg;
                    assert(w0.archetype_index@[i].0@ == sg);
                }
                if exists|i: int| 0 <= i < n0 && w0.archetype_index@[i].0@ == sg {
                    let i = choose|i: int| 0 <= i < n0 && w0.archetype_index@[i].0@ == sg;
                    assert(w0.signatures()[i] == sg);
                }
            }
            assert(world.signatures() =~= if w0.signatures().contains(sg) {
                w0.signatures()
            } else {
                w0.signatures().push(sg)
            }) by {
                assert forall|j: int| 0 <= j < world.archetype_index@.len() implies world.archetype_index@[j].0
                    == w2.archetype_index@[j].0 by {
                    if j != p {
                        assert(w3.archetype_index@[j] == w2.archetype_index@[j]);
                    }
                }
            }
            assert forall|i: int| 0 <= i < world.archetypes().len() implies {
                &&& #[trigger] world.signatures()[i] == sg ==> world.archetypes()[i].entities() == (if i
                    < w0.archetypes().len() {
                    w0.archetypes()[i].entities()
                } else {
                    Seq::<u64>::empty()
                }).push(id)
                &&& world.signatures()[i] != sg ==> world.archetypes()[i] == w0.archetypes()[i]
            } by {
                if i != p {
                    assert(w3.archetype_index@[i] == w2.archetype_index@[i]);
                    if world.signatures()[i] == sg {
                        assert(w3.archetype_index@[i].0@ == w3.archetype_index@[p].0@);
                        w3.lemma_arch_pos(i);
                        w3.lemma_arch_pos(p);
                    }
                    assert(i < n0);
                    assert(w2.archetype_index@[i] == w0.archetype_index@[i]);
                } else {
                    assert(world.signatures()[i] == sg);
                    if i < n0 {
                        assert(w2.archetype_index@[i] == w0.archetype_index@[i]);
                    } else {
                        assert(w2.archetype_index@[i].1.entity_ids@.len() == 0);
                    }
                    assert(w3.archetype_index@[p].1.entities() == w2.archetype_index@[p].1.entities().push(id));
                }
            }
            // the record, the row and the columns of the entity's archetype
            assert(world.records() == w0.entity_index@.insert(id, rec));
            assert(rec.archetype_signature@ == sg);
            if p < n0 {
                assert(w2.archetype_index@[p] == w0.archetype_index@[p]);
            } else {
                assert(w2.archetype_index@[p].1.entity_ids@.len() == 0);
            }
            assert(w2.archetype_index@[p].1.kinds() == b.kinds().to_set());
            assert forall|k: u64| #[trigger] b.kinds().contains(k) implies world.archetypes()[p].column(k) == (if p
                < n0 {
                w0.archetypes()[p].column(k)
            } else {
                Seq::<C>::empty()
            }).push(b.component_map()[k]) by {
                assert(b.kinds().to_set().contains(k));
                w2.archetype_index@[p].1.lemma_column_len(k);
                if p >= n0 {
                    assert(w2.archetype_index@[p].1.column(k) =~= Seq::<C>::empty());
                }
            }
            assert forall|i: int| 0 <= i < world.archetypes().len() && #[trigger] world.signatures()[i] == sg implies i
                == p by {
                w3.lemma_arch_pos(i);
                w3.lemma_arch_pos(p);
            }
            if w0.entity_index@.contains_key(id) {
                assert(world.entity_index@.dom() =~= w0.entity_index@.dom());
            } else {
                assert(world.entity_index@.dom() =~= w0.entity_index@.dom().insert(id));
            }
            assert(b.stored(w0, *world));
        }
        id
    }

    /// The identifier the entity will have.
    pub fn id(&self) -> (r: u64)
        ensures
            r == self.spec_id(),
    {
        self.id
    }

    /// Whether no kind has been given twice, which `build` needs.
    pub fn kinds_are_distinct(&self) -> (r: bool)
        ensures
            r == self.kinds().no_duplicates(),
    {
        let n = self.signature.len();
        let mut i: usize = 0;
        while i < n
            invariant
                n == self.signature@.len(),
                i <= n,
                forall|a: int, b: int| 0 <= a < b < n && a < i ==> self.signature@[a] != self.signature@[b],
            decreases n - i,
        {
            let mut j: usize = i + 1;
            while j < n
                invariant
                    n == self.signature@.len(),
                    i < n,
                    i + 1 <= j <= n,
                    forall|a: int, b: int| 0 <= a < b < n && a < i ==> self.signature@[a] != self.signature@[b],
                    forall|b: int| i < b < j ==> self.signature@[i as int] != self.signature@[b],
                decreases n - j,
            {
                if self.signature[i] == self.signature[j] {
                    return false;
                }
                j = j + 1;
            }
            i = i + 1;
        }
        true
    }

    /// Whether a component of kind `kind` has been given.
    pub fn has_component(&self, kind: u64) -> (r: bool)
        ensures
            r == self.kinds().contains(kind),
    {
        let mut i: usize = 0;
        while i < self.signature.len()
            invariant
                i <= self.signature@.len(),
                forall|j: int| 0 <= j < i ==> self.signature@[j] != kind,
            decreases self.signature.len() - i,
        {
            if self.signature[i] == kind {
                return true;
            }
            i = i + 1;
        }
        false
    }
}

/// The entity store: the archetypes by signature, where each entity's
/// components are, and the kinds registered so far. The archetypes are kept
/// as a list of (signature, archetype) in the order they were made rather
/// than a hash map keyed by signature: a signature is a `Vec<u64>`, and
/// std's `HashMap` is specified here only for keys with plain equality.
pub struct World<C> {
    next_available_entity_id: EntityID,
    next_available_archtype_id: usize,
    archetype_index: Vec<(Vec<u64>, Archetype<C>)>,
    entity_index: std::collections::HashMap<EntityID, EntityRecord>,
    registry: TypeRegister,
}

impl<C> World<C> {
    /// The identifier the next spawned entity gets.
    pub closed spec fn next_entity_id(self) -> u64 {
        self.next_available_entity_id
    }

    /// The kinds registered so far.
    pub closed spec fn registered(self) -> Set<u64> {
        self.registry@
    }

    /// The signatures of the archetypes, in the order they were made.
    pub closed spec fn signatures(self) -> Seq<Seq<u64>> {
        self.archetype_index@.map_values(|p: (Vec<u64>, Archetype<C>)| p.0@)
    }

    /// The archetypes, in the order they were made.
    pub closed spec fn archetypes(self) -> Seq<Archetype<C>> {
        self.archetype_index@.map_values(|p: (Vec<u64>, Archetype<C>)| p.1)
    }

    /// The position of the archetype with signature `sig`.
    pub closed spec fn arch_pos(self, sig: Seq<u64>) -> int {
        choose|i: int| 0 <= i < self.archetype_index@.len() && self.archetype_index@[i].0@ == sig
    }

    /// The components that the record `r` points to, by kind.
    pub closed spec fn record_components(self, r: EntityRecord) -> Map<u64, C> {
        let a = self.archetype_index@[self.arch_pos(r.archetype_signature@)].1;
        Map::new(|k: u64| a.kinds().contains(k), |k: u64| a.column(k)[r.row_index as int])
    }

    /// Where each recorded entity's components are stored.
    pub closed spec fn records(self) -> Map<u64, EntityRecord> {
        self.entity_index@
    }

    /// The number of recorded entities.
    pub closed spec fn entity_count(self) -> nat {
        self.entity_index@.dom().len()
    }

    /// The components of every entity, by entity and kind.
    pub closed spec fn components(self) -> Map<u64, Map<u64, C>> {
        Map::new(
            |e: u64| self.entity_index@.contains_key(e),
            |e: u64| self.record_components(self.entity_index@[e]),
        )
    }

    /// The archetypes are well formed, in the order of their identifiers,
    /// with distinct ascending signatures of registered kinds, each naming
    /// exactly the kinds of its columns.
    pub closed spec fn wf_archetypes(self) -> bool {
        &&& self.next_available_archtype_id == self.archetype_index@.len()
        &&& forall|i: int|
            0 <= i < self.archetype_index@.len() ==> {
                let p = #[trigger] self.archetype_index@[i];
                &&& p.1.wf()
                &&& p.1.id == i
                &&& p.1.kinds() == p.0@.to_set()
                &&& p.0@.no_duplicates()
                &&& ascending(p.0@)
                &&& p.0@.to_set().subset_of(self.registry@)
            }
        &&& forall|i: int, j: int|
            0 <= i < j < self.archetype_index@.len() ==> self.archetype_index@[i].0@
                != self.archetype_index@[j].0@
    }

    /// The record `r` points to an archetype and a row it has.
    pub closed spec fn record_ok(self, r: EntityRecord) -> bool {
        exists|i: int|
            0 <= i < self.archetype_index@.len() && self.archetype_index@[i].0@
                == r.archetype_signature@ && r.row_index < self.archetype_index@[i].1.entity_ids@.len()
    }

    /// The entity stored in the row that the record `r` points to.
    pub closed spec fn row_owner(self, r: EntityRecord) -> u64 {
        self.archetype_index@[self.arch_pos(r.archetype_signature@)].1.entity_ids@[r.row_index as int]
    }

    /// The store is well formed: every record points to a row of an
    /// archetype, and that row belongs to the recorded entity.
    pub closed spec fn wf(self) -> bool {
        &&& self.wf_archetypes()
        &&& forall|e: u64| #[trigger]
            self.entity_index@.contains_key(e) ==> self.record_ok(self.entity_index@[e])
                && self.row_owner(self.entity_index@[e]) == e
    }

    proof fn lemma_arch_pos(self, i: int)
        requires
            self.wf_archetypes(),
            0 <= i < self.archetype_index@.len(),
        ensures
            self.arch_pos(self.archetype_index@[i].0@) == i,
    {
        let j = self.arch_pos(self.archetype_index@[i].0@);
        assert(0 <= j < self.archetype_index@.len() && self.archetype_index@[j].0@
            == self.archetype_index@[i].0@);
        if j < i {
            assert(self.archetype_index@[j].0@ != self.archetype_index@[i].0@);
        } else if i < j {
            assert(self.archetype_index@[i].0@ != self.archetype_index@[j].0@);
        }
    }

    /// When every archetype of `self` is still in `w2` at the same place,
    /// with the same signature and kinds and with its columns only grown,
    /// a record of `self` points to the same components in `w2`.
    proof fn lemma_record_stable(self, w2: World<C>, r: EntityRecord)
        requires
            self.wf_archetypes(),
            w2.wf_archetypes(),
            self.record_ok(r),
            self.archetype_index@.len() <= w2.archetype_index@.len(),
            forall|i: int|
                0 <= i < self.archetype_index@.len() ==> {
                    let a1 = #[trigger] self.archetype_index@[i];
                    let a2 = w2.archetype_index@[i];
                    &&& a2.0@ == a1.0@
                    &&& a2.1.kinds() == a1.1.kinds()
                    &&& a1.1.entity_ids@.len() <= a2.1.entity_ids@.len()
                    &&& forall|x: int| 0 <= x < a1.1.entity_ids@.len() ==> #[trigger] a2.1.entity_ids@[x] == a1.1.entity_ids@[x]
                    &&& forall|k: u64, x: int|
                        a1.1.kinds().contains(k) && 0 <= x < a1.1.entity_ids@.len() ==> #[trigger] a2.1.column(k)[x]
                            == a1.1.column(k)[x]
                },
        ensures
            w2.record_ok(r),
            w2.record_components(r) == self.record_components(r),
            w2.row_owner(r) == self.row_owner(r),
    {
        let i = choose|i: int|
            0 <= i < self.archetype_index@.len() && self.archetype_index@[i].0@
                == r.archetype_signature@ && r.row_index < self.archetype_index@[i].1.entity_ids@.len();
        self.lemma_arch_pos(i);
        w2.lemma_arch_pos(i);
        let a1 = self.archetype_index@[i];
        let a2 = w2.archetype_index@[i];
        assert(a2.0@ == a1.0@);
        assert(w2.record_ok(r));
        assert(w2.record_components(r) =~= self.record_components(r));
        assert(a2.1.entity_ids@[r.row_index as int] == a1.1.entity_ids@[r.row_index as int]);
    }

    /// The layout of a well-formed store: each archetype has one column
    /// per kind of its signature, every column holds one value per entity
    /// of the archetype, signatures are ascending, and no two archetypes
    /// share a signature.
    pub proof fn law_archetype_layout(self, i: int, k: u64)
        requires
            self.wf(),
            0 <= i < self.archetypes().len(),
        ensures
            self.archetypes()[i].kinds() == self.signatures()[i].to_set(),
            ascending(self.signatures()[i]),
            self.signatures()[i].no_duplicates(),
            self.archetypes()[i].kinds().contains(k) ==> self.archetypes()[i].column(k).len()
                == self.archetypes()[i].entities().len(),
            forall|j: int| 0 <= j < self.archetypes().len() && j != i ==> #[trigger] self.signatures()[j]
                != self.signatures()[i],
    {
        let p = self.archetype_index@[i];
        assert(self.archetypes()[i] == p.1);
        if p.1.kinds().contains(k) {
            p.1.lemma_column_len(k);
        }
        assert forall|j: int| 0 <= j < self.archetypes().len() && j != i implies #[trigger] self.signatures()[j]
            != self.signatures()[i] by {
            if j < i {
                assert(self.archetype_index@[j].0@ != self.archetype_index@[i].0@);
            } else {
                assert(self.archetype_index@[i].0@ != self.archetype_index@[j].0@);
            }
        }
    }

    /// The archetypes of a well-formed store are all different.
    pub proof fn lemma_archetypes_distinct(self)
        requires
            self.wf(),
        ensures
            self.archetypes().no_duplicates(),
    {
        assert forall|i: int, j: int| 0 <= i < self.archetypes().len() && 0 <= j < self.archetypes().len() && i != j
            implies self.archetypes()[i] != self.archetypes()[j] by {
            assert(self.archetypes()[i] == self.archetype_index@[i].1);
            assert(self.archetypes()[j] == self.archetype_index@[j].1);
            assert(self.archetype_index@[i].1.id == i);
            assert(self.archetype_index@[j].1.id == j);
        }
    }

    /// An empty store.
    pub fn new() -> (w: Self)
        ensures
            w.wf(),
            w.components() == Map::<u64, Map<u64, C>>::empty(),
            w.next_entity_id() == 0,
            w.registered() == Set::<u64>::empty(),
            w.archetypes() == Seq::<Archetype<C>>::empty(),
    {
        broadcast use vstd::std_specs::hash::group_hash_axioms;
        let w = World {
            next_available_entity_id: 0,
            next_available_archtype_id: 0,
            archetype_index: Vec::new(),
            entity_index: std::collections::HashMap::new(),
            registry: TypeRegister::new(),
        };
        assert(w.components() =~= Map::<u64, Map<u64, C>>::empty());
        assert(w.archetypes() =~= Seq::<Archetype<C>>::empty());
        w
    }

    /// Starts a new entity with the next free identifier.
    pub fn spawn(&mut self) -> (b: EntityBuilder<C>)
        requires
            old(self).next_entity_id() < u64::MAX,
        ensures
            b.wf(),
            b.spec_id() == old(self).next_entity_id(),
            b.kinds() == Seq::<u64>::empty(),
            b.entries() == Seq::<(u64, C)>::empty(),
            b.component_map() == Map::<u64, C>::empty(),
            final(self).next_entity_id() == old(self).next_entity_id() + 1,
            final(self).components() == old(self).components(),
            final(self).records() == old(self).records(),
            final(self).entity_count() == old(self).entity_count(),
            final(self).registered() == old(self).registered(),
            final(self).archetypes() == old(self).archetypes(),
            final(self).signatures() == old(self).signatures(),
            old(self).wf() ==> final(self).wf(),
    {
        let b = EntityBuilder {
            id: self.next_available_entity_id,
            signature: Vec::new(),
            components: Vec::new(),
        };
        self.next_available_entity_id = self.next_available_entity_id + 1;
        assert(b.component_map() =~= Map::<u64, C>::empty());
        proof {
            if old(self).wf() {
            assert forall|e: u64| #[trigger] self.entity_index@.contains_key(e) implies self.record_ok(
                self.entity_index@[e],
            ) by {
                let r = self.entity_index@[e];
                assert(old(self).record_ok(r));
                let i = choose|i: int|
                    0 <= i < old(self).archetype_index@.len() && old(self).archetype_index@[i].0@
                        == r.archetype_signature@ && r.row_index < old(
                        self,
                    ).archetype_index@[i].1.entity_ids@.len();
                assert(self.archetype_index@[i] == old(self).archetype_index@[i]);
            }
            }
        }
        b
    }


    /// The identifier the next spawned entity gets.
    pub fn next_available_entity_id(&self) -> (r: u64)
        ensures
            r == self.next_entity_id(),
    {
        self.next_available_entity_id
    }

    /// Spawns a player: an entity with a position marker and a health
    /// component; returns its identifier.
    pub fn spawn_player(&mut self, position: C, health: C) -> (id: u64)
        requires
            old(self).wf(),
            old(self).next_entity_id() < u64::MAX,
        ensures
            id == old(self).next_entity_id(),
            final(self).wf(),
            final(self).components() == old(self).components().insert(
                id,
                map![POSITION_KIND => position, HEALTH_KIND => health],
            ),
            final(self).next_entity_id() == old(self).next_entity_id() + 1,
            final(self).registered() == old(self).registered().insert(POSITION_KIND).insert(HEALTH_KIND),
    {
        let player = self.spawn().with(POSITION_KIND, position).with(HEALTH_KIND, health);
        let id = player.build(self);
        proof {
            assert(player.component_map() =~= map![POSITION_KIND => position, HEALTH_KIND => health]);
            assert(player.kinds() =~= seq![POSITION_KIND, HEALTH_KIND]);
            assert(player.kinds().to_set() =~= set![POSITION_KIND, HEALTH_KIND]) by {
                assert(player.kinds()[0] == POSITION_KIND);
                assert(player.kinds()[1] == HEALTH_KIND);
            }
            assert(final(self).registered() =~= old(self).registered().insert(POSITION_KIND).insert(HEALTH_KIND));
        }
        id
    }

    /// The archetypes that have a column of every kind in `ids`, in the
    /// order they were made.
    pub fn get_archetypes_by_ids(&self, ids: &Vec<u64>) -> (r: Vec<&Archetype<C>>)
        requires
            self.wf(),
        ensures
            r@.map_values(|a: &Archetype<C>| *a) == with_all_kinds(self.archetypes(), ids@.to_set()),
            r@.map_values(|a: &Archetype<C>| *a) == self.archetypes().filter(has_all_kinds::<C>(ids@.to_set())),
            r@.map_values(|a: &Archetype<C>| *a).no_duplicates(),
    {
        proof {
            self.lemma_archetypes_distinct();
            law_with_all_kinds_filter(self.archetypes(), ids@.to_set());
        }
        let mut r: Vec<&Archetype<C>> = Vec::new();
        let mut i: usize = 0;
        while i < self.archetype_index.len()
            invariant
                self.wf(),
                i <= self.archetype_index@.len(),
                r@.map_values(|a: &Archetype<C>| *a) == with_all_kinds(
                    self.archetypes().take(i as int),
                    ids@.to_set(),
                ),
            decreases self.archetype_index.len() - i,
        {
            let archetype = &self.archetype_index[i].1;
            let mut all = true;
            let mut j: usize = 0;
            while j < ids.len()
                invariant
                    archetype.wf(),
                    j <= ids@.len(),
                    all == (forall|x: int| 0 <= x < j ==> archetype.kinds().contains(#[trigger] ids@[x])),
                decreases ids.len() - j,
            {
                if !archetype.has_id(&ids[j]) {
                    all = false;
                }
                j = j + 1;
            }
            proof {
                assert(self.archetypes().take(i + 1).drop_last() =~= self.archetypes().take(i as int));
                assert(self.archetypes().take(i + 1).last() == *archetype);
                assert(all == ids@.to_set().subset_of(archetype.kinds())) by {
                    if all {
                        assert forall|k: u64| ids@.to_set().contains(k) implies archetype.kinds().contains(k) by {
                            let x = choose|x: int| 0 <= x < ids@.len() && ids@[x] == k;
                        }
                    } else {
                        let x = choose|x: int| 0 <= x < ids@.len() && !archetype.kinds().contains(#[trigger] ids@[x]);
                        assert(ids@.to_set().contains(ids@[x]));
                    }
                }
            }
            if all {
                r.push(archetype);
            }
            proof {
                assert(r@.map_values(|a: &Archetype<C>| *a) =~= with_all_kinds(
                    self.archetypes().take(i + 1),
                    ids@.to_set(),
                ));
            }
            i = i + 1;
        }
        assert(self.archetypes().take(self.archetype_index@.len() as int) =~= self.archetypes());
        r
    }

    /// For each archetype with both a transform and a mesh column, those two
    /// columns, in the order the archetypes were made.
    pub fn get_render_batches(&self) -> (r: Vec<(&[C], &[C])>)
        requires
            self.wf(),
        ensures
            r@.map_values(|p: (&[C], &[C])| (p.0@, p.1@)) == render_batches_of(self.archetypes()),
            r@.len() == self.archetypes().filter(has_all_kinds::<C>(set![TRANSFORM_KIND, MESH_ALLOCATION_KIND])).len(),
            forall|i: int|
                0 <= i < r@.len() ==> (#[trigger] r@[i]).0@ == self.archetypes().filter(
                    has_all_kinds::<C>(set![TRANSFORM_KIND, MESH_ALLOCATION_KIND]),
                )[i].column(TRANSFORM_KIND) && r@[i].1@ == self.archetypes().filter(
                    has_all_kinds::<C>(set![TRANSFORM_KIND, MESH_ALLOCATION_KIND]),
                )[i].column(MESH_ALLOCATION_KIND),
    {
        proof {
            law_render_batches(self.archetypes());
        }
        let mut render_batches: Vec<(&[C], &[C])> = Vec::new();
        let mut wanted: Vec<u64> = Vec::new();
        wanted.push(TRANSFORM_KIND);
        wanted.push(MESH_ALLOCATION_KIND);
        let archetypes = self.get_archetypes_by_ids(&wanted);
        let ghost targets = with_all_kinds(self.archetypes(), wanted@.to_set());
        proof {
            assert(wanted@.to_set() =~= set![TRANSFORM_KIND, MESH_ALLOCATION_KIND]) by {
                assert(wanted@[0] == TRANSFORM_KIND);
                assert(wanted@[1] == MESH_ALLOCATION_KIND);
            }
            assert forall|i: int| 0 <= i < self.archetypes().len() implies #[trigger] self.archetypes()[i].wf() by {
                assert(self.archetype_index@[i].1.wf());
            }
            lemma_with_all_kinds_wf(self.archetypes(), wanted@.to_set());
            assert(archetypes@.len() == targets.len());
        }
        let mut i: usize = 0;
        while i < archetypes.len()
            invariant
                i <= archetypes@.len(),
                archetypes@.len() == targets.len(),
                forall|x: int| 0 <= x < archetypes@.len() ==> *#[trigger] archetypes@[x] == targets[x],
                forall|x: int|
                    0 <= x < targets.len() ==> #[trigger] targets[x].wf() && set![TRANSFORM_KIND, MESH_ALLOCATION_KIND].subset_of(
                        targets[x].kinds(),
                    ),
                render_batches@.len() == i,
                forall|x: int|
                    0 <= x < i ==> (#[trigger] render_batches@[x]).0@ == targets[x].column(TRANSFORM_KIND)
                        && render_batches@[x].1@ == targets[x].column(MESH_ALLOCATION_KIND),
            decreases archetypes.len() - i,
        {
            let archetype = archetypes[i];
            proof {
                assert(*archetypes@[i as int] == targets[i as int]);
                assert(targets[i as int].wf());
                assert(set![TRANSFORM_KIND, MESH_ALLOCATION_KIND].contains(TRANSFORM_KIND));
                assert(set![TRANSFORM_KIND, MESH_ALLOCATION_KIND].contains(MESH_ALLOCATION_KIND));
            }
            let transforms = archetype.get_components_as_slice(TRANSFORM_KIND);
            let mesh_allocation = archetype.get_components_as_slice(MESH_ALLOCATION_KIND);
            render_batches.push((transforms, mesh_allocation));
            i = i + 1;
        }
        assert(render_batches@.map_values(|p: (&[C], &[C])| (p.0@, p.1@)) =~= render_batches_of(
            self.archetypes(),
        ));
        render_batches
    }

    /// The position of the archetype with signature `sig`, if there is one.
    fn find_archetype(&self, sig: &Vec<u64>) -> (r: Option<usize>)
        requires
            self.wf_archetypes(),
        ensures
            r.is_some() == exists|i: int|
                0 <= i < self.archetype_index@.len() && self.archetype_index@[i].0@ == sig@,
            r matches Some(i) ==> i < self.archetype_index@.len() && self.archetype_index@[i as int].0@
                == sig@ && self.arch_pos(sig@) == i,
    {
        let mut i: usize = 0;
        while i < self.archetype_index.len()
            invariant
                self.wf_archetypes(),
                i <= self.archetype_index@.len(),
                forall|j: int| 0 <= j < i ==> self.archetype_index@[j].0@ != sig@,
            decreases self.archetype_index.len() - i,
        {
            if same_signature(&self.archetype_index[i].0, sig) {
                proof {
                    self.lemma_arch_pos(i as int);
                }
                return Some(i);
            }
            i = i + 1;
        }
        None
    }


    /// Finds the archetype position and row of a recorded entity.
    fn locate(&self, entity: u64) -> (r: (usize, usize))
        requires
            self.wf(),
            self.components().contains_key(entity),
        ensures
            ({
                let rec = self.entity_index@[entity];
                &&& r.0 < self.archetype_index@.len()
                &&& r.0 as int == self.arch_pos(rec.archetype_signature@)
                &&& self.archetype_index@[r.0 as int].0@ == rec.archetype_signature@
                &&& r.1 == rec.row_index
                &&& r.1 < self.archetype_index@[r.0 as int].1.entity_ids@.len()
            }),
    {
        broadcast use vstd::std_specs::hash::group_hash_axioms;
        assert(self.entity_index@.contains_key(entity));
        let record = self.entity_index.get(&entity).unwrap();
        proof {
            assert(self.record_ok(*record));
        }
        let pos = self.find_archetype(&record.archetype_signature).unwrap();
        (pos, record.row_index)
    }

    /// Whether the entity `entity` is stored with a component of kind
    /// `kind`.
    pub fn has_component(&self, entity: u64, kind: u64) -> (r: bool)
        requires
            self.wf(),
        ensures
            r == (self.components().contains_key(entity) && self.components()[entity].contains_key(kind)),
    {
        broadcast use vstd::std_specs::hash::group_hash_axioms;
        if !self.entity_index.contains_key(&entity) {
            return false;
        }
        let (pos, _row) = self.locate(entity);
        self.archetype_index[pos].1.has_component(kind)
    }

    /// Where the components of the entity `entity` are stored, if it is
    /// stored: a row of an archetype, which holds that entity.
    pub fn entity_record(&self, entity: u64) -> (r: Option<&EntityRecord>)
        requires
            self.wf(),
        ensures
            r.is_some() == self.components().contains_key(entity),
            r matches Some(rec) ==> *rec == self.records()[entity],
            r matches Some(rec) ==> exists|i: int|
                0 <= i < self.archetypes().len() && #[trigger] self.signatures()[i] == rec.signature()
                    && 0 <= rec.row() < self.archetypes()[i].entities().len()
                    && self.archetypes()[i].entities()[rec.row()] == entity,
    {
        broadcast use vstd::std_specs::hash::group_hash_axioms;
        let r = self.entity_index.get(&entity);
        proof {
            if self.entity_index@.contains_key(entity) {
                let rec = self.entity_index@[entity];
                assert(self.record_ok(rec));
                let i = choose|i: int|
                    0 <= i < self.archetype_index@.len() && self.archetype_index@[i].0@
                        == rec.archetype_signature@ && rec.row_index < self.archetype_index@[i].1.entity_ids@.len();
                self.lemma_arch_pos(i);
                assert(self.signatures()[i] == rec.signature());
                assert(self.row_owner(rec) == entity);
            }
        }
        r
    }

    /// The component of kind `kind` of the entity `entity`.
    pub fn get_component(&self, entity: u64, kind: u64) -> (r: &C)
        requires
            self.wf(),
            self.components().contains_key(entity),
            self.components()[entity].contains_key(kind),
        ensures
            *r == self.components()[entity][kind],
    {
        let (pos, row) = self.locate(entity);
        let archetype = &self.archetype_index[pos].1;
        let col = archetype.find_column(kind).unwrap();
        proof {
            archetype.lemma_column_len(kind);
        }
        &archetype.columns[col].1[row]
    }


    /// `w1` is `w0` with the value in row `row` of column `col` of the
    /// archetype at `pos` replaced by `v`.
    spec fn cell_updated(w0: World<C>, w1: World<C>, pos: int, col: int, row: int, v: C) -> bool {
        &&& w1.next_available_entity_id == w0.next_available_entity_id
        &&& w1.next_available_archtype_id == w0.next_available_archtype_id
        &&& w1.entity_index == w0.entity_index
        &&& w1.registry == w0.registry
        &&& w1.archetype_index@.len() == w0.archetype_index@.len()
        &&& forall|j: int|
            0 <= j < w0.archetype_index@.len() && j != pos ==> #[trigger] w1.archetype_index@[j]
                == w0.archetype_index@[j]
        &&& w1.archetype_index@[pos].0 == w0.archetype_index@[pos].0
        &&& w1.archetype_index@[pos].1.id == w0.archetype_index@[pos].1.id
        &&& w1.archetype_index@[pos].1.entity_ids == w0.archetype_index@[pos].1.entity_ids
        &&& w1.archetype_index@[pos].1.columns@.len() == w0.archetype_index@[pos].1.columns@.len()
        &&& forall|j: int|
            0 <= j < w0.archetype_index@[pos].1.columns@.len() && j != col
                ==> #[trigger] w1.archetype_index@[pos].1.columns@[j]
                == w0.archetype_index@[pos].1.columns@[j]
        &&& w1.archetype_index@[pos].1.columns@[col].0 == w0.archetype_index@[pos].1.columns@[col].0
        &&& w1.archetype_index@[pos].1.columns@[col].1@ == w0.archetype_index@[pos].1.columns@[col].1@.update(row, v)
    }

    /// The cell in row `row` of column `col` of the archetype at `pos`.
    fn cell_mut(&mut self, pos: usize, col: usize, row: usize) -> (r: &mut C)
        requires
            pos < old(self).archetype_index@.len(),
            col < old(self).archetype_index@[pos as int].1.columns@.len(),
            row < old(self).archetype_index@[pos as int].1.columns@[col as int].1@.len(),
        ensures
            *r == old(self).archetype_index@[pos as int].1.columns@[col as int].1@[row as int],
            Self::cell_updated(*old(self), *final(self), pos as int, col as int, row as int, *final(r)),
    {
        &mut self.archetype_index[pos].1.columns[col].1[row]
    }

    proof fn lemma_cell_updated(w0: World<C>, pos: int, col: int, row: int, entity: u64, kind: u64)
        requires
            w0.wf(),
            w0.components().contains_key(entity),
            w0.components()[entity].contains_key(kind),
            pos == w0.arch_pos(w0.entity_index@[entity].archetype_signature@),
            0 <= pos < w0.archetype_index@.len(),
            w0.archetype_index@[pos].0@ == w0.entity_index@[entity].archetype_signature@,
            row == w0.entity_index@[entity].row_index,
            0 <= col < w0.archetype_index@[pos].1.columns@.len(),
            w0.archetype_index@[pos].1.columns@[col].0 == kind,
            row < w0.archetype_index@[pos].1.entity_ids@.len(),
        ensures
            forall|w1: World<C>, v: C|
                #[trigger] Self::cell_updated(w0, w1, pos, col, row, v) ==> {
                    &&& w1.wf()
                    &&& w1.components() == w0.components().insert(
                        entity,
                        w0.components()[entity].insert(kind, v),
                    )
                    &&& w1.registered() == w0.registered()
                    &&& w1.next_entity_id() == w0.next_entity_id()
                },
    {
        assert forall|w1: World<C>, v: C| #[trigger] Self::cell_updated(w0, w1, pos, col, row, v) implies {
            &&& w1.wf()
            &&& w1.components() == w0.components().insert(entity, w0.components()[entity].insert(kind, v))
            &&& w1.registered() == w0.registered()
            &&& w1.next_entity_id() == w0.next_entity_id()
        } by {
            let a0 = w0.archetype_index@[pos].1;
            let a1 = w1.archetype_index@[pos].1;
            lemma_slot_of(a0.columns@, col);
            assert(a1.kinds() =~= a0.kinds()) by {
                assert forall|k: u64| a1.kinds().contains(k) implies a0.kinds().contains(k) by {
                    let x = choose|x: int| 0 <= x < a1.columns@.len() && a1.columns@[x].0 == k;
                    assert(a0.columns@[x].0 == k);
                }
                assert forall|k: u64| a0.kinds().contains(k) implies a1.kinds().contains(k) by {
                    let x = choose|x: int| 0 <= x < a0.columns@.len() && a0.columns@[x].0 == k;
                    assert(a1.columns@[x].0 == k);
                }
            }
            assert(a1.wf()) by {
                assert forall|i: int, j: int| 0 <= i < j < a1.columns@.len() implies a1.columns@[i].0
                    != a1.columns@[j].0 by {
                    assert(a0.columns@[i].0 != a0.columns@[j].0);
                }
                assert forall|i: int| 0 <= i < a1.columns@.len() implies #[trigger] a1.columns@[i].1@.len()
                    == a1.entity_ids@.len() by {
                    assert(a0.columns@[i].1@.len() == a0.entity_ids@.len());
                }
            }
            assert(w1.wf_archetypes()) by {
                assert forall|i: int, j: int| 0 <= i < j < w1.archetype_index@.len() implies w1.archetype_index@[i].0@
                    != w1.archetype_index@[j].0@ by {
                    assert(w0.archetype_index@[i].0@ != w0.archetype_index@[j].0@);
                }
            }
            assert forall|i: int| 0 <= i < w0.archetype_index@.len() implies w1.arch_pos(
                #[trigger] w0.archetype_index@[i].0@,
            ) == i by {
                w1.lemma_arch_pos(i);
            }
            assert forall|e: u64| #[trigger] w1.entity_index@.contains_key(e) implies w1.record_ok(
                w1.entity_index@[e],
            ) && w1.row_owner(w1.entity_index@[e]) == e && (e != entity ==> w1.record_components(w1.entity_index@[e]) == w0.record_components(
                w0.entity_index@[e],
            )) by {
                let r = w0.entity_index@[e];
                let i = choose|i: int|
                    0 <= i < w0.archetype_index@.len() && w0.archetype_index@[i].0@
                        == r.archetype_signature@ && r.row_index < w0.archetype_index@[i].1.entity_ids@.len();
                w0.lemma_arch_pos(i);
                w1.lemma_arch_pos(i);
                assert(w1.archetype_index@[i].0@ == w0.archetype_index@[i].0@);
                assert(w1.record_ok(r));
                if e != entity {
                    if i == pos {
                        assert forall|k: u64| a0.kinds().contains(k) implies #[trigger] a1.column(k)[r.row_index as int]
                            == a0.column(k)[r.row_index as int] by {
                            let x = slot_of(a0.columns@, k);
                            let y = choose|y: int| 0 <= y < a0.columns@.len() && a0.columns@[y].0 == k;
                            lemma_slot_of(a0.columns@, y);
                            lemma_slot_of(a1.columns@, y);
                            assert(a1.columns@[y].0 == k);
                            if y == col {
                                // the row of `e` belongs to `e`, the updated row to `entity`
                                assert(w0.row_owner(r) == e);
                                assert(w0.row_owner(w0.entity_index@[entity]) == entity);
                                assert(r.row_index != row);
                            }
                        }
                    }
                    assert(w1.record_components(r) =~= w0.record_components(r));
                }
            }
            let re = w0.entity_index@[entity];
            assert(w1.record_components(re) =~= w0.record_components(re).insert(kind, v)) by {
                assert forall|k: u64| a0.kinds().contains(k) implies #[trigger] a1.column(k)[row]
                    == w0.record_components(re).insert(kind, v)[k] by {
                    let y = choose|y: int| 0 <= y < a0.columns@.len() && a0.columns@[y].0 == k;
                    lemma_slot_of(a0.columns@, y);
                    lemma_slot_of(a1.columns@, y);
                    assert(a1.columns@[y].0 == k);
                }
            }
            assert(w1.components() =~= w0.components().insert(entity, w0.components()[entity].insert(kind, v)));
        }
    }

    /// The component of kind `kind` of the entity `entity`, to change in
    /// place; no other component changes.
    pub fn get_component_as_mut(&mut self, entity: u64, kind: u64) -> (r: &mut C)
        requires
            old(self).wf(),
            old(self).components().contains_key(entity),
            old(self).components()[entity].contains_key(kind),
        ensures
            *r == old(self).components()[entity][kind],
            final(self).wf(),
            final(self).components() == old(self).components().insert(
                entity,
                old(self).components()[entity].insert(kind, *final(r)),
            ),
            final(self).registered() == old(self).registered(),
            final(self).next_entity_id() == old(self).next_entity_id(),
    {
        let (pos, row) = self.locate(entity);
        let col = self.archetype_index[pos].1.find_column(kind).unwrap();
        proof {
            self.archetype_index@[pos as int].1.lemma_column_len(kind);
            Self::lemma_cell_updated(*self, pos as int, col as int, row as int, entity, kind);
        }
        self.cell_mut(pos, col, row)
    }

    /// Registers the kind `kind` if it is not registered yet.
    fn ensure_registered(&mut self, kind: u64)
        requires
            old(self).wf(),
        ensures
            final(self).wf(),
            final(self).registered() == old(self).registered().insert(kind),
            final(self).archetype_index == old(self).archetype_index,
            final(self).entity_index == old(self).entity_index,
            final(self).next_available_entity_id == old(self).next_available_entity_id,
    {
        if !self.registry.contains(kind) {
            self.registry.register(kind);
        } else {
            assert(old(self).registered().insert(kind) =~= old(self).registered());
        }
        assert forall|e: u64| #[trigger] self.entity_index@.contains_key(e) implies self.record_ok(
            self.entity_index@[e],
        ) by {
            let r = self.entity_index@[e];
            assert(old(self).record_ok(r));
            let i = choose|i: int|
                0 <= i < old(self).archetype_index@.len() && old(self).archetype_index@[i].0@
                    == r.archetype_signature@ && r.row_index < old(self).archetype_index@[i].1.entity_ids@.len();
            assert(self.archetype_index@[i] == old(self).archetype_index@[i]);
        }
    }

    /// Makes an empty archetype with signature `signature` unless there is
    /// one already.
    fn build_archetype(&mut self, signature: &Vec<u64>)
        requires
            old(self).wf(),
            signature@.no_duplicates(),
            ascending(signature@),
            signature@.to_set().subset_of(old(self).registered()),
        ensures
            final(self).wf(),
            final(self).components() == old(self).components(),
            final(self).registered() == old(self).registered(),
            final(self).next_available_entity_id == old(self).next_available_entity_id,
            final(self).entity_index == old(self).entity_index,
            final(self).archetype_index@.len() >= old(self).archetype_index@.len(),
            forall|i: int|
                0 <= i < old(self).archetype_index@.len() ==> #[trigger] final(self).archetype_index@[i]
                    == old(self).archetype_index@[i],
            exists|i: int|
                0 <= i < final(self).archetype_index@.len() && final(self).archetype_index@[i].0@
                    == signature@,
            (exists|i: int|
                0 <= i < old(self).archetype_index@.len() && old(self).archetype_index@[i].0@
                    == signature@) ==> final(self).archetype_index@.len() == old(self).archetype_index@.len(),
            !(exists|i: int|
                0 <= i < old(self).archetype_index@.len() && old(self).archetype_index@[i].0@
                    == signature@) ==> {
                &&& final(self).archetype_index@.len() == old(self).archetype_index@.len() + 1
                &&& final(self).archetype_index@[old(self).archetype_index@.len() as int].0@ == signature@
                &&& final(self).archetype_index@[old(self).archetype_index@.len() as int].1.entity_ids@.len() == 0
            },
    {
        match self.find_archetype(signature) {
            Some(_) => {},
            None => {
                let new_archetype = Archetype::new(
                    self.next_available_archtype_id,
                    signature.clone(),
                    &self.registry,
                );
                let ghost old_world = *self;
                self.archetype_index.push((signature.clone(), new_archetype));
                // the next identifier is one past the one just used
                self.next_available_archtype_id = self.archetype_index.len();
                proof {
                    let n = old_world.archetype_index@.len() as int;
                    assert(self.archetype_index@[n].0@ == signature@);
                    assert(signature@.to_set().intersect(self.registry@) =~= signature@.to_set());
                    assert(self.wf_archetypes());
                    assert forall|e: u64| #[trigger] self.entity_index@.contains_key(e) implies self.record_ok(
                        self.entity_index@[e],
                    ) && self.record_components(self.entity_index@[e]) == old_world.record_components(
                        self.entity_index@[e],
                    ) by {
                        old_world.lemma_record_stable(*self, self.entity_index@[e]);
                    }
                    assert(self.components() =~= old_world.components());
                }
            },
        }
    }
}

impl<C> Default for World<C> {
    /// An empty store.
    fn default() -> (w: Self)
        ensures
            w.wf(),
            w.components() == Map::<u64, Map<u64, C>>::empty(),
            w.next_entity_id() == 0,
            w.registered() == Set::<u64>::empty(),
            w.archetypes() == Seq::<Archetype<C>>::empty(),
    {
        World::new()
    }
}

/// The set of component kinds that have been registered.
pub struct TypeRegister {
    column_creators: std::collections::HashSet<u64>,
}

impl View for TypeRegister {
    type V = Set<u64>;

    closed spec fn view(&self) -> Set<u64> {
        self.column_creators@
    }
}

impl Default for TypeRegister {
    /// A register with no kind in it.
    fn default() -> (r: Self)
        ensures
            r@ == Set::<u64>::empty(),
    {
        TypeRegister::new()
    }
}

impl TypeRegister {
    /// A register with no kind in it.
    pub fn new() -> (r: Self)
        ensures
            r@ == Set::<u64>::empty(),
    {
        TypeRegister { column_creators: std::collections::HashSet::new() }
    }

    /// Registers the kind `kind`.
    pub fn register(&mut self, kind: u64)
        ensures
            final(self)@ == old(self)@.insert(kind),
    {
        broadcast use vstd::std_specs::hash::group_hash_axioms;
        self.column_creators.insert(kind);
    }

    /// Whether the kind `kind` has been registered.
    pub fn contains(&self, kind: u64) -> (r: bool)
        ensures
            r == self@.contains(kind),
    {
        broadcast use vstd::std_specs::hash::group_hash_axioms;
        self.column_creators.contains(&kind)
    }
}

} // verus!
