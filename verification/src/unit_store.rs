use vstd::prelude::*;

use crate::unit::Unit;
use crate::unit::UnitView;

verus! {

/// The name that the root record always carries.
pub open spec fn root_name() -> Seq<char> {
    "Root"@
}

/// True when some unit in `s` carries identifier `id`.
pub open spec fn has_id(s: Seq<UnitView>, id: u64) -> bool {
    exists|i: int| 0 <= i < s.len() && s[i].id == id
}

/// The position of the unit carrying `id`; meaningful when `has_id`
/// holds, and unique under `store_inv`.
pub open spec fn idx_of(s: Seq<UnitView>, id: u64) -> int {
    choose|i: int| 0 <= i < s.len() && s[i].id == id
}

/// The registry invariant over its contents and its id counter: the
/// root record sits first, identifiers strictly increase along the
/// sequence, and every identifier lies strictly below the counter.
pub open spec fn store_inv(s: Seq<UnitView>, next_id: u64) -> bool {
    &&& s.len() >= 1
    &&& s[0].id == 0
    &&& s[0].name == root_name()
    &&& forall|i: int, j: int|
        0 <= i < j < s.len() ==> #[trigger] s[i].id < #[trigger] s[j].id
    &&& forall|i: int| 0 <= i < s.len() ==> #[trigger] s[i].id < next_id
}

/// An ordered registry of [`Unit`] records. It always contains a root
/// record with identifier 0, issues strictly increasing identifiers,
/// and never reuses an identifier once handed out (except across a
/// [`UnitStore::clear`], which restores the just-created state).
#[derive(Debug, Clone)]
pub struct UnitStore {
    units: Vec<Unit>,
    next_id: u64,
}

impl View for UnitStore {
    type V = Seq<UnitView>;

    closed spec fn view(&self) -> Seq<UnitView> {
        self.units@.map_values(|u: Unit| u@)
    }
}

/// Two positions carrying the same identifier coincide: identifiers
/// are unique in a well-formed registry.
pub proof fn lemma_id_unique(s: Seq<UnitView>, next_id: u64, i: int, j: int)
    requires
        store_inv(s, next_id),
        0 <= i < s.len(),
        0 <= j < s.len(),
        s[i].id == s[j].id,
    ensures
        i == j,
{
    if i < j {
        assert(s[i].id < s[j].id);
    }
    if j < i {
        assert(s[j].id < s[i].id);
    }
}

impl UnitStore {
    /// The identifier the registry will assign to the unit added next.
    pub closed spec fn spec_next_id(&self) -> u64 {
        self.next_id
    }

    /// The registry's invariant; established by [`UnitStore::new`] and
    /// preserved by every operation (for [`UnitStore::get_unit_mut`],
    /// provided the caller only renames the borrowed unit).
    pub open spec fn wf(&self) -> bool {
        store_inv(self@, self.spec_next_id())
    }

    /// Returns a registry holding exactly the root record (identifier
    /// 0, name "Root"), with 1 as the next identifier to issue.
    pub fn new() -> (store: UnitStore)
        ensures
            store.wf(),
            store@ == seq![UnitView { id: 0, name: root_name() }],
            store.spec_next_id() == 1,
    {
        let mut units: Vec<Unit> = Vec::new();
        units.push(Unit::new(0, "Root"));
        let store = UnitStore { units, next_id: 1 };
        proof {
            assert(store@ =~= seq![UnitView { id: 0, name: root_name() }]);
        }
        store
    }

    /// The identifier that the next `add_unit` call will return.
    pub fn next_id(&self) -> (id: u64)
        ensures
            id == self.spec_next_id(),
    {
        self.next_id
    }

    /// Appends a new unit carrying the next identifier and the given
    /// name, and returns that identifier. Always succeeds; names are
    /// not validated.
    pub fn add_unit(&mut self, name: &str) -> (id: u64)
        requires
            old(self).wf(),
            old(self).spec_next_id() < u64::MAX,
        ensures
            final(self).wf(),
            id == old(self).spec_next_id(),
            final(self)@ == old(self)@.push(UnitView { id, name: name@ }),
            final(self).spec_next_id() == id + 1,
    {
        let id = self.next_id;
        self.units.push(Unit::new(id, name));
        self.next_id = self.next_id + 1;
        proof {
            assert(self@ =~= old(self)@.push(UnitView { id, name: name@ }));
        }
        id
    }

    /// Linear search by identifier; returns the matching record, or
    /// `None` when no unit carries `id`. Side-effect-free.
    pub fn get_unit(&self, id: u64) -> (found: Option<&Unit>)
        requires
            self.wf(),
        ensures
            found.is_some() == has_id(self@, id),
            found matches Some(unit) ==> {
                &&& 0 <= idx_of(self@, id) < self@.len()
                &&& unit@ == self@[idx_of(self@, id)]
                &&& unit@.id == id
            },
    {
        let n = self.units.len();
        let mut i: usize = 0;
        while i < n
            invariant
                self.wf(),
                n == self@.len(),
                0 <= i <= n,
                forall|k: int| 0 <= k < i ==> #[trigger] self@[k].id != id,
            decreases n - i,
        {
            if self.units[i].id() == id {
                proof {
                    assert(has_id(self@, id)) by {
                        assert(self@[i as int].id == id);
                    }
                    lemma_id_unique(self@, self.spec_next_id(), i as int, idx_of(self@, id));
                }
                return Some(&self.units[i]);
            }
            i = i + 1;
        }
        None
    }

    /// Linear search by identifier, granting permission to mutate the
    /// found unit's name; used for in-place rename. The registry stays
    /// well-formed as long as the caller leaves the identifier (and,
    /// for the root record, the name) as found.
    pub fn get_unit_mut(&mut self, id: u64) -> (found: Option<&mut Unit>)
        requires
            old(self).wf(),
        ensures
            found.is_some() == has_id(old(self)@, id),
            found.is_none() ==> *final(self) == *old(self),
            found.is_some() ==> {
                &&& 0 <= idx_of(old(self)@, id) < old(self)@.len()
                &&& (*found.unwrap())@ == old(self)@[idx_of(old(self)@, id)]
                &&& (*found.unwrap())@.id == id
                &&& final(self)@ == old(self)@.update(
                    idx_of(old(self)@, id),
                    final(found.unwrap())@,
                )
                &&& final(self).spec_next_id() == old(self).spec_next_id()
                &&& (final(found.unwrap())@.id == id && (id != 0
                    || final(found.unwrap())@.name == root_name()) ==> final(self).wf())
            },
    {
        let n = self.units.len();
        let mut i: usize = 0;
        while i < n
            invariant
                *self == *old(self),
                self.wf(),
                n == self@.len(),
                0 <= i <= n,
                forall|k: int| 0 <= k < i ==> #[trigger] self@[k].id != id,
            decreases n - i,
        {
            if self.units[i].id() == id {
                proof {
                    assert(has_id(self@, id)) by {
                        assert(self@[i as int].id == id);
                    }
                    lemma_id_unique(self@, self.spec_next_id(), i as int, idx_of(self@, id));
                    lemma_update_keeps_inv(self@, self.spec_next_id(), i as int);
                }
                return Some(&mut self.units[i]);
            }
            i = i + 1;
        }
        None
    }

    /// Read-only view of every unit, root included, in insertion
    /// order. Callers wishing to exclude the root skip the first
    /// element.
    pub fn get_all_units(&self) -> (units: &Vec<Unit>)
        ensures
            units@.len() == self@.len(),
            forall|i: int| 0 <= i < self@.len() ==> (#[trigger] units@[i])@ == self@[i],
    {
        &self.units
    }

    /// Removes the unit carrying `id` and reports whether one was
    /// removed. Refuses the root (`id == 0`) and absent identifiers,
    /// leaving the registry untouched on those paths. The remaining
    /// units and the id counter are unaffected, so a removed
    /// identifier is never issued again.
    pub fn remove_unit(&mut self, id: u64) -> (removed: bool)
        requires
            old(self).wf(),
        ensures
            final(self).wf(),
            removed == (id != 0 && has_id(old(self)@, id)),
            removed ==> final(self)@ == old(self)@.remove(idx_of(old(self)@, id)),
            !removed ==> *final(self) == *old(self),
            final(self).spec_next_id() == old(self).spec_next_id(),
            id != 0 ==> !has_id(final(self)@, id),
    {
        if id == 0 {
            return false;
        }
        let n = self.units.len();
        let mut i: usize = 0;
        while i < n
            invariant
                id != 0,
                *self == *old(self),
                self.wf(),
                n == self@.len(),
                0 <= i <= n,
                forall|k: int| 0 <= k < i ==> #[trigger] self@[k].id != id,
            decreases n - i,
        {
            if self.units[i].id() == id {
                proof {
                    assert(has_id(self@, id)) by {
                        assert(self@[i as int].id == id);
                    }
                    lemma_id_unique(self@, self.spec_next_id(), i as int, idx_of(self@, id));
                }
                let ghost pre = self@;
                proof {
                    assert(i as int != 0) by {
                        assert(self@[i as int].id == id);
                        assert(self@[0].id == 0);
                    }
                }
                self.units.remove(i);
                proof {
                    assert(self@ =~= pre.remove(i as int));
                    lemma_remove_keeps_inv(pre, self.spec_next_id(), i as int);
                    assert forall|k: int| 0 <= k < self@.len() implies #[trigger] self@[k].id
                        != id by {
                        let pk: int = if k < i { k } else { k + 1 };
                        assert(self@[k] == pre[pk]);
                        if pre[pk].id == id {
                            lemma_id_unique(pre, self.spec_next_id(), pk, i as int);
                        }
                    }
                }
                return true;
            }
            i = i + 1;
        }
        false
    }

    /// Returns the root record, which always sits first.
    pub fn root_unit(&self) -> (root: &Unit)
        requires
            self.wf(),
        ensures
            root@ == self@[0],
            root@.id == 0,
            root@.name == root_name(),
    {
        &self.units[0]
    }

    /// The number of non-root units. The root is always present, so
    /// this never underflows.
    pub fn count(&self) -> (n: usize)
        requires
            self.wf(),
        ensures
            n == self@.len() - 1,
    {
        self.units.len() - 1
    }

    /// True only if the underlying sequence itself is empty — which
    /// the public contract never allows; this exists defensively.
    pub fn is_empty(&self) -> (empty: bool)
        ensures
            empty == (self@.len() == 0),
    {
        self.units.len() == 0
    }

    /// Discards all units, reinserts the root and resets the id
    /// counter: restores the just-created state.
    pub fn clear(&mut self)
        ensures
            final(self).wf(),
            final(self)@ == seq![UnitView { id: 0, name: root_name() }],
            final(self).spec_next_id() == 1,
    {
        self.units.clear();
        self.units.push(Unit::new(0, "Root"));
        self.next_id = 1;
        proof {
            assert(self@ =~= seq![UnitView { id: 0, name: root_name() }]);
        }
    }
}

impl Default for UnitStore {
    /// Same as [`UnitStore::new`].
    fn default() -> (store: Self)
        ensures
            store.wf(),
            store@ == seq![UnitView { id: 0, name: root_name() }],
            store.spec_next_id() == 1,
    {
        UnitStore::new()
    }
}

/// Every identifier present in a well-formed registry lies strictly
/// below the id counter. Since `add_unit` returns the counter's value
/// and raises it past the returned id, ids are issued in strictly
/// increasing order — and an id present or ever removed is never
/// issued again.
pub proof fn lemma_present_ids_below_next(s: Seq<UnitView>, next_id: u64, id: u64)
    requires
        store_inv(s, next_id),
        has_id(s, id),
    ensures
        id < next_id,
{
    let i = choose|i: int| 0 <= i < s.len() && s[i].id == id;
    assert(s[i].id < next_id);
}

/// Looking up the id that an `add_unit` call just returned finds the
/// record that call appended, carrying the name that was passed.
pub proof fn lemma_lookup_after_add(s: Seq<UnitView>, next_id: u64, name: Seq<char>)
    requires
        store_inv(s, next_id),
    ensures
        ({
            let s2 = s.push(UnitView { id: next_id, name });
            &&& has_id(s2, next_id)
            &&& idx_of(s2, next_id) == s.len()
            &&& s2[idx_of(s2, next_id)].name == name
        }),
{
    let s2 = s.push(UnitView { id: next_id, name });
    assert(s2[s.len() as int].id == next_id);
    let i = idx_of(s2, next_id);
    assert(0 <= i < s2.len() && s2[i].id == next_id);
    if i < s.len() {
        assert(s[i].id < next_id);
    }
}

/// Removing the unit carrying `id` leaves every other identifier
/// present exactly as before, and lookups of those identifiers yield
/// the very same records.
pub proof fn lemma_remove_preserves_other_ids(s: Seq<UnitView>, next_id: u64, id: u64, other: u64)
    requires
        store_inv(s, next_id),
        has_id(s, id),
        other != id,
    ensures
        ({
            let s2 = s.remove(idx_of(s, id));
            &&& has_id(s2, other) == has_id(s, other)
            &&& (has_id(s, other) ==> s2[idx_of(s2, other)] == s[idx_of(s, other)])
        }),
{
    let i = idx_of(s, id);
    assert(0 <= i < s.len() && s[i].id == id);
    let s2 = s.remove(i);
    if has_id(s, other) {
        let j = idx_of(s, other);
        assert(0 <= j < s.len() && s[j].id == other);
        let j2: int = if j < i { j } else { j - 1 };
        assert(s2[j2] == s[j]);
        assert(has_id(s2, other)) by {
            assert(s2[j2].id == other);
        }
        let k2 = idx_of(s2, other);
        assert(0 <= k2 < s2.len() && s2[k2].id == other);
        let k: int = if k2 < i { k2 } else { k2 + 1 };
        assert(s2[k2] == s[k]);
        lemma_id_unique(s, next_id, j, k);
    }
    if has_id(s2, other) {
        let j2 = idx_of(s2, other);
        assert(0 <= j2 < s2.len() && s2[j2].id == other);
        let j: int = if j2 < i { j2 } else { j2 + 1 };
        assert(s2[j2] == s[j]);
        assert(has_id(s, other)) by {
            assert(s[j].id == other);
        }
    }
}

/// Renaming the unit carrying `id` — replacing the record found by
/// lookup with one carrying the same id and a new name — is visible to
/// a subsequent lookup of the same id, and every other record stays as
/// it was.
pub proof fn lemma_rename_visible(s: Seq<UnitView>, next_id: u64, id: u64, name: Seq<char>)
    requires
        store_inv(s, next_id),
        has_id(s, id),
    ensures
        ({
            let s2 = s.update(idx_of(s, id), UnitView { id, name });
            &&& has_id(s2, id)
            &&& idx_of(s2, id) == idx_of(s, id)
            &&& s2[idx_of(s2, id)].name == name
        }),
{
    let i = idx_of(s, id);
    assert(0 <= i < s.len() && s[i].id == id);
    let s2 = s.update(i, UnitView { id, name });
    assert(has_id(s2, id)) by {
        assert(s2[i].id == id);
    }
    let j = idx_of(s2, id);
    assert(0 <= j < s2.len() && s2[j].id == id);
    if j != i {
        assert(s2[j] == s[j]);
        lemma_id_unique(s, next_id, j, i);
    }
}

/// Replacing the record at a position with one carrying the same
/// identifier (and, at the root position, the root name) preserves the
/// registry invariant.
proof fn lemma_update_keeps_inv(s: Seq<UnitView>, next_id: u64, i: int)
    requires
        store_inv(s, next_id),
        0 <= i < s.len(),
    ensures
        forall|v: UnitView|
            v.id == s[i].id && (i == 0 ==> v.name == root_name()) ==> store_inv(
                #[trigger] s.update(i, v),
                next_id,
            ),
{
    assert forall|v: UnitView|
        v.id == s[i].id && (i == 0 ==> v.name == root_name()) implies store_inv(
        #[trigger] s.update(i, v),
        next_id,
    ) by {
        let s2 = s.update(i, v);
        assert(forall|k: int| 0 <= k < s2.len() ==> #[trigger] s2[k].id == s[k].id);
        assert(s2[0].name == s[0].name || i == 0);
    }
}

/// Removing a position preserves the registry invariant, provided the
/// root position stays.
proof fn lemma_remove_keeps_inv(s: Seq<UnitView>, next_id: u64, i: int)
    requires
        store_inv(s, next_id),
        0 < i < s.len(),
    ensures
        store_inv(s.remove(i), next_id),
{
    let s2 = s.remove(i);
    assert forall|p: int, q: int| 0 <= p < q < s2.len() implies #[trigger] s2[p].id
        < #[trigger] s2[q].id by {
        let sp = if p < i { p } else { p + 1 };
        let sq = if q < i { q } else { q + 1 };
        assert(s2[p] == s[sp]);
        assert(s2[q] == s[sq]);
    }
    assert forall|p: int| 0 <= p < s2.len() implies #[trigger] s2[p].id < next_id by {
        let sp = if p < i { p } else { p + 1 };
        assert(s2[p] == s[sp]);
    }
}

} // verus!
