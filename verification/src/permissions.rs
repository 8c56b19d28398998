//! Per-module capability sets with a default-deny policy: a module with no
//! entry holds the empty capability set. Grants are idempotent unions,
//! revocations idempotent removals.

use vstd::prelude::*;
use crate::text::str_eq;

verus! {

broadcast use vstd::seq_lib::group_seq_properties;

/// A capability a module may hold. Absence of a capability means denial.
#[derive(Clone, Copy, Debug, PartialEq, Eq, Hash, Structural)]
pub enum Permission {
    SendIpc,
    RunSandbox,
    AccessMemory,
    AccessVision,
    AccessAudio,
    SystemCall,
    Admin,
}

/// The capability set of one module id.
struct PermEntry {
    id: String,
    granted: Vec<Permission>,
}

/// Holds per-module capability sets and answers allow/deny queries.
/// Modelled as a map from module id to its capability set.
pub struct PermissionManager {
    entries: Vec<PermEntry>,
}

/// The capability map that a sequence of entries denotes, later entries
/// overriding earlier ones with the same id.
spec fn pm_map(s: Seq<PermEntry>) -> Map<Seq<char>, Set<Permission>>
    decreases s.len(),
{
    if s.len() == 0 {
        Map::empty()
    } else {
        pm_map(s.drop_last()).insert(s.last().id@, s.last().granted@.to_set())
    }
}

impl View for PermissionManager {
    type V = Map<Seq<char>, Set<Permission>>;

    closed spec fn view(&self) -> Map<Seq<char>, Set<Permission>> {
        pm_map(self.entries@)
    }
}

/// The id `k` is allowed `p` by the capability map `m`: default-deny.
pub open spec fn spec_allowed(m: Map<Seq<char>, Set<Permission>>, k: Seq<char>, p: Permission) -> bool {
    m.contains_key(k) && m[k].contains(p)
}

/// The capability map after granting `p` to `k`.
pub open spec fn spec_grant(
    m: Map<Seq<char>, Set<Permission>>,
    k: Seq<char>,
    p: Permission,
) -> Map<Seq<char>, Set<Permission>> {
    m.insert(
        k,
        (if m.contains_key(k) {
            m[k]
        } else {
            Set::empty()
        }).insert(p),
    )
}

/// The capability map after revoking `p` from `k`.
pub open spec fn spec_revoke(
    m: Map<Seq<char>, Set<Permission>>,
    k: Seq<char>,
    p: Permission,
) -> Map<Seq<char>, Set<Permission>> {
    if m.contains_key(k) {
        m.insert(k, m[k].remove(p))
    } else {
        m
    }
}

/// Entry ids are pairwise distinct, so each id denotes one capability set.
spec fn unique_ids(s: Seq<PermEntry>) -> bool {
    forall|i: int, j: int| 0 <= i < j < s.len() ==> s[i].id@ != s[j].id@
}

/// With pairwise-distinct ids, the denoted map holds exactly the entries'
/// ids, each bound to its own granted set.
proof fn lemma_pm_map(s: Seq<PermEntry>)
    requires
        unique_ids(s),
    ensures
        forall|k: Seq<char>|
            pm_map(s).contains_key(k) <==> exists|i: int| 0 <= i < s.len() && s[i].id@ == k,
        forall|i: int|
            0 <= i < s.len() ==> pm_map(s).contains_key(#[trigger] s[i].id@) && pm_map(s)[s[i].id@]
                == s[i].granted@.to_set(),
    decreases s.len(),
{
    if s.len() > 0 {
        lemma_pm_map(s.drop_last());
        assert forall|i: int| 0 <= i < s.len() implies pm_map(s).contains_key(#[trigger] s[i].id@)
            && pm_map(s)[s[i].id@] == s[i].granted@.to_set() by {
            if i < s.len() - 1 {
                assert(s.drop_last()[i] == s[i]);
                assert(s[i].id@ != s.last().id@);
            }
        }
        assert forall|k: Seq<char>| pm_map(s).contains_key(k) implies exists|i: int|
            0 <= i < s.len() && s[i].id@ == k by {
            if k != s.last().id@ {
                assert(pm_map(s.drop_last()).contains_key(k));
                let i = choose|i: int| 0 <= i < s.drop_last().len() && s.drop_last()[i].id@ == k;
                assert(s.drop_last()[i] == s[i]);
                assert(s[i].id@ == k);
            } else {
                assert(s[s.len() - 1].id@ == k);
            }
        }
    }
}

/// Replacing entry `i` with one of the same id rebinds that id alone.
proof fn lemma_pm_map_update(s: Seq<PermEntry>, i: int, e: PermEntry)
    requires
        unique_ids(s),
        0 <= i < s.len(),
        e.id@ == s[i].id@,
    ensures
        pm_map(s.update(i, e)) =~= pm_map(s).insert(e.id@, e.granted@.to_set()),
        unique_ids(s.update(i, e)),
    decreases s.len(),
{
    let t = s.update(i, e);
    if i == s.len() - 1 {
        assert(t.drop_last() =~= s.drop_last());
        assert(t.last() == e);
    } else {
        assert(t.drop_last() =~= s.drop_last().update(i, e));
        assert(t.last() == s.last());
        lemma_pm_map_update(s.drop_last(), i, e);
        assert(pm_map(t) =~= pm_map(s).insert(e.id@, e.granted@.to_set())) by {
            assert(s[i].id@ != s.last().id@);
        }
    }
}

/// Appending an entry with a fresh id binds that id alone.
proof fn lemma_pm_map_push(s: Seq<PermEntry>, e: PermEntry)
    requires
        unique_ids(s),
        forall|i: int| 0 <= i < s.len() ==> s[i].id@ != e.id@,
    ensures
        pm_map(s.push(e)) =~= pm_map(s).insert(e.id@, e.granted@.to_set()),
        unique_ids(s.push(e)),
{
    assert(s.push(e).drop_last() =~= s);
    assert(s.push(e).last() == e);
}

impl PermissionManager {
    /// All capability sets an instance can reach are well-formed.
    pub closed spec fn wf(&self) -> bool {
        unique_ids(self.entries@)
    }

    /// A fresh manager: no module holds any capability.
    pub fn new() -> (r: PermissionManager)
        ensures
            r.wf(),
            r@ == Map::<Seq<char>, Set<Permission>>::empty(),
    {
        PermissionManager { entries: Vec::new() }
    }

    /// The index of the entry for `module_id`, if one exists.
    fn find(&self, module_id: &str) -> (r: Option<usize>)
        requires
            self.wf(),
        ensures
            match r {
                Some(i) => i < self.entries@.len() && self.entries@[i as int].id@ == module_id@,
                None => forall|i: int|
                    0 <= i < self.entries@.len() ==> self.entries@[i].id@ != module_id@,
            },
    {
        let n = self.entries.len();
        let mut i: usize = 0;
        while i < n
            invariant
                n == self.entries@.len(),
                i <= n,
                forall|j: int| 0 <= j < i ==> self.entries@[j].id@ != module_id@,
            decreases n - i,
        {
            if str_eq(self.entries[i].id.as_str(), module_id) {
                return Some(i);
            }
            i += 1;
        }
        None
    }

    /// Whether any capability entry exists for `module_id`.
    pub fn contains_id(&self, module_id: &str) -> (r: bool)
        requires
            self.wf(),
        ensures
            r == self@.contains_key(module_id@),
    {
        proof {
            lemma_pm_map(self.entries@);
        }
        match self.find(module_id) {
            Some(_i) => true,
            None => false,
        }
    }

    /// A bound on the character length of every id with a capability entry.
    pub fn max_id_len(&self) -> (r: usize)
        requires
            self.wf(),
        ensures
            forall|k: Seq<char>| self@.contains_key(k) ==> k.len() <= r,
    {
        proof {
            lemma_pm_map(self.entries@);
        }
        let n = self.entries.len();
        let mut best: usize = 0;
        let mut i: usize = 0;
        while i < n
            invariant
                n == self.entries@.len(),
                i <= n,
                forall|j: int| 0 <= j < i ==> (#[trigger] self.entries@[j].id@).len() <= best,
            decreases n - i,
        {
            let l = self.entries[i].id.as_str().unicode_len();
            if l > best {
                best = l;
            }
            i += 1;
        }
        proof {
            assert forall|k: Seq<char>| self@.contains_key(k) implies k.len() <= best by {
                let j = choose|j: int|
                    0 <= j < self.entries@.len() && self.entries@[j].id@ == k;
                assert(self.entries@[j].id@.len() <= best);
            }
        }
        best
    }

    /// Whether `module_id` holds `permission`: default-deny, a module with
    /// no entry has the empty capability set.
    pub fn check(&self, module_id: &str, permission: Permission) -> (r: bool)
        requires
            self.wf(),
        ensures
            r == spec_allowed(self@, module_id@, permission),
    {
        proof {
            lemma_pm_map(self.entries@);
        }
        match self.find(module_id) {
            None => {
                assert(!self@.contains_key(module_id@));
                false
            },
            Some(i) => {
                assert(self@.contains_key(module_id@));
                assert(self@[module_id@] == self.entries@[i as int].granted@.to_set());
                let g = &self.entries[i].granted;
                let glen = g.len();
                let mut j: usize = 0;
                while j < glen
                    invariant
                        glen == g@.len(),
                        j <= glen,
                        self@.contains_key(module_id@),
                        self@[module_id@] == g@.to_set(),
                        forall|k: int| 0 <= k < j ==> g@[k] != permission,
                    decreases glen - j,
                {
                    if g[j] == permission {
                        assert(g@.contains(permission));
                        assert(g@.to_set().contains(permission));
                        return true;
                    }
                    j += 1;
                }
                assert(!g@.contains(permission));
                false
            },
        }
    }

    /// Grants `permission` to `module_id`: an idempotent union-add.
    pub fn grant(&mut self, module_id: &str, permission: Permission)
        requires
            old(self).wf(),
        ensures
            final(self).wf(),
            final(self)@ == spec_grant(old(self)@, module_id@, permission),
    {
        proof {
            lemma_pm_map(self.entries@);
        }
        let ghost s0 = self.entries@;
        match self.find(module_id) {
            Some(i) => {
                let entry = vstd::std_specs::vec::vec_index_mut(&mut self.entries, i);
                entry.granted.push(permission);
                proof {
                    let e1 = *final(entry);
                    Seq::lemma_to_set_insert_commutes(s0[i as int].granted@, permission);
                    assert(s0[i as int].granted@.push(permission) =~= s0[i as int].granted@
                        + seq![permission]);
                    lemma_pm_map_update(s0, i as int, e1);
                    assert(final(self)@ =~= spec_grant(old(self)@, module_id@, permission));
                }
            },
            None => {
                let mut g: Vec<Permission> = Vec::new();
                g.push(permission);
                let e = PermEntry { id: module_id.to_owned(), granted: g };
                let ghost ev = e;
                self.entries.push(e);
                proof {
                    assert(ev.granted@ =~= Seq::empty().push(permission));
                    Seq::lemma_to_set_insert_commutes(Seq::<Permission>::empty(), permission);
                    assert(Seq::<Permission>::empty().push(permission) =~= Seq::<
                        Permission,
                    >::empty() + seq![permission]);
                    assert(Seq::<Permission>::empty().to_set() =~= Set::<Permission>::empty());
                    lemma_pm_map_push(s0, ev);
                    assert(final(self)@ =~= spec_grant(old(self)@, module_id@, permission));
                }
            },
        }
    }

    /// Revokes `permission` from `module_id`: idempotent, a no-op when the
    /// capability or the module entry is absent.
    pub fn revoke(&mut self, module_id: &str, permission: Permission)
        requires
            old(self).wf(),
        ensures
            final(self).wf(),
            final(self)@ == spec_revoke(old(self)@, module_id@, permission),
    {
        proof {
            lemma_pm_map(self.entries@);
        }
        let ghost s0 = self.entries@;
        match self.find(module_id) {
            Some(i) => {
                let old_granted = &self.entries[i].granted;
                let glen = old_granted.len();
                let mut kept: Vec<Permission> = Vec::new();
                let mut j: usize = 0;
                while j < glen
                    invariant
                        0 <= i < s0.len(),
                        self.entries@ == s0,
                        glen == s0[i as int].granted@.len(),
                        j <= glen,
                        forall|x: Permission|
                            kept@.contains(x) <==> (s0[i as int].granted@.subrange(
                                0,
                                j as int,
                            ).contains(x) && x != permission),
                    decreases glen - j,
                {
                    let ghost kpre = kept@;
                    let ghost gj = s0[i as int].granted@[j as int];
                    let p = self.entries[i].granted[j];
                    if !(p == permission) {
                        kept.push(p);
                    }
                    proof {
                        let pre = s0[i as int].granted@.subrange(0, j as int);
                        let cur = s0[i as int].granted@.subrange(0, j + 1 as int);
                        assert(cur =~= pre.push(gj));
                        assert forall|x: Permission| kept@.contains(x) implies (cur.contains(x)
                            && x != permission) by {
                            if kpre.contains(x) {
                                let w = choose|w: int| 0 <= w < pre.len() && pre[w] == x;
                                assert(cur[w] == x);
                            } else {
                                assert(x == gj);
                                assert(cur[j as int] == x);
                            }
                        }
                        assert forall|x: Permission| (cur.contains(x) && x != permission)
                            implies kept@.contains(x) by {
                            let w = choose|w: int| 0 <= w < cur.len() && cur[w] == x;
                            if w < j {
                                assert(pre[w] == x);
                            } else {
                                assert(x == gj);
                                if gj != permission {
                                    assert(kept@.last() == x);
                                }
                            }
                        }
                    }
                    j += 1;
                }
                proof {
                    assert(s0[i as int].granted@.subrange(0, glen as int) =~= s0[i as int].granted@);
                }
                let id_copy = self.entries[i].id.clone();
                let e = PermEntry { id: id_copy, granted: kept };
                let ghost ev = e;
                let slot = vstd::std_specs::vec::vec_index_mut(&mut self.entries, i);
                *slot = e;
                proof {
                    assert(ev.granted@.to_set() =~= s0[i as int].granted@.to_set().remove(
                        permission,
                    ));
                    lemma_pm_map_update(s0, i as int, ev);
                    assert(final(self)@ =~= spec_revoke(old(self)@, module_id@, permission));
                }
            },
            None => {
                proof {
                    assert(!old(self)@.contains_key(module_id@));
                }
            },
        }
    }
}

/// After a grant, the granted capability is allowed.
pub proof fn lemma_grant_allows(m: Map<Seq<char>, Set<Permission>>, k: Seq<char>, p: Permission)
    ensures
        spec_allowed(spec_grant(m, k, p), k, p),
{
}

/// After a revocation, the revoked capability is denied.
pub proof fn lemma_revoke_denies(m: Map<Seq<char>, Set<Permission>>, k: Seq<char>, p: Permission)
    ensures
        !spec_allowed(spec_revoke(m, k, p), k, p),
{
}

/// Default-deny: an id with no entry is allowed nothing.
pub proof fn lemma_default_deny(m: Map<Seq<char>, Set<Permission>>, k: Seq<char>, p: Permission)
    requires
        !m.contains_key(k),
    ensures
        !spec_allowed(m, k, p),
{
}

/// A grant followed by a revocation of the same capability denies it, and a
/// grant alone allows it, whatever the starting state.
pub proof fn lemma_grant_revoke_round_trip(
    m: Map<Seq<char>, Set<Permission>>,
    k: Seq<char>,
    p: Permission,
)
    ensures
        spec_allowed(spec_grant(m, k, p), k, p),
        !spec_allowed(spec_revoke(spec_grant(m, k, p), k, p), k, p),
{
}

} // verus!
