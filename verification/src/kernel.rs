//! The kernel: creates modules, tracks their lifecycle, routes messages
//! through per-module mailboxes behind capability checks, runs untrusted
//! code in the sandbox, samples host resources, and records every
//! security-relevant action in the audit trail.

use vstd::prelude::*;
use vstd::string::StringExecFns;
use crate::ipc::{IpcMessage, IpcMessageView, Mailbox, MailboxView};
use crate::permissions::{Permission, PermissionManager, spec_allowed, spec_grant, spec_revoke};
use crate::resources::{ResourceMonitor, ResourceSnapshot, spec_mem_pct};
use crate::security::{SecurityAudit, AuditEntryView, spec_render};
use crate::wasm_runtime::{WasmRuntime, SandboxError, run_result_text, no_result_text};
use crate::text::str_eq;

verus! {

/// The role of a module.
#[derive(Debug, PartialEq, Eq)]
pub enum ModuleType {
    Brain,
    Interface,
    Vision,
    Audio,
    Memory,
    Reasoning,
    Custom(String),
}

/// The mathematical content of a module role.
pub ghost enum ModuleKindView {
    Brain,
    Interface,
    Vision,
    Audio,
    Memory,
    Reasoning,
    Custom(Seq<char>),
}

impl View for ModuleType {
    type V = ModuleKindView;

    open spec fn view(&self) -> ModuleKindView {
        match self {
            ModuleType::Brain => ModuleKindView::Brain,
            ModuleType::Interface => ModuleKindView::Interface,
            ModuleType::Vision => ModuleKindView::Vision,
            ModuleType::Audio => ModuleKindView::Audio,
            ModuleType::Memory => ModuleKindView::Memory,
            ModuleType::Reasoning => ModuleKindView::Reasoning,
            ModuleType::Custom(s) => ModuleKindView::Custom(s@),
        }
    }
}

/// The lifecycle state of a module: `Idle -> Running -> {Paused, Failed}`,
/// `Paused -> Running`. `Failed` is terminal; no public operation recovers
/// from it, and none produces it either. Modules are created directly as
/// `Running`, so `Idle` has no entry path through the public operations.
#[derive(Clone, Copy, Debug, PartialEq, Eq, Structural)]
pub enum ModuleStatus {
    Idle,
    Running,
    Paused,
    Failed,
}

/// One module record: a unique id, a display name, a role, and a status.
pub struct ModuleInfo {
    pub id: String,
    pub name: String,
    pub module_type: ModuleType,
    pub status: ModuleStatus,
}

/// The mathematical content of a module record.
pub ghost struct ModuleInfoView {
    pub id: Seq<char>,
    pub name: Seq<char>,
    pub module_type: ModuleKindView,
    pub status: ModuleStatus,
}

impl View for ModuleInfo {
    type V = ModuleInfoView;

    open spec fn view(&self) -> ModuleInfoView {
        ModuleInfoView {
            id: self.id@,
            name: self.name@,
            module_type: self.module_type@,
            status: self.status,
        }
    }
}

/// What a kernel operation can report to its caller.
#[derive(Debug)]
pub enum KernelError {
    /// The named module id is not registered.
    ModuleNotFound,
    /// The module lacks the capability the operation needs.
    PermissionDenied { module: String, permission: Permission },
    /// The destination mailbox is at capacity: a transient backpressure
    /// signal, to be retried once the receiver drains its queue.
    MailboxFull,
    /// The sandbox rejected the supplied code unit.
    SandboxCompileError { reason: String },
    /// The code unit faulted inside the sandbox.
    SandboxTrapError { reason: String },
}

/// The kernel's logical state: the module table, the capability map, one
/// mailbox per module id, and the audit trail.
pub ghost struct KernelView {
    pub modules: Seq<ModuleInfoView>,
    pub perms: Map<Seq<char>, Set<Permission>>,
    pub mailboxes: Map<Seq<char>, MailboxView>,
    pub audit: Seq<AuditEntryView>,
    pub mailbox_capacity: nat,
}

/// The map from owner id to mailbox that a sequence of mailboxes denotes.
spec fn mb_map(s: Seq<Mailbox>) -> Map<Seq<char>, MailboxView>
    decreases s.len(),
{
    if s.len() == 0 {
        Map::empty()
    } else {
        mb_map(s.drop_last()).insert(s.last()@.owner, s.last()@)
    }
}

/// Mailbox owners are pairwise distinct.
spec fn unique_owners(s: Seq<Mailbox>) -> bool {
    forall|i: int, j: int| 0 <= i < j < s.len() ==> s[i]@.owner != s[j]@.owner
}

/// With pairwise-distinct owners, the denoted map holds exactly the
/// mailboxes' owners, each bound to its own mailbox.
proof fn lemma_mb_map(s: Seq<Mailbox>)
    requires
        unique_owners(s),
    ensures
        forall|k: Seq<char>|
            mb_map(s).contains_key(k) <==> exists|i: int| 0 <= i < s.len() && s[i]@.owner == k,
        forall|i: int|
            0 <= i < s.len() ==> mb_map(s).contains_key(#[trigger] s[i]@.owner) && mb_map(
                s,
            )[s[i]@.owner] == s[i]@,
    decreases s.len(),
{
    if s.len() > 0 {
        lemma_mb_map(s.drop_last());
        assert forall|i: int| 0 <= i < s.len() implies mb_map(s).contains_key(
            #[trigger] s[i]@.owner,
        ) && mb_map(s)[s[i]@.owner] == s[i]@ by {
            if i < s.len() - 1 {
                assert(s.drop_last()[i] == s[i]);
                assert(s[i]@.owner != s.last()@.owner);
            }
        }
        assert forall|k: Seq<char>| mb_map(s).contains_key(k) implies exists|i: int|
            0 <= i < s.len() && s[i]@.owner == k by {
            if k != s.last()@.owner {
                assert(mb_map(s.drop_last()).contains_key(k));
                let i = choose|i: int|
                    0 <= i < s.drop_last().len() && s.drop_last()[i]@.owner == k;
                assert(s.drop_last()[i] == s[i]);
                assert(s[i]@.owner == k);
            } else {
                assert(s[s.len() - 1]@.owner == k);
            }
        }
    }
}

/// Replacing mailbox `i` with one of the same owner rebinds that owner
/// alone.
proof fn lemma_mb_map_update(s: Seq<Mailbox>, i: int, m: Mailbox)
    requires
        unique_owners(s),
        0 <= i < s.len(),
        m@.owner == s[i]@.owner,
    ensures
        mb_map(s.update(i, m)) =~= mb_map(s).insert(m@.owner, m@),
        unique_owners(s.update(i, m)),
    decreases s.len(),
{
    let t = s.update(i, m);
    if i == s.len() - 1 {
        assert(t.drop_last() =~= s.drop_last());
        assert(t.last() == m);
    } else {
        assert(t.drop_last() =~= s.drop_last().update(i, m));
        assert(t.last() == s.last());
        lemma_mb_map_update(s.drop_last(), i, m);
        assert(mb_map(t) =~= mb_map(s).insert(m@.owner, m@)) by {
            assert(s[i]@.owner != s.last()@.owner);
        }
    }
}

/// Appending a mailbox with a fresh owner binds that owner alone.
proof fn lemma_mb_map_push(s: Seq<Mailbox>, m: Mailbox)
    requires
        unique_owners(s),
        forall|i: int| 0 <= i < s.len() ==> s[i]@.owner != m@.owner,
    ensures
        mb_map(s.push(m)) =~= mb_map(s).insert(m@.owner, m@),
        unique_owners(s.push(m)),
{
    assert(s.push(m).drop_last() =~= s);
    assert(s.push(m).last() == m);
}

/// Relies on uuid::Uuid::new_v4 and its Display rendering: a random
/// version-4 UUID in the hyphenated form, 36 characters long. The value
/// depends on the process's entropy source; nothing else is promised.
#[verifier::external_body]
fn fresh_uuid() -> (r: String)
    ensures
        r@.len() == 36,
{
    uuid::Uuid::new_v4().to_string()
}

/// The audit tag for a module role.
pub open spec fn spec_kind_tag(k: ModuleKindView) -> Seq<char> {
    match k {
        ModuleKindView::Brain => "brain"@,
        ModuleKindView::Interface => "interface"@,
        ModuleKindView::Vision => "vision"@,
        ModuleKindView::Audio => "audio"@,
        ModuleKindView::Memory => "memory"@,
        ModuleKindView::Reasoning => "reasoning"@,
        ModuleKindView::Custom(s) => "custom:"@ + s,
    }
}

/// The audit event recorded when a module of role `k` is spawned.
pub open spec fn spawn_event(k: ModuleKindView) -> Seq<char> {
    "module_spawn:"@ + spec_kind_tag(k)
}

/// Renders the audit tag of a module role.
fn kind_tag(t: &ModuleType) -> (r: String)
    ensures
        r@ == spec_kind_tag(t@),
{
    match t {
        ModuleType::Brain => String::from_str("brain"),
        ModuleType::Interface => String::from_str("interface"),
        ModuleType::Vision => String::from_str("vision"),
        ModuleType::Audio => String::from_str("audio"),
        ModuleType::Memory => String::from_str("memory"),
        ModuleType::Reasoning => String::from_str("reasoning"),
        ModuleType::Custom(s) => {
            let base = String::from_str("custom:");
            base.concat(s.as_str())
        },
    }
}

/// Renders the spawn audit event of a module role.
fn spawn_event_text(t: &ModuleType) -> (r: String)
    ensures
        r@ == spawn_event(t@),
{
    let base = String::from_str("module_spawn:");
    let tag = kind_tag(t);
    base.concat(tag.as_str())
}

/// The id `k` names a registered module of `v`.
pub open spec fn module_taken(v: KernelView, k: Seq<char>) -> bool {
    exists|i: int| 0 <= i < v.modules.len() && v.modules[i].id == k
}

/// The id `k` is unknown to `v` in every table: no module record, and no
/// capability entry. A freshly spawned module therefore starts with the
/// empty capability set.
pub open spec fn id_fresh(v: KernelView, k: Seq<char>) -> bool {
    !module_taken(v, k) && !v.perms.contains_key(k)
}

/// The state after spawning a module: a new record with status `Running`
/// appended to the module table, a fresh empty mailbox for its id, one
/// audit entry, and the capability map untouched.
pub open spec fn spec_spawn(
    v: KernelView,
    id: Seq<char>,
    name: Seq<char>,
    kind: ModuleKindView,
    ts: Seq<char>,
) -> KernelView {
    KernelView {
        modules: v.modules.push(
            ModuleInfoView { id, name, module_type: kind, status: ModuleStatus::Running },
        ),
        perms: v.perms,
        mailboxes: v.mailboxes.insert(
            id,
            MailboxView { owner: id, queue: Seq::empty(), capacity: v.mailbox_capacity },
        ),
        audit: v.audit.push(AuditEntryView { timestamp: ts, event: spawn_event(kind), details: name }),
        mailbox_capacity: v.mailbox_capacity,
    }
}

/// The state after setting the status of the module named `id`: the
/// matching record's status is replaced, one audit entry is recorded, and
/// every other table is untouched.
pub open spec fn spec_set_status(
    v: KernelView,
    id: Seq<char>,
    st: ModuleStatus,
    event: Seq<char>,
    ts: Seq<char>,
) -> KernelView {
    KernelView {
        modules: Seq::new(
            v.modules.len(),
            |i: int|
                if v.modules[i].id == id {
                    ModuleInfoView { status: st, ..v.modules[i] }
                } else {
                    v.modules[i]
                },
        ),
        audit: v.audit.push(AuditEntryView { timestamp: ts, event, details: id }),
        ..v
    }
}

/// The state after pausing the module named `id`.
pub open spec fn spec_pause(v: KernelView, id: Seq<char>, ts: Seq<char>) -> KernelView {
    spec_set_status(v, id, ModuleStatus::Paused, "module_pause"@, ts)
}

/// The state after resuming the module named `id`.
pub open spec fn spec_resume(v: KernelView, id: Seq<char>, ts: Seq<char>) -> KernelView {
    spec_set_status(v, id, ModuleStatus::Running, "module_resume"@, ts)
}

/// The status of the module named `id`, when one is registered.
pub open spec fn status_of(v: KernelView, id: Seq<char>) -> Option<ModuleStatus> {
    if module_taken(v, id) {
        let i = choose|i: int| 0 <= i < v.modules.len() && v.modules[i].id == id;
        Some(v.modules[i].status)
    } else {
        None
    }
}

/// What `ipc_send` decides for a given state: the sender's capability is
/// checked first, then the destination mailbox is looked up, then its
/// capacity; only then is the message queued.
pub ghost enum SendOutcome {
    Delivered,
    Denied,
    NotFound,
    Full,
}

/// The outcome `ipc_send(from, to, _)` has in state `v`.
pub open spec fn spec_send_outcome(v: KernelView, from: Seq<char>, to: Seq<char>) -> SendOutcome {
    if !spec_allowed(v.perms, from, Permission::SendIpc) {
        SendOutcome::Denied
    } else if !v.mailboxes.contains_key(to) {
        SendOutcome::NotFound
    } else if v.mailboxes[to].queue.len() >= v.mailboxes[to].capacity {
        SendOutcome::Full
    } else {
        SendOutcome::Delivered
    }
}

/// The audit detail recorded for a delivered message.
pub open spec fn send_details(from: Seq<char>, to: Seq<char>) -> Seq<char> {
    from + " -> "@ + to
}

/// The state after a delivered send: the message is appended at the back
/// of the destination mailbox and one `ipc_send` audit entry is recorded.
pub open spec fn spec_send(
    v: KernelView,
    from: Seq<char>,
    to: Seq<char>,
    m: IpcMessageView,
    ts: Seq<char>,
) -> KernelView {
    KernelView {
        mailboxes: v.mailboxes.insert(
            to,
            MailboxView { queue: v.mailboxes[to].queue.push(m), ..v.mailboxes[to] },
        ),
        audit: v.audit.push(
            AuditEntryView { timestamp: ts, event: "ipc_send"@, details: send_details(from, to) },
        ),
        ..v
    }
}

/// The state after a permitted sandbox run: one `sandbox_run` audit entry
/// naming the module; every table is untouched.
pub open spec fn spec_run_ok(v: KernelView, id: Seq<char>, ts: Seq<char>) -> KernelView {
    KernelView {
        audit: v.audit.push(
            AuditEntryView { timestamp: ts, event: "sandbox_run"@, details: id },
        ),
        ..v
    }
}

/// The structural invariant of the kernel's logical state: module ids are
/// pairwise distinct, exactly the registered ids own a mailbox, and no
/// mailbox overflows its fixed capacity.
pub open spec fn kernel_inv(v: KernelView) -> bool {
    &&& forall|i: int, j: int|
        0 <= i < j < v.modules.len() ==> v.modules[i].id != v.modules[j].id
    &&& forall|k: Seq<char>| v.mailboxes.contains_key(k) <==> module_taken(v, k)
    &&& forall|k: Seq<char>|
        v.mailboxes.contains_key(k) ==> (#[trigger] v.mailboxes[k]).owner == k
            && v.mailboxes[k].queue.len() <= v.mailboxes[k].capacity
}

/// The invariant depends only on the module table and the mailbox table:
/// two states that agree on those agree on the invariant.
proof fn lemma_inv_same_tables(v1: KernelView, v2: KernelView)
    requires
        kernel_inv(v1),
        v1.modules == v2.modules,
        v1.mailboxes == v2.mailboxes,
    ensures
        kernel_inv(v2),
{
    assert forall|k: Seq<char>| v2.mailboxes.contains_key(k) <==> module_taken(v2, k) by {
        assert(v1.mailboxes.contains_key(k) <==> module_taken(v1, k));
        assert(module_taken(v1, k) <==> module_taken(v2, k));
    }
}

/// A verbatim copy of a module role.
fn clone_kind(t: &ModuleType) -> (r: ModuleType)
    ensures
        r@ == t@,
{
    match t {
        ModuleType::Brain => ModuleType::Brain,
        ModuleType::Interface => ModuleType::Interface,
        ModuleType::Vision => ModuleType::Vision,
        ModuleType::Audio => ModuleType::Audio,
        ModuleType::Memory => ModuleType::Memory,
        ModuleType::Reasoning => ModuleType::Reasoning,
        ModuleType::Custom(s) => ModuleType::Custom(s.clone()),
    }
}

/// A verbatim copy of a module record.
fn clone_info(m: &ModuleInfo) -> (r: ModuleInfo)
    ensures
        r@ == m@,
{
    ModuleInfo {
        id: m.id.clone(),
        name: m.name.clone(),
        module_type: clone_kind(&m.module_type),
        status: m.status,
    }
}

/// The kernel. Owns the module table, the permission manager, the mailbox
/// table, the sandbox runtime, the resource monitor, and the audit trail;
/// none is exposed for independent ownership.
pub struct KiachaKernel {
    modules: Vec<ModuleInfo>,
    mailboxes: Vec<Mailbox>,
    permissions: PermissionManager,
    audit: SecurityAudit,
    resources: ResourceMonitor,
    wasm: WasmRuntime,
    mailbox_capacity: usize,
}

impl View for KiachaKernel {
    type V = KernelView;

    closed spec fn view(&self) -> KernelView {
        KernelView {
            modules: self.modules@.map_values(|m: ModuleInfo| m@),
            perms: self.permissions@,
            mailboxes: mb_map(self.mailboxes@),
            audit: self.audit@,
            mailbox_capacity: self.mailbox_capacity as nat,
        }
    }
}

impl KiachaKernel {
    /// The representation invariant: the capability table and every mailbox
    /// are well-formed, owners and ids are unique, and the logical state
    /// satisfies `kernel_inv`.
    pub closed spec fn wf(&self) -> bool {
        &&& self.permissions.wf()
        &&& unique_owners(self.mailboxes@)
        &&& forall|i: int|
            0 <= i < self.mailboxes@.len() ==> (#[trigger] self.mailboxes@[i]).wf()
                && self.mailboxes@[i]@.capacity == self.mailbox_capacity as nat
        &&& kernel_inv(self@)
    }

    /// A kernel wired from an externally supplied permission bootstrap and
    /// a fixed mailbox capacity. It starts with no modules and a single
    /// audit entry recording the start.
    pub fn new(permissions: PermissionManager, mailbox_capacity: usize) -> (r: KiachaKernel)
        requires
            permissions.wf(),
        ensures
            r.wf(),
            r@.modules == Seq::<ModuleInfoView>::empty(),
            r@.perms == permissions@,
            r@.mailboxes == Map::<Seq<char>, MailboxView>::empty(),
            r@.mailbox_capacity == mailbox_capacity as nat,
            r@.audit.len() == 1,
            r@.audit[0].event == "kernel_started"@,
    {
        let mut audit = SecurityAudit::new();
        audit.log("kernel_started", "kernel initialized");
        let r = KiachaKernel {
            modules: Vec::new(),
            mailboxes: Vec::new(),
            permissions,
            audit,
            resources: ResourceMonitor::new(),
            wasm: WasmRuntime::new(),
            mailbox_capacity,
        };
        proof {
            assert(r@.modules =~= Seq::<ModuleInfoView>::empty());
            assert(r@.mailboxes =~= Map::<Seq<char>, MailboxView>::empty());
            assert(r@.audit =~= Seq::<AuditEntryView>::empty().push(r@.audit.last()));
        }
        r
    }

    /// The index of the module record for `module_id`, if one exists.
    fn find_module(&self, module_id: &str) -> (r: Option<usize>)
        ensures
            match r {
                Some(i) => i < self@.modules.len() && self@.modules[i as int].id == module_id@,
                None => !module_taken(self@, module_id@),
            },
    {
        let n = self.modules.len();
        let mut i: usize = 0;
        while i < n
            invariant
                n == self.modules@.len(),
                i <= n,
                forall|j: int| 0 <= j < i ==> self@.modules[j].id != module_id@,
            decreases n - i,
        {
            if str_eq(self.modules[i].id.as_str(), module_id) {
                return Some(i);
            }
            i += 1;
        }
        None
    }

    /// Whether `module_id` names a registered module.
    fn id_taken(&self, module_id: &str) -> (r: bool)
        ensures
            r == module_taken(self@, module_id@),
    {
        match self.find_module(module_id) {
            Some(_i) => true,
            None => false,
        }
    }

    /// A bound on the character length of every registered module id.
    fn max_module_id_len(&self) -> (r: usize)
        ensures
            forall|i: int|
                0 <= i < self@.modules.len() ==> (#[trigger] self@.modules[i].id).len() <= r,
    {
        let n = self.modules.len();
        let mut best: usize = 0;
        let mut i: usize = 0;
        while i < n
            invariant
                n == self.modules@.len(),
                i <= n,
                forall|j: int| 0 <= j < i ==> (#[trigger] self@.modules[j].id).len() <= best,
            decreases n - i,
        {
            let l = self.modules[i].id.as_str().unicode_len();
            if l > best {
                best = l;
            }
            i += 1;
        }
        best
    }

    /// Spawns a module: allocates a fresh id that no table knows, registers
    /// a record with status `Running`, creates the module's empty mailbox,
    /// and records one `module_spawn` audit entry. The fresh id carries no
    /// capability entry, so a new module starts default-denied. An id
    /// collision is resolved internally and never surfaces to the caller.
    pub fn spawn(&mut self, name: String, module_type: ModuleType) -> (r: String)
        requires
            old(self).wf(),
        ensures
            final(self).wf(),
            id_fresh(old(self)@, r@),
            exists|ts: Seq<char>|
                final(self)@ == #[trigger] spec_spawn(old(self)@, r@, name@, module_type@, ts),
            old(self)@.audit.is_prefix_of(final(self)@.audit),
    {
        let mut id = fresh_uuid();
        if self.id_taken(id.as_str()) || self.permissions.contains_id(id.as_str()) {
            // A random id collided with an existing table key: fall back to
            // a deterministic id strictly longer than every key in use.
            let m1 = self.max_module_id_len();
            let m2 = self.permissions.max_id_len();
            let bound: usize = if m1 > m2 {
                m1
            } else {
                m2
            };
            while id.as_str().unicode_len() <= bound
                invariant
                    self == old(self),
                    old(self).wf(),
                    forall|i: int|
                        0 <= i < self@.modules.len() ==> (#[trigger] self@.modules[i].id).len()
                            <= bound,
                    forall|k: Seq<char>| self@.perms.contains_key(k) ==> k.len() <= bound,
                decreases bound + 1 - id@.len(),
            {
                proof {
                    reveal_strlit("0");
                }
                id.append("0");
            }
            proof {
                if module_taken(old(self)@, id@) {
                    let i = choose|i: int|
                        0 <= i < old(self)@.modules.len() && old(self)@.modules[i].id == id@;
                    assert(old(self)@.modules[i].id.len() <= bound);
                    assert(false);
                }
                if old(self)@.perms.contains_key(id@) {
                    assert(false);
                }
            }
        }
        proof {
            assert(id_fresh(old(self)@, id@));
        }
        let event = spawn_event_text(&module_type);
        self.audit.log(event.as_str(), name.as_str());
        let ghost mailboxes0 = self.mailboxes@;
        let ghost modules0 = self.modules@;
        let record = ModuleInfo {
            id: id.clone(),
            name,
            module_type,
            status: ModuleStatus::Running,
        };
        self.modules.push(record);
        let mailbox = Mailbox::new(id.clone(), self.mailbox_capacity);
        let ghost mbv = mailbox@;
        self.mailboxes.push(mailbox);
        proof {
            lemma_mb_map(mailboxes0);
            assert forall|i: int| 0 <= i < mailboxes0.len() implies mailboxes0[i]@.owner != id@ by {
                assert(mb_map(mailboxes0).contains_key(mailboxes0[i]@.owner));
                assert(module_taken(old(self)@, mailboxes0[i]@.owner));
            }
            lemma_mb_map_push(mailboxes0, self.mailboxes@.last());
            let ts = self@.audit.last().timestamp;
            let v2 = spec_spawn(old(self)@, id@, name@, module_type@, ts);
            assert(self@.modules =~= v2.modules) by {
                assert(self.modules@ =~= modules0.push(self.modules@.last()));
            }
            assert(self@.mailboxes =~= v2.mailboxes) by {
                assert(mbv.queue =~= Seq::<IpcMessageView>::empty());
            }
            assert(self@.audit =~= v2.audit);
            assert(self@ == v2);
            let n0 = old(self)@.modules.len() as int;
            assert(self@.modules[n0].id == id@);
            assert forall|i: int, j: int|
                0 <= i < j < self@.modules.len() implies self@.modules[i].id
                != self@.modules[j].id by {
                if j < n0 {
                    assert(old(self)@.modules[i].id != old(self)@.modules[j].id);
                } else {
                    assert(self@.modules[i].id == old(self)@.modules[i].id);
                    if old(self)@.modules[i].id == id@ {
                        assert(module_taken(old(self)@, id@));
                    }
                }
            }
            assert forall|k: Seq<char>| self@.mailboxes.contains_key(k) <==> module_taken(
                self@,
                k,
            ) by {
                if self@.mailboxes.contains_key(k) {
                    if k == id@ {
                        assert(module_taken(self@, k));
                    } else {
                        assert(old(self)@.mailboxes.contains_key(k));
                        assert(module_taken(old(self)@, k));
                        let i = choose|i: int|
                            0 <= i < n0 && old(self)@.modules[i].id == k;
                        assert(self@.modules[i].id == k);
                        assert(module_taken(self@, k));
                    }
                }
                if module_taken(self@, k) {
                    let i = choose|i: int|
                        0 <= i < self@.modules.len() && self@.modules[i].id == k;
                    if i < n0 {
                        assert(old(self)@.modules[i].id == k);
                        assert(module_taken(old(self)@, k));
                        assert(old(self)@.mailboxes.contains_key(k));
                    } else {
                        assert(k == id@);
                    }
                    assert(self@.mailboxes.contains_key(k));
                }
            }
            assert(kernel_inv(self@));
            assert(old(self)@.audit.is_prefix_of(self@.audit)) by {
                crate::security::lemma_log_extends(old(self)@.audit, self@.audit);
            }
        }
        id
    }

    /// Sets the status of the module named `module_id` and records the
    /// given audit event with the id as detail; `ModuleNotFound` when no
    /// such module is registered.
    fn set_status(&mut self, module_id: &str, st: ModuleStatus, event: &str) -> (r: Result<
        (),
        KernelError,
    >)
        requires
            old(self).wf(),
        ensures
            final(self).wf(),
            old(self)@.audit.is_prefix_of(final(self)@.audit),
            module_taken(old(self)@, module_id@) ==> (r matches Ok(u)) && (exists|ts: Seq<char>|
                final(self)@ == #[trigger] spec_set_status(
                    old(self)@,
                    module_id@,
                    st,
                    event@,
                    ts,
                )),
            !module_taken(old(self)@, module_id@) ==> (r matches Err(
                KernelError::ModuleNotFound,
            ) && final(self)@ == old(self)@),
    {
        match self.find_module(module_id) {
            None => {
                proof {
                    assert(old(self)@.audit.is_prefix_of(self@.audit)) by {
                        assert(self@.audit =~= self@.audit.subrange(
                            0,
                            self@.audit.len() as int,
                        ));
                    }
                }
                Err(KernelError::ModuleNotFound)
            },
            Some(i) => {
                let ghost modules0 = self.modules@;
                let slot = vstd::std_specs::vec::vec_index_mut(&mut self.modules, i);
                slot.status = st;
                self.audit.log(event, module_id);
                proof {
                    let ts = self@.audit.last().timestamp;
                    let v2 = spec_set_status(old(self)@, module_id@, st, event@, ts);
                    assert forall|j: int|
                        0 <= j < self@.modules.len() implies self@.modules[j] == v2.modules[j] by {
                        if j != i {
                            assert(self@.modules[j] == old(self)@.modules[j]);
                            assert(old(self)@.modules[j].id != module_id@);
                        }
                    }
                    assert(self@.modules =~= v2.modules);
                    assert(self@.audit =~= v2.audit);
                    assert(self@ == v2);
                    assert forall|k: Seq<char>| self@.mailboxes.contains_key(k) <==> module_taken(
                        self@,
                        k,
                    ) by {
                        if module_taken(self@, k) {
                            let j = choose|j: int|
                                0 <= j < self@.modules.len() && self@.modules[j].id == k;
                            assert(old(self)@.modules[j].id == k);
                            assert(module_taken(old(self)@, k));
                        }
                        if module_taken(old(self)@, k) {
                            let j = choose|j: int|
                                0 <= j < old(self)@.modules.len() && old(self)@.modules[j].id
                                    == k;
                            assert(self@.modules[j].id == k);
                            assert(module_taken(self@, k));
                        }
                    }
                    assert(kernel_inv(self@));
                    assert(old(self)@.audit.is_prefix_of(self@.audit)) by {
                        crate::security::lemma_log_extends(old(self)@.audit, self@.audit);
                    }
                }
                Ok(())
            },
        }
    }

    /// Pauses a module: its status becomes `Paused` and a `module_pause`
    /// audit entry is recorded; `ModuleNotFound` when the id is absent.
    /// Pausing does not block delivery into the module's mailbox: queueing
    /// continues, the module is simply not expected to drain it. That is a
    /// policy, not an enforced block.
    pub fn pause_module(&mut self, module_id: &str) -> (r: Result<(), KernelError>)
        requires
            old(self).wf(),
        ensures
            final(self).wf(),
            old(self)@.audit.is_prefix_of(final(self)@.audit),
            module_taken(old(self)@, module_id@) ==> (r matches Ok(u)) && (exists|ts: Seq<char>|
                final(self)@ == #[trigger] spec_pause(old(self)@, module_id@, ts)),
            !module_taken(old(self)@, module_id@) ==> (r matches Err(
                KernelError::ModuleNotFound,
            ) && final(self)@ == old(self)@),
    {
        let r = self.set_status(module_id, ModuleStatus::Paused, "module_pause");
        proof {
            if module_taken(old(self)@, module_id@) {
                let ts = choose|ts: Seq<char>|
                    self@ == #[trigger] spec_set_status(
                        old(self)@,
                        module_id@,
                        ModuleStatus::Paused,
                        "module_pause"@,
                        ts,
                    );
                assert(self@ == spec_pause(old(self)@, module_id@, ts));
            }
        }
        r
    }

    /// Resumes a module: its status becomes `Running` and a `module_resume`
    /// audit entry is recorded; `ModuleNotFound` when the id is absent.
    pub fn resume_module(&mut self, module_id: &str) -> (r: Result<(), KernelError>)
        requires
            old(self).wf(),
        ensures
            final(self).wf(),
            old(self)@.audit.is_prefix_of(final(self)@.audit),
            module_taken(old(self)@, module_id@) ==> (r matches Ok(u)) && (exists|ts: Seq<char>|
                final(self)@ == #[trigger] spec_resume(old(self)@, module_id@, ts)),
            !module_taken(old(self)@, module_id@) ==> (r matches Err(
                KernelError::ModuleNotFound,
            ) && final(self)@ == old(self)@),
    {
        let r = self.set_status(module_id, ModuleStatus::Running, "module_resume");
        proof {
            if module_taken(old(self)@, module_id@) {
                let ts = choose|ts: Seq<char>|
                    self@ == #[trigger] spec_set_status(
                        old(self)@,
                        module_id@,
                        ModuleStatus::Running,
                        "module_resume"@,
                        ts,
                    );
                assert(self@ == spec_resume(old(self)@, module_id@, ts));
            }
        }
        r
    }

    /// A point-in-time copy of every module record, in insertion order. No
    /// live view of the table leaks.
    pub fn list_modules(&self) -> (r: Vec<ModuleInfo>)
        ensures
            r@.len() == self@.modules.len(),
            forall|i: int| 0 <= i < r@.len() ==> (#[trigger] r@[i])@ == self@.modules[i],
    {
        let n = self.modules.len();
        let mut out: Vec<ModuleInfo> = Vec::new();
        let mut i: usize = 0;
        while i < n
            invariant
                n == self.modules@.len(),
                i <= n,
                out@.len() == i,
                forall|j: int| 0 <= j < i ==> (#[trigger] out@[j])@ == self@.modules[j],
            decreases n - i,
        {
            out.push(clone_info(&self.modules[i]));
            i += 1;
        }
        out
    }

    /// A rendered copy of the audit trail, oldest first.
    pub fn get_audit_logs(&self) -> (r: Vec<String>)
        ensures
            r@.len() == self@.audit.len(),
            forall|i: int| 0 <= i < r@.len() ==> (#[trigger] r@[i])@ == spec_render(self@.audit[i]),
    {
        self.audit.get_logs()
    }

    /// A fresh host resource snapshot: figures are re-read on every call,
    /// never cached, and the memory percentage follows `spec_mem_pct`. The
    /// kernel's logical state is untouched.
    pub fn get_resources(&mut self) -> (r: ResourceSnapshot)
        requires
            old(self).wf(),
        ensures
            final(self).wf(),
            final(self)@ == old(self)@,
            r.memory_used_pct == spec_mem_pct(r.memory_total_bytes, r.memory_used_bytes),
            r.memory_used_pct <= 100,
    {
        self.resources.get_stats()
    }

    /// Whether `module_id` holds `permission`: a direct capability-set
    /// membership query, default-deny.
    pub fn check_permission(&self, module_id: &str, permission: Permission) -> (r: bool)
        requires
            self.wf(),
        ensures
            r == spec_allowed(self@.perms, module_id@, permission),
    {
        self.permissions.check(module_id, permission)
    }

    /// The index of the mailbox owned by `owner`, if one exists.
    fn find_mailbox(&self, owner: &str) -> (r: Option<usize>)
        requires
            self.wf(),
        ensures
            match r {
                Some(i) => i < self.mailboxes@.len() && self.mailboxes@[i as int]@.owner == owner@
                    && self@.mailboxes.contains_key(owner@) && self@.mailboxes[owner@]
                    == self.mailboxes@[i as int]@,
                None => !self@.mailboxes.contains_key(owner@),
            },
    {
        proof {
            lemma_mb_map(self.mailboxes@);
        }
        let n = self.mailboxes.len();
        let mut i: usize = 0;
        while i < n
            invariant
                self.wf(),
                n == self.mailboxes@.len(),
                i <= n,
                forall|j: int| 0 <= j < i ==> (#[trigger] self.mailboxes@[j])@.owner != owner@,
            decreases n - i,
        {
            if str_eq(self.mailboxes[i].owner_id().as_str(), owner) {
                proof {
                    lemma_mb_map(self.mailboxes@);
                }
                return Some(i);
            }
            i += 1;
        }
        None
    }

    /// Routes a message: the sender must hold `SendIpc`, the destination
    /// must own a mailbox, and the mailbox must have room. A full mailbox
    /// is a transient backpressure signal: the message is never dropped or
    /// overwritten, the caller retries. A delivered message is appended at
    /// the back of the destination's queue, so messages from one sender to
    /// one recipient arrive in send order, and one `ipc_send` audit entry
    /// is recorded.
    pub fn ipc_send(&mut self, from: &str, to: &str, data: IpcMessage) -> (r: Result<
        (),
        KernelError,
    >)
        requires
            old(self).wf(),
        ensures
            final(self).wf(),
            old(self)@.audit.is_prefix_of(final(self)@.audit),
            match spec_send_outcome(old(self)@, from@, to@) {
                SendOutcome::Denied => (r matches Err(
                    KernelError::PermissionDenied { module, permission },
                ) && module@ == from@ && permission == Permission::SendIpc) && final(self)@ == old(self)@,
                SendOutcome::NotFound => (r matches Err(KernelError::ModuleNotFound)) && final(self)@ == old(self)@,
                SendOutcome::Full => (r matches Err(KernelError::MailboxFull)) && final(self)@
                    == old(self)@,
                SendOutcome::Delivered => (r matches Ok(u)) && (exists|ts: Seq<char>|
                    final(self)@ == #[trigger] spec_send(old(self)@, from@, to@, data@, ts)),
            },
    {
        if !self.permissions.check(from, Permission::SendIpc) {
            return Err(
                KernelError::PermissionDenied {
                    module: from.to_owned(),
                    permission: Permission::SendIpc,
                },
            );
        }
        match self.find_mailbox(to) {
            None => Err(KernelError::ModuleNotFound),
            Some(i) => {
                let ghost mailboxes0 = self.mailboxes@;
                let ghost dv = data@;
                let slot = vstd::std_specs::vec::vec_index_mut(&mut self.mailboxes, i);
                let queued = slot.enqueue(data);
                if queued {
                    let mut detail = from.to_owned();
                    detail.append(" -> ");
                    detail.append(to);
                    self.audit.log("ipc_send", detail.as_str());
                    proof {
                        lemma_mb_map_update(
                            mailboxes0,
                            i as int,
                            self.mailboxes@[i as int],
                        );
                        let ts = self@.audit.last().timestamp;
                        let v2 = spec_send(old(self)@, from@, to@, dv, ts);
                        assert(self@.mailboxes =~= v2.mailboxes);
                        assert(self@.audit =~= v2.audit);
                        assert(self@ == v2);
                        assert forall|k: Seq<char>|
                            self@.mailboxes.contains_key(k) <==> module_taken(self@, k) by {
                            assert(old(self)@.mailboxes.contains_key(k) <==> module_taken(
                                old(self)@,
                                k,
                            ));
                        }
                        assert(kernel_inv(self@));
                        crate::security::lemma_log_extends(old(self)@.audit, self@.audit);
                    }
                    Ok(())
                } else {
                    proof {
                        lemma_mb_map_update(
                            mailboxes0,
                            i as int,
                            self.mailboxes@[i as int],
                        );
                        assert(self@.mailboxes =~= old(self)@.mailboxes);
                        assert(self@ == old(self)@);
                    }
                    Err(KernelError::MailboxFull)
                }
            },
        }
    }

    /// Runs a code unit in the sandbox on behalf of `module_id`, which must
    /// hold `RunSandbox`. On success the sandbox's result text is returned
    /// and one `sandbox_run` audit entry names the module; a rejected or
    /// faulting unit is reported as a structured error and changes nothing.
    pub fn run_wasm(&mut self, module_id: &str, wasm_data: &[u8], args: Vec<String>) -> (r: Result<
        String,
        KernelError,
    >)
        requires
            old(self).wf(),
        ensures
            final(self).wf(),
            old(self)@.audit.is_prefix_of(final(self)@.audit),
            !spec_allowed(old(self)@.perms, module_id@, Permission::RunSandbox) ==> (r matches Err(
                KernelError::PermissionDenied { module, permission },
            ) && module@ == module_id@ && permission == Permission::RunSandbox) && final(self)@
                == old(self)@,
            spec_allowed(old(self)@.perms, module_id@, Permission::RunSandbox) ==> match r {
                Ok(s) => (s@ == no_result_text() || (exists|n: int|
                    s@ == #[trigger] run_result_text(n) && i32::MIN <= n <= i32::MAX)) && (
                exists|ts: Seq<char>|
                    final(self)@ == #[trigger] spec_run_ok(old(self)@, module_id@, ts)),
                Err(e) => ((e matches KernelError::SandboxCompileError { reason }) || (
                e matches KernelError::SandboxTrapError { reason })) && final(self)@ == old(self)@,
            },
    {
        if !self.permissions.check(module_id, Permission::RunSandbox) {
            return Err(
                KernelError::PermissionDenied {
                    module: module_id.to_owned(),
                    permission: Permission::RunSandbox,
                },
            );
        }
        match self.wasm.execute(wasm_data, args) {
            Ok(out) => {
                self.audit.log("sandbox_run", module_id);
                proof {
                    let ts = self@.audit.last().timestamp;
                    assert(self@.audit =~= spec_run_ok(old(self)@, module_id@, ts).audit);
                    assert(self@ == spec_run_ok(old(self)@, module_id@, ts));
                    lemma_inv_same_tables(old(self)@, self@);
                    crate::security::lemma_log_extends(old(self)@.audit, self@.audit);
                }
                Ok(out)
            },
            Err(SandboxError::Compile { reason }) => Err(
                KernelError::SandboxCompileError { reason },
            ),
            Err(SandboxError::Trap { reason }) => Err(KernelError::SandboxTrapError { reason }),
        }
    }

    /// Grants `permission` to `module_id`: an idempotent union-add on its
    /// capability set. Nothing else changes.
    pub fn grant(&mut self, module_id: &str, permission: Permission)
        requires
            old(self).wf(),
        ensures
            final(self).wf(),
            final(self)@ == (KernelView {
                perms: spec_grant(old(self)@.perms, module_id@, permission),
                ..old(self)@
            }),
    {
        self.permissions.grant(module_id, permission);
        proof {
            lemma_inv_same_tables(old(self)@, final(self)@);
        }
    }

    /// Revokes `permission` from `module_id`: idempotent removal from its
    /// capability set. Nothing else changes.
    pub fn revoke(&mut self, module_id: &str, permission: Permission)
        requires
            old(self).wf(),
        ensures
            final(self).wf(),
            final(self)@ == (KernelView {
                perms: spec_revoke(old(self)@.perms, module_id@, permission),
                ..old(self)@
            }),
    {
        self.permissions.revoke(module_id, permission);
        proof {
            lemma_inv_same_tables(old(self)@, final(self)@);
        }
    }
}

/// Sending to a recipient that was never spawned fails with
/// `ModuleNotFound`: in every state, a recipient id with no module record
/// owns no mailbox, so a sender holding `SendIpc` is told the module does
/// not exist. (A sender without `SendIpc` is denied before the destination
/// is looked up, so that case is excluded here.)
pub proof fn lemma_send_to_unspawned(v: KernelView, from: Seq<char>, to: Seq<char>)
    requires
        kernel_inv(v),
        spec_allowed(v.perms, from, Permission::SendIpc),
        !module_taken(v, to),
    ensures
        spec_send_outcome(v, from, to) == SendOutcome::NotFound,
{
}

/// A freshly spawned module starts with the empty capability set: spawning
/// under a fresh id leaves the capability map untouched and the id outside
/// it, so every capability query on the new module is denied — in
/// particular `RunSandbox`, so a sandbox run is refused until a grant.
pub proof fn lemma_fresh_spawn_default_deny(
    v: KernelView,
    id: Seq<char>,
    name: Seq<char>,
    kind: ModuleKindView,
    ts: Seq<char>,
    p: Permission,
)
    requires
        id_fresh(v, id),
    ensures
        !spec_allowed(spec_spawn(v, id, name, kind, ts).perms, id, p),
{
}

/// Pausing then resuming a registered module leaves its status `Running`.
pub proof fn lemma_pause_resume_running(
    v: KernelView,
    id: Seq<char>,
    ts1: Seq<char>,
    ts2: Seq<char>,
)
    requires
        module_taken(v, id),
    ensures
        status_of(spec_resume(spec_pause(v, id, ts1), id, ts2), id) == Some(
            ModuleStatus::Running,
        ),
{
    let v1 = spec_pause(v, id, ts1);
    let v2 = spec_resume(v1, id, ts2);
    let i = choose|i: int| 0 <= i < v.modules.len() && v.modules[i].id == id;
    assert(v1.modules[i].id == id);
    assert(v2.modules[i].id == id);
    assert(module_taken(v2, id));
    let j = choose|j: int| 0 <= j < v2.modules.len() && v2.modules[j].id == id;
    assert(v1.modules[j].id == id);
    assert(v2.modules[j].status == ModuleStatus::Running);
}

/// Spawning under a fresh id preserves the kernel invariant and registers
/// exactly that id, which no earlier module carries: every run of spawns
/// with fresh ids therefore yields pairwise-distinct ids, and the module
/// table's ids stay pairwise distinct in every reachable state.
pub proof fn lemma_spawn_fresh_distinct(
    v: KernelView,
    id: Seq<char>,
    name: Seq<char>,
    kind: ModuleKindView,
    ts: Seq<char>,
)
    requires
        kernel_inv(v),
        id_fresh(v, id),
    ensures
        kernel_inv(spec_spawn(v, id, name, kind, ts)),
        module_taken(spec_spawn(v, id, name, kind, ts), id),
        !module_taken(v, id),
        forall|k: Seq<char>|
            #[trigger] module_taken(spec_spawn(v, id, name, kind, ts), k) <==> (module_taken(v, k)
                || k == id),
{
    let v2 = spec_spawn(v, id, name, kind, ts);
    let n0 = v.modules.len() as int;
    assert(v2.modules[n0].id == id);
    assert forall|k: Seq<char>| #[trigger] module_taken(v2, k) <==> (module_taken(v, k) || k
        == id) by {
        if module_taken(v2, k) {
            let i = choose|i: int| 0 <= i < v2.modules.len() && v2.modules[i].id == k;
            if i < n0 {
                assert(v.modules[i].id == k);
                assert(module_taken(v, k));
            } else {
                assert(k == id);
            }
        }
        if module_taken(v, k) {
            let i = choose|i: int| 0 <= i < v.modules.len() && v.modules[i].id == k;
            assert(v2.modules[i].id == k);
            assert(module_taken(v2, k));
        }
    }
    assert forall|i: int, j: int|
        0 <= i < j < v2.modules.len() implies v2.modules[i].id != v2.modules[j].id by {
        if j < n0 {
            assert(v.modules[i].id != v.modules[j].id);
        } else {
            assert(v2.modules[i].id == v.modules[i].id);
            if v.modules[i].id == id {
                assert(module_taken(v, id));
            }
        }
    }
}

/// The audit trail only grows: every kernel transition leaves the old
/// trail a prefix of the new one. Its length is therefore monotonically
/// non-decreasing over any sequence of kernel operations, and an entry
/// present at one time is present, unchanged and in place, at every later
/// time.
pub proof fn lemma_audit_monotone(
    v: KernelView,
    id: Seq<char>,
    name: Seq<char>,
    kind: ModuleKindView,
    from: Seq<char>,
    to: Seq<char>,
    m: IpcMessageView,
    ts: Seq<char>,
)
    ensures
        v.audit.is_prefix_of(spec_spawn(v, id, name, kind, ts).audit),
        v.audit.is_prefix_of(spec_pause(v, id, ts).audit),
        v.audit.is_prefix_of(spec_resume(v, id, ts).audit),
        v.audit.is_prefix_of(spec_send(v, from, to, m, ts).audit),
        v.audit.is_prefix_of(spec_run_ok(v, id, ts).audit),
{
    let e1 = AuditEntryView { timestamp: ts, event: spawn_event(kind), details: name };
    assert(v.audit.push(e1).drop_last() =~= v.audit);
    crate::security::lemma_log_extends(v.audit, v.audit.push(e1));
    let e2 = AuditEntryView { timestamp: ts, event: "module_pause"@, details: id };
    assert(v.audit.push(e2).drop_last() =~= v.audit);
    crate::security::lemma_log_extends(v.audit, v.audit.push(e2));
    let e3 = AuditEntryView { timestamp: ts, event: "module_resume"@, details: id };
    assert(v.audit.push(e3).drop_last() =~= v.audit);
    crate::security::lemma_log_extends(v.audit, v.audit.push(e3));
    let e4 = AuditEntryView {
        timestamp: ts,
        event: "ipc_send"@,
        details: send_details(from, to),
    };
    assert(v.audit.push(e4).drop_last() =~= v.audit);
    crate::security::lemma_log_extends(v.audit, v.audit.push(e4));
    let e5 = AuditEntryView { timestamp: ts, event: "sandbox_run"@, details: id };
    assert(v.audit.push(e5).drop_last() =~= v.audit);
    crate::security::lemma_log_extends(v.audit, v.audit.push(e5));
}

} // verus!
