//! Append-only audit trail: every security-relevant kernel action is
//! recorded as a timestamped entry. No entry is ever removed or mutated
//! once written.

use vstd::prelude::*;
use vstd::string::StringExecFns;

verus! {

/// One audit record: a timestamp, an event tag, and a details string.
pub struct AuditEntry {
    pub timestamp: String,
    pub event: String,
    pub details: String,
}

/// The mathematical content of an audit record.
pub ghost struct AuditEntryView {
    pub timestamp: Seq<char>,
    pub event: Seq<char>,
    pub details: Seq<char>,
}

impl View for AuditEntry {
    type V = AuditEntryView;

    open spec fn view(&self) -> AuditEntryView {
        AuditEntryView { timestamp: self.timestamp@, event: self.event@, details: self.details@ }
    }
}

/// Relies on chrono::Local::now and DateTime::format: a wall-clock
/// timestamp rendered as text. Nothing is promised of the value, which
/// depends on the time of the call.
#[verifier::external_body]
fn now_stamp() -> (r: String)
{
    chrono::Local::now().format("%Y-%m-%d %H:%M:%S").to_string()
}

/// The rendered form of an audit record.
pub open spec fn spec_render(e: AuditEntryView) -> Seq<char> {
    "["@ + e.timestamp + "] "@ + e.event + ": "@ + e.details
}

/// Append-only, timestamped log of audit entries.
pub struct SecurityAudit {
    entries: Vec<AuditEntry>,
}

impl View for SecurityAudit {
    type V = Seq<AuditEntryView>;

    closed spec fn view(&self) -> Seq<AuditEntryView> {
        self.entries@.map_values(|e: AuditEntry| e@)
    }
}

impl SecurityAudit {
    /// An empty audit trail.
    pub fn new() -> (r: SecurityAudit)
        ensures
            r@ == Seq::<AuditEntryView>::empty(),
    {
        let r = SecurityAudit { entries: Vec::new() };
        proof {
            assert(r@ =~= Seq::<AuditEntryView>::empty());
        }
        r
    }

    /// Appends one entry, stamped with the current time. Every entry
    /// present before the call is still present, in place, after it.
    pub fn log(&mut self, event: &str, details: &str)
        ensures
            final(self)@.len() == old(self)@.len() + 1,
            final(self)@.drop_last() == old(self)@,
            final(self)@.last().event == event@,
            final(self)@.last().details == details@,
    {
        let stamp = now_stamp();
        let entry = AuditEntry {
            timestamp: stamp,
            event: event.to_owned(),
            details: details.to_owned(),
        };
        let ghost before = self.entries@;
        self.entries.push(entry);
        proof {
            assert(final(self)@ =~= before.map_values(|e: AuditEntry| e@).push(
                final(self).entries@.last()@,
            ));
            assert(final(self)@.drop_last() =~= old(self)@);
        }
    }

    /// The number of entries recorded so far.
    pub fn len(&self) -> (r: usize)
        ensures
            r == self@.len(),
    {
        self.entries.len()
    }

    /// A rendered copy of the whole trail, oldest first: entry `i` of the
    /// result is the rendered form of entry `i` of the log.
    pub fn get_logs(&self) -> (r: Vec<String>)
        ensures
            r@.len() == self@.len(),
            forall|i: int| 0 <= i < r@.len() ==> (#[trigger] r@[i])@ == spec_render(self@[i]),
    {
        let n = self.entries.len();
        let mut out: Vec<String> = Vec::new();
        let mut i: usize = 0;
        while i < n
            invariant
                n == self.entries@.len(),
                n == self@.len(),
                i <= n,
                out@.len() == i,
                forall|j: int| 0 <= j < i ==> (#[trigger] out@[j])@ == spec_render(self@[j]),
            decreases n - i,
        {
            let e = &self.entries[i];
            let mut line = String::from_str("[");
            line.append(e.timestamp.as_str());
            line.append("] ");
            line.append(e.event.as_str());
            line.append(": ");
            line.append(e.details.as_str());
            proof {
                assert(line@ == spec_render(self@[i as int]));
            }
            out.push(line);
            i += 1;
        }
        out
    }
}

/// Logging only appends: the old trail is a prefix of the new one, so the
/// length never decreases and no recorded entry is ever lost.
pub proof fn lemma_log_extends(before: Seq<AuditEntryView>, after: Seq<AuditEntryView>)
    requires
        after.len() == before.len() + 1,
        after.drop_last() == before,
    ensures
        before.is_prefix_of(after),
        after.len() >= before.len(),
        forall|i: int| 0 <= i < before.len() ==> after[i] == before[i],
{
    assert(after.drop_last() =~= after.subrange(0, before.len() as int));
    assert forall|i: int| 0 <= i < before.len() implies after[i] == before[i] by {
        assert(after.drop_last()[i] == before[i]);
    }
}

} // verus!
