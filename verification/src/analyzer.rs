//! Keyword-based threat classification: an external collaborator of the
//! kernel that grades reported process behaviour and folds grades into a
//! bounded risk score.

use vstd::prelude::*;
use crate::text::{lower_of, lowercase, contains_sub, spec_contains};

verus! {

/// The severity grade of an observed event.
#[derive(Clone, Copy, Debug, PartialEq, Eq, Structural)]
pub enum ThreatLevel {
    Info,
    Low,
    Medium,
    High,
    Critical,
}

/// The category of an observed threat.
#[derive(Clone, Copy, Debug)]
pub enum ThreatType {
    UnauthorizedAccess,
    PortScan,
    MaliciousProcess,
    FileIntrusionAttempt,
    DDoS,
    PrivilegeEscalation,
    NetworkAnomaly,
    SystemResourceAbuse,
}

/// The reference picture of a healthy host: known processes, open ports,
/// files to protect, and the allow/deny lists.
#[derive(Debug)]
pub struct SecurityProfile {
    pub baseline_processes: Vec<String>,
    pub allowed_ports: Vec<u16>,
    pub critical_files: Vec<String>,
    pub whitelist: Vec<String>,
    pub blacklist: Vec<String>,
}

/// The case-folded behaviour text names a keyword of the worst grade.
pub open spec fn has_critical_keyword(b: Seq<char>) -> bool {
    ||| spec_contains(b, "worm"@)
    ||| spec_contains(b, "trojan"@)
    ||| spec_contains(b, "ransomware"@)
    ||| spec_contains(b, "backdoor"@)
}

/// The case-folded behaviour text names a suspicious keyword.
pub open spec fn has_suspicious_keyword(b: Seq<char>) -> bool {
    ||| spec_contains(b, "inject"@)
    ||| spec_contains(b, "hook"@)
    ||| spec_contains(b, "hijack"@)
    ||| spec_contains(b, "keylog"@)
    ||| spec_contains(b, "steal"@)
}

/// The grade assigned to a case-folded behaviour text: critical keywords
/// dominate suspicious ones, and text naming neither is low.
pub open spec fn spec_threat_level(b: Seq<char>) -> ThreatLevel {
    if has_critical_keyword(b) {
        ThreatLevel::Critical
    } else if has_suspicious_keyword(b) {
        ThreatLevel::High
    } else {
        ThreatLevel::Low
    }
}

/// The numeric weight of a grade.
pub open spec fn spec_level_score(level: ThreatLevel) -> int {
    match level {
        ThreatLevel::Critical => 100,
        ThreatLevel::High => 75,
        ThreatLevel::Medium => 50,
        ThreatLevel::Low => 25,
        ThreatLevel::Info => 0,
    }
}

/// The risk score of a grade observed `frequency` times with the given
/// `impact`: the scaled product, capped at 100.
pub open spec fn spec_risk_score(level: ThreatLevel, frequency: u32, impact: u32) -> int {
    let q = (spec_level_score(level) * frequency * impact) / 100;
    if q < 100 {
        q
    } else {
        100
    }
}

/// Grades behaviour text and folds grades into risk scores.
pub struct ThreatAnalyzer;

impl ThreatAnalyzer {
    /// Grades the reported behaviour of a process by keyword matching on
    /// its case-folded text. The process name does not influence the grade.
    pub fn analyze_behavior(process_name: &str, behavior: &str) -> (r: ThreatLevel)
        ensures
            r == spec_threat_level(lower_of(behavior@)),
    {
        let _ = process_name;
        let folded = lowercase(behavior);
        let text = folded.as_str();
        if contains_sub(text, "worm") || contains_sub(text, "trojan") || contains_sub(
            text,
            "ransomware",
        ) || contains_sub(text, "backdoor") {
            ThreatLevel::Critical
        } else if contains_sub(text, "inject") || contains_sub(text, "hook") || contains_sub(
            text,
            "hijack",
        ) || contains_sub(text, "keylog") || contains_sub(text, "steal") {
            ThreatLevel::High
        } else {
            ThreatLevel::Low
        }
    }

    /// The risk score of a grade: its weight times frequency and impact,
    /// scaled down by one hundred and capped at 100. The caller keeps the
    /// unscaled product within the machine word.
    pub fn calculate_risk_score(threat_level: &ThreatLevel, frequency: u32, impact: u32) -> (r:
        u32)
        requires
            spec_level_score(*threat_level) * frequency <= u32::MAX,
            spec_level_score(*threat_level) * frequency * impact <= u32::MAX,
        ensures
            r == spec_risk_score(*threat_level, frequency, impact),
    {
        let level_score: u32 = match threat_level {
            ThreatLevel::Critical => 100,
            ThreatLevel::High => 75,
            ThreatLevel::Medium => 50,
            ThreatLevel::Low => 25,
            ThreatLevel::Info => 0,
        };
        proof {
            assert(level_score * frequency * impact <= u32::MAX) by (nonlinear_arith)
                requires
                    level_score == spec_level_score(*threat_level),
                    spec_level_score(*threat_level) * frequency * impact <= u32::MAX,
            ;
        }
        let product: u32 = level_score * frequency * impact;
        let scaled: u32 = product / 100;
        if scaled < 100 {
            scaled
        } else {
            100
        }
    }
}

} // verus!
