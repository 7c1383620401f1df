//! The unit-file grammar: a line-oriented recognizer that splits input
//! bytes into lines, classifies each line, and builds a parse tree of
//! rule-tagged, span-carrying nodes.
//!
//! A file is a sequence of lines separated by the line terminator. A line
//! is blank (spaces and tabs only), a comment (first byte `#`), a heading
//! (`[Name]`), or a directive (`Key=Value` with a non-empty key). Comments
//! and directives are only allowed after some heading. Any other line is a
//! syntax error.

use vstd::prelude::*;

verus! {

/// The line terminator byte (`\n`).
pub const NL: u8 = 10;

/// The rule kind attached to each node of the parse tree. One variant per
/// directive key the grammar knows, plus comments and a catch-all for
/// directives with an unrecognized key.
#[derive(Debug, Clone, Copy, PartialEq, Eq, Structural)]
pub enum Rule {
    Description,
    Documentation,
    Requires,
    Wants,
    BindsTo,
    Before,
    After,
    Conflicts,
    Condition,
    Assert,
    ConditionPathExists,
    ServiceType,
    ExecStart,
    StartPre,
    StartPost,
    Reload,
    ExecStop,
    StopPost,
    RestartSec,
    Restart,
    TimeoutSec,
    EnvironmentFile,
    KillMode,
    RestartPreventExitStatus,
    RuntimeDirectory,
    RuntimeDirectoryMode,
    Environment,
    StandardOutput,
    LimitNoFile,
    WantedBy,
    RequiredBy,
    Alias,
    Also,
    DefaultInstance,
    Comment,
    Unknown,
}

/// Compares two byte slices for equality.
pub fn eq_bytes(a: &[u8], b: &[u8]) -> (r: bool)
    ensures
        r == (a@ == b@),
{
    if a.len() != b.len() {
        assert(a@.len() != b@.len());
        return false;
    }
    let mut i: usize = 0;
    while i < a.len()
        invariant
            0 <= i <= a.len(),
            a@.len() == b@.len(),
            forall|j: int| 0 <= j < i ==> a@[j] == b@[j],
        decreases a.len() - i,
    {
        if a[i] != b[i] {
            return false;
        }
        i = i + 1;
    }
    proof {
        assert(a@ =~= b@);
    }
    true
}

/// The key `Description`.
pub open spec fn key_description() -> Seq<u8> {
    seq!['D' as u8, 'e' as u8, 's' as u8, 'c' as u8, 'r' as u8, 'i' as u8, 'p' as u8, 't' as u8, 'i' as u8, 'o' as u8, 'n' as u8]
}

/// The key `Documentation`.
pub open spec fn key_documentation() -> Seq<u8> {
    seq!['D' as u8, 'o' as u8, 'c' as u8, 'u' as u8, 'm' as u8, 'e' as u8, 'n' as u8, 't' as u8, 'a' as u8, 't' as u8, 'i' as u8, 'o' as u8, 'n' as u8]
}

/// The key `Requires`.
pub open spec fn key_requires() -> Seq<u8> {
    seq!['R' as u8, 'e' as u8, 'q' as u8, 'u' as u8, 'i' as u8, 'r' as u8, 'e' as u8, 's' as u8]
}

/// The key `Wants`.
pub open spec fn key_wants() -> Seq<u8> {
    seq!['W' as u8, 'a' as u8, 'n' as u8, 't' as u8, 's' as u8]
}

/// The key `BindsTo`.
pub open spec fn key_binds_to() -> Seq<u8> {
    seq!['B' as u8, 'i' as u8, 'n' as u8, 'd' as u8, 's' as u8, 'T' as u8, 'o' as u8]
}

/// The key `Before`.
pub open spec fn key_before() -> Seq<u8> {
    seq!['B' as u8, 'e' as u8, 'f' as u8, 'o' as u8, 'r' as u8, 'e' as u8]
}

/// The key `After`.
pub open spec fn key_after() -> Seq<u8> {
    seq!['A' as u8, 'f' as u8, 't' as u8, 'e' as u8, 'r' as u8]
}

/// The key `Conflicts`.
pub open spec fn key_conflicts() -> Seq<u8> {
    seq!['C' as u8, 'o' as u8, 'n' as u8, 'f' as u8, 'l' as u8, 'i' as u8, 'c' as u8, 't' as u8, 's' as u8]
}

/// The key `Condition`.
pub open spec fn key_condition() -> Seq<u8> {
    seq!['C' as u8, 'o' as u8, 'n' as u8, 'd' as u8, 'i' as u8, 't' as u8, 'i' as u8, 'o' as u8, 'n' as u8]
}

/// The key `Assert`.
pub open spec fn key_assert() -> Seq<u8> {
    seq!['A' as u8, 's' as u8, 's' as u8, 'e' as u8, 'r' as u8, 't' as u8]
}

/// The key `ConditionPathExists`.
pub open spec fn key_condition_path_exists() -> Seq<u8> {
    seq!['C' as u8, 'o' as u8, 'n' as u8, 'd' as u8, 'i' as u8, 't' as u8, 'i' as u8, 'o' as u8, 'n' as u8, 'P' as u8, 'a' as u8, 't' as u8, 'h' as u8, 'E' as u8, 'x' as u8, 'i' as u8, 's' as u8, 't' as u8, 's' as u8]
}

/// The key `Type`.
pub open spec fn key_service_type() -> Seq<u8> {
    seq!['T' as u8, 'y' as u8, 'p' as u8, 'e' as u8]
}

/// The key `ExecStart`.
pub open spec fn key_exec_start() -> Seq<u8> {
    seq!['E' as u8, 'x' as u8, 'e' as u8, 'c' as u8, 'S' as u8, 't' as u8, 'a' as u8, 'r' as u8, 't' as u8]
}

/// The key `ExecStartPre`.
pub open spec fn key_start_pre() -> Seq<u8> {
    seq!['E' as u8, 'x' as u8, 'e' as u8, 'c' as u8, 'S' as u8, 't' as u8, 'a' as u8, 'r' as u8, 't' as u8, 'P' as u8, 'r' as u8, 'e' as u8]
}

/// The key `ExecStartPost`.
pub open spec fn key_start_post() -> Seq<u8> {
    seq!['E' as u8, 'x' as u8, 'e' as u8, 'c' as u8, 'S' as u8, 't' as u8, 'a' as u8, 'r' as u8, 't' as u8, 'P' as u8, 'o' as u8, 's' as u8, 't' as u8]
}

/// The key `ExecReload`.
pub open spec fn key_reload() -> Seq<u8> {
    seq!['E' as u8, 'x' as u8, 'e' as u8, 'c' as u8, 'R' as u8, 'e' as u8, 'l' as u8, 'o' as u8, 'a' as u8, 'd' as u8]
}

/// The key `ExecStop`.
pub open spec fn key_exec_stop() -> Seq<u8> {
    seq!['E' as u8, 'x' as u8, 'e' as u8, 'c' as u8, 'S' as u8, 't' as u8, 'o' as u8, 'p' as u8]
}

/// The key `ExecStopPost`.
pub open spec fn key_stop_post() -> Seq<u8> {
    seq!['E' as u8, 'x' as u8, 'e' as u8, 'c' as u8, 'S' as u8, 't' as u8, 'o' as u8, 'p' as u8, 'P' as u8, 'o' as u8, 's' as u8, 't' as u8]
}

/// The key `RestartSec`.
pub open spec fn key_restart_sec() -> Seq<u8> {
    seq!['R' as u8, 'e' as u8, 's' as u8, 't' as u8, 'a' as u8, 'r' as u8, 't' as u8, 'S' as u8, 'e' as u8, 'c' as u8]
}

/// The key `Restart`.
pub open spec fn key_restart() -> Seq<u8> {
    seq!['R' as u8, 'e' as u8, 's' as u8, 't' as u8, 'a' as u8, 'r' as u8, 't' as u8]
}

/// The key `TimeoutSec`.
pub open spec fn key_timeout_sec() -> Seq<u8> {
    seq!['T' as u8, 'i' as u8, 'm' as u8, 'e' as u8, 'o' as u8, 'u' as u8, 't' as u8, 'S' as u8, 'e' as u8, 'c' as u8]
}

/// The key `EnvironmentFile`.
pub open spec fn key_environment_file() -> Seq<u8> {
    seq!['E' as u8, 'n' as u8, 'v' as u8, 'i' as u8, 'r' as u8, 'o' as u8, 'n' as u8, 'm' as u8, 'e' as u8, 'n' as u8, 't' as u8, 'F' as u8, 'i' as u8, 'l' as u8, 'e' as u8]
}

/// The key `KillMode`.
pub open spec fn key_kill_mode() -> Seq<u8> {
    seq!['K' as u8, 'i' as u8, 'l' as u8, 'l' as u8, 'M' as u8, 'o' as u8, 'd' as u8, 'e' as u8]
}

/// The key `RestartPreventExitStatus`.
pub open spec fn key_restart_prevent_exit_status() -> Seq<u8> {
    seq!['R' as u8, 'e' as u8, 's' as u8, 't' as u8, 'a' as u8, 'r' as u8, 't' as u8, 'P' as u8, 'r' as u8, 'e' as u8, 'v' as u8, 'e' as u8, 'n' as u8, 't' as u8, 'E' as u8, 'x' as u8, 'i' as u8, 't' as u8, 'S' as u8, 't' as u8, 'a' as u8, 't' as u8, 'u' as u8, 's' as u8]
}

/// The key `RuntimeDirectory`.
pub open spec fn key_runtime_directory() -> Seq<u8> {
    seq!['R' as u8, 'u' as u8, 'n' as u8, 't' as u8, 'i' as u8, 'm' as u8, 'e' as u8, 'D' as u8, 'i' as u8, 'r' as u8, 'e' as u8, 'c' as u8, 't' as u8, 'o' as u8, 'r' as u8, 'y' as u8]
}

/// The key `RuntimeDirectoryMode`.
pub open spec fn key_runtime_directory_mode() -> Seq<u8> {
    seq!['R' as u8, 'u' as u8, 'n' as u8, 't' as u8, 'i' as u8, 'm' as u8, 'e' as u8, 'D' as u8, 'i' as u8, 'r' as u8, 'e' as u8, 'c' as u8, 't' as u8, 'o' as u8, 'r' as u8, 'y' as u8, 'M' as u8, 'o' as u8, 'd' as u8, 'e' as u8]
}

/// The key `Environment`.
pub open spec fn key_environment() -> Seq<u8> {
    seq!['E' as u8, 'n' as u8, 'v' as u8, 'i' as u8, 'r' as u8, 'o' as u8, 'n' as u8, 'm' as u8, 'e' as u8, 'n' as u8, 't' as u8]
}

/// The key `StandardOutput`.
pub open spec fn key_standard_output() -> Seq<u8> {
    seq!['S' as u8, 't' as u8, 'a' as u8, 'n' as u8, 'd' as u8, 'a' as u8, 'r' as u8, 'd' as u8, 'O' as u8, 'u' as u8, 't' as u8, 'p' as u8, 'u' as u8, 't' as u8]
}

/// The key `LimitNOFILE`.
pub open spec fn key_limit_no_file() -> Seq<u8> {
    seq!['L' as u8, 'i' as u8, 'm' as u8, 'i' as u8, 't' as u8, 'N' as u8, 'O' as u8, 'F' as u8, 'I' as u8, 'L' as u8, 'E' as u8]
}

/// The key `WantedBy`.
pub open spec fn key_wanted_by() -> Seq<u8> {
    seq!['W' as u8, 'a' as u8, 'n' as u8, 't' as u8, 'e' as u8, 'd' as u8, 'B' as u8, 'y' as u8]
}

/// The key `RequiredBy`.
pub open spec fn key_required_by() -> Seq<u8> {
    seq!['R' as u8, 'e' as u8, 'q' as u8, 'u' as u8, 'i' as u8, 'r' as u8, 'e' as u8, 'd' as u8, 'B' as u8, 'y' as u8]
}

/// The key `Alias`.
pub open spec fn key_alias() -> Seq<u8> {
    seq!['A' as u8, 'l' as u8, 'i' as u8, 'a' as u8, 's' as u8]
}

/// The key `Also`.
pub open spec fn key_also() -> Seq<u8> {
    seq!['A' as u8, 'l' as u8, 's' as u8, 'o' as u8]
}

/// The key `DefaultInstance`.
pub open spec fn key_default_instance() -> Seq<u8> {
    seq!['D' as u8, 'e' as u8, 'f' as u8, 'a' as u8, 'u' as u8, 'l' as u8, 't' as u8, 'I' as u8, 'n' as u8, 's' as u8, 't' as u8, 'a' as u8, 'n' as u8, 'c' as u8, 'e' as u8]
}

/// The rule kind a directive key is classified as; keys the grammar
/// does not know map to `Rule::Unknown`.
pub open spec fn spec_key_rule(k: Seq<u8>) -> Rule {
    if k == key_description() {
        Rule::Description
    } else if k == key_documentation() {
        Rule::Documentation
    } else if k == key_requires() {
        Rule::Requires
    } else if k == key_wants() {
        Rule::Wants
    } else if k == key_binds_to() {
        Rule::BindsTo
    } else if k == key_before() {
        Rule::Before
    } else if k == key_after() {
        Rule::After
    } else if k == key_conflicts() {
        Rule::Conflicts
    } else if k == key_condition() {
        Rule::Condition
    } else if k == key_assert() {
        Rule::Assert
    } else if k == key_condition_path_exists() {
        Rule::ConditionPathExists
    } else if k == key_service_type() {
        Rule::ServiceType
    } else if k == key_exec_start() {
        Rule::ExecStart
    } else if k == key_start_pre() {
        Rule::StartPre
    } else if k == key_start_post() {
        Rule::StartPost
    } else if k == key_reload() {
        Rule::Reload
    } else if k == key_exec_stop() {
        Rule::ExecStop
    } else if k == key_stop_post() {
        Rule::StopPost
    } else if k == key_restart_sec() {
        Rule::RestartSec
    } else if k == key_restart() {
        Rule::Restart
    } else if k == key_timeout_sec() {
        Rule::TimeoutSec
    } else if k == key_environment_file() {
        Rule::EnvironmentFile
    } else if k == key_kill_mode() {
        Rule::KillMode
    } else if k == key_restart_prevent_exit_status() {
        Rule::RestartPreventExitStatus
    } else if k == key_runtime_directory() {
        Rule::RuntimeDirectory
    } else if k == key_runtime_directory_mode() {
        Rule::RuntimeDirectoryMode
    } else if k == key_environment() {
        Rule::Environment
    } else if k == key_standard_output() {
        Rule::StandardOutput
    } else if k == key_limit_no_file() {
        Rule::LimitNoFile
    } else if k == key_wanted_by() {
        Rule::WantedBy
    } else if k == key_required_by() {
        Rule::RequiredBy
    } else if k == key_alias() {
        Rule::Alias
    } else if k == key_also() {
        Rule::Also
    } else if k == key_default_instance() {
        Rule::DefaultInstance
    } else {
        Rule::Unknown
    }
}

/// Classifies a directive key exactly as `spec_key_rule` does.
pub fn key_rule(k: &[u8]) -> (r: Rule)
    ensures
        r == spec_key_rule(k@),
{
    let k_description: [u8; 11] = ['D' as u8, 'e' as u8, 's' as u8, 'c' as u8, 'r' as u8, 'i' as u8, 'p' as u8, 't' as u8, 'i' as u8, 'o' as u8, 'n' as u8];
    proof {
        assert(k_description@ =~= key_description());
    }
    if eq_bytes(k, k_description.as_slice()) {
        return Rule::Description;
    }
    let k_documentation: [u8; 13] = ['D' as u8, 'o' as u8, 'c' as u8, 'u' as u8, 'm' as u8, 'e' as u8, 'n' as u8, 't' as u8, 'a' as u8, 't' as u8, 'i' as u8, 'o' as u8, 'n' as u8];
    proof {
        assert(k_documentation@ =~= key_documentation());
    }
    if eq_bytes(k, k_documentation.as_slice()) {
        return Rule::Documentation;
    }
    let k_requires: [u8; 8] = ['R' as u8, 'e' as u8, 'q' as u8, 'u' as u8, 'i' as u8, 'r' as u8, 'e' as u8, 's' as u8];
    proof {
        assert(k_requires@ =~= key_requires());
    }
    if eq_bytes(k, k_requires.as_slice()) {
        return Rule::Requires;
    }
    let k_wants: [u8; 5] = ['W' as u8, 'a' as u8, 'n' as u8, 't' as u8, 's' as u8];
    proof {
        assert(k_wants@ =~= key_wants());
    }
    if eq_bytes(k, k_wants.as_slice()) {
        return Rule::Wants;
    }
    let k_binds_to: [u8; 7] = ['B' as u8, 'i' as u8, 'n' as u8, 'd' as u8, 's' as u8, 'T' as u8, 'o' as u8];
    proof {
        assert(k_binds_to@ =~= key_binds_to());
    }
    if eq_bytes(k, k_binds_to.as_slice()) {
        return Rule::BindsTo;
    }
    let k_before: [u8; 6] = ['B' as u8, 'e' as u8, 'f' as u8, 'o' as u8, 'r' as u8, 'e' as u8];
    proof {
        assert(k_before@ =~= key_before());
    }
    if eq_bytes(k, k_before.as_slice()) {
        return Rule::Before;
    }
    let k_after: [u8; 5] = ['A' as u8, 'f' as u8, 't' as u8, 'e' as u8, 'r' as u8];
    proof {
        assert(k_after@ =~= key_after());
    }
    if eq_bytes(k, k_after.as_slice()) {
        return Rule::After;
    }
    let k_conflicts: [u8; 9] = ['C' as u8, 'o' as u8, 'n' as u8, 'f' as u8, 'l' as u8, 'i' as u8, 'c' as u8, 't' as u8, 's' as u8];
    proof {
        assert(k_conflicts@ =~= key_conflicts());
    }
    if eq_bytes(k, k_conflicts.as_slice()) {
        return Rule::Conflicts;
    }
    let k_condition: [u8; 9] = ['C' as u8, 'o' as u8, 'n' as u8, 'd' as u8, 'i' as u8, 't' as u8, 'i' as u8, 'o' as u8, 'n' as u8];
    proof {
        assert(k_condition@ =~= key_condition());
    }
    if eq_bytes(k, k_condition.as_slice()) {
        return Rule::Condition;
    }
    let k_assert: [u8; 6] = ['A' as u8, 's' as u8, 's' as u8, 'e' as u8, 'r' as u8, 't' as u8];
    proof {
        assert(k_assert@ =~= key_assert());
    }
    if eq_bytes(k, k_assert.as_slice()) {
        return Rule::Assert;
    }
    let k_condition_path_exists: [u8; 19] = ['C' as u8, 'o' as u8, 'n' as u8, 'd' as u8, 'i' as u8, 't' as u8, 'i' as u8, 'o' as u8, 'n' as u8, 'P' as u8, 'a' as u8, 't' as u8, 'h' as u8, 'E' as u8, 'x' as u8, 'i' as u8, 's' as u8, 't' as u8, 's' as u8];
    proof {
        assert(k_condition_path_exists@ =~= key_condition_path_exists());
    }
    if eq_bytes(k, k_condition_path_exists.as_slice()) {
        return Rule::ConditionPathExists;
    }
    let k_service_type: [u8; 4] = ['T' as u8, 'y' as u8, 'p' as u8, 'e' as u8];
    proof {
        assert(k_service_type@ =~= key_service_type());
    }
    if eq_bytes(k, k_service_type.as_slice()) {
        return Rule::ServiceType;
    }
    let k_exec_start: [u8; 9] = ['E' as u8, 'x' as u8, 'e' as u8, 'c' as u8, 'S' as u8, 't' as u8, 'a' as u8, 'r' as u8, 't' as u8];
    proof {
        assert(k_exec_start@ =~= key_exec_start());
    }
    if eq_bytes(k, k_exec_start.as_slice()) {
        return Rule::ExecStart;
    }
    let k_start_pre: [u8; 12] = ['E' as u8, 'x' as u8, 'e' as u8, 'c' as u8, 'S' as u8, 't' as u8, 'a' as u8, 'r' as u8, 't' as u8, 'P' as u8, 'r' as u8, 'e' as u8];
    proof {
        assert(k_start_pre@ =~= key_start_pre());
    }
    if eq_bytes(k, k_start_pre.as_slice()) {
        return Rule::StartPre;
    }
    let k_start_post: [u8; 13] = ['E' as u8, 'x' as u8, 'e' as u8, 'c' as u8, 'S' as u8, 't' as u8, 'a' as u8, 'r' as u8, 't' as u8, 'P' as u8, 'o' as u8, 's' as u8, 't' as u8];
    proof {
        assert(k_start_post@ =~= key_start_post());
    }
    if eq_bytes(k, k_start_post.as_slice()) {
        return Rule::StartPost;
    }
    let k_reload: [u8; 10] = ['E' as u8, 'x' as u8, 'e' as u8, 'c' as u8, 'R' as u8, 'e' as u8, 'l' as u8, 'o' as u8, 'a' as u8, 'd' as u8];
    proof {
        assert(k_reload@ =~= key_reload());
    }
    if eq_bytes(k, k_reload.as_slice()) {
        return Rule::Reload;
    }
    let k_exec_stop: [u8; 8] = ['E' as u8, 'x' as u8, 'e' as u8, 'c' as u8, 'S' as u8, 't' as u8, 'o' as u8, 'p' as u8];
    proof {
        assert(k_exec_stop@ =~= key_exec_stop());
    }
    if eq_bytes(k, k_exec_stop.as_slice()) {
        return Rule::ExecStop;
    }
    let k_stop_post: [u8; 12] = ['E' as u8, 'x' as u8, 'e' as u8, 'c' as u8, 'S' as u8, 't' as u8, 'o' as u8, 'p' as u8, 'P' as u8, 'o' as u8, 's' as u8, 't' as u8];
    proof {
        assert(k_stop_post@ =~= key_stop_post());
    }
    if eq_bytes(k, k_stop_post.as_slice()) {
        return Rule::StopPost;
    }
    let k_restart_sec: [u8; 10] = ['R' as u8, 'e' as u8, 's' as u8, 't' as u8, 'a' as u8, 'r' as u8, 't' as u8, 'S' as u8, 'e' as u8, 'c' as u8];
    proof {
        assert(k_restart_sec@ =~= key_restart_sec());
    }
    if eq_bytes(k, k_restart_sec.as_slice()) {
        return Rule::RestartSec;
    }
    let k_restart: [u8; 7] = ['R' as u8, 'e' as u8, 's' as u8, 't' as u8, 'a' as u8, 'r' as u8, 't' as u8];
    proof {
        assert(k_restart@ =~= key_restart());
    }
    if eq_bytes(k, k_restart.as_slice()) {
        return Rule::Restart;
    }
    let k_timeout_sec: [u8; 10] = ['T' as u8, 'i' as u8, 'm' as u8, 'e' as u8, 'o' as u8, 'u' as u8, 't' as u8, 'S' as u8, 'e' as u8, 'c' as u8];
    proof {
        assert(k_timeout_sec@ =~= key_timeout_sec());
    }
    if eq_bytes(k, k_timeout_sec.as_slice()) {
        return Rule::TimeoutSec;
    }
    let k_environment_file: [u8; 15] = ['E' as u8, 'n' as u8, 'v' as u8, 'i' as u8, 'r' as u8, 'o' as u8, 'n' as u8, 'm' as u8, 'e' as u8, 'n' as u8, 't' as u8, 'F' as u8, 'i' as u8, 'l' as u8, 'e' as u8];
    proof {
        assert(k_environment_file@ =~= key_environment_file());
    }
    if eq_bytes(k, k_environment_file.as_slice()) {
        return Rule::EnvironmentFile;
    }
    let k_kill_mode: [u8; 8] = ['K' as u8, 'i' as u8, 'l' as u8, 'l' as u8, 'M' as u8, 'o' as u8, 'd' as u8, 'e' as u8];
    proof {
        assert(k_kill_mode@ =~= key_kill_mode());
    }
    if eq_bytes(k, k_kill_mode.as_slice()) {
        return Rule::KillMode;
    }
    let k_restart_prevent_exit_status: [u8; 24] = ['R' as u8, 'e' as u8, 's' as u8, 't' as u8, 'a' as u8, 'r' as u8, 't' as u8, 'P' as u8, 'r' as u8, 'e' as u8, 'v' as u8, 'e' as u8, 'n' as u8, 't' as u8, 'E' as u8, 'x' as u8, 'i' as u8, 't' as u8, 'S' as u8, 't' as u8, 'a' as u8, 't' as u8, 'u' as u8, 's' as u8];
    proof {
        assert(k_restart_prevent_exit_status@ =~= key_restart_prevent_exit_status());
    }
    if eq_bytes(k, k_restart_prevent_exit_status.as_slice()) {
        return Rule::RestartPreventExitStatus;
    }
    let k_runtime_directory: [u8; 16] = ['R' as u8, 'u' as u8, 'n' as u8, 't' as u8, 'i' as u8, 'm' as u8, 'e' as u8, 'D' as u8, 'i' as u8, 'r' as u8, 'e' as u8, 'c' as u8, 't' as u8, 'o' as u8, 'r' as u8, 'y' as u8];
    proof {
        assert(k_runtime_directory@ =~= key_runtime_directory());
    }
    if eq_bytes(k, k_runtime_directory.as_slice()) {
        return Rule::RuntimeDirectory;
    }
    let k_runtime_directory_mode: [u8; 20] = ['R' as u8, 'u' as u8, 'n' as u8, 't' as u8, 'i' as u8, 'm' as u8, 'e' as u8, 'D' as u8, 'i' as u8, 'r' as u8, 'e' as u8, 'c' as u8, 't' as u8, 'o' as u8, 'r' as u8, 'y' as u8, 'M' as u8, 'o' as u8, 'd' as u8, 'e' as u8];
    proof {
        assert(k_runtime_directory_mode@ =~= key_runtime_directory_mode());
    }
    if eq_bytes(k, k_runtime_directory_mode.as_slice()) {
        return Rule::RuntimeDirectoryMode;
    }
    let k_environment: [u8; 11] = ['E' as u8, 'n' as u8, 'v' as u8, 'i' as u8, 'r' as u8, 'o' as u8, 'n' as u8, 'm' as u8, 'e' as u8, 'n' as u8, 't' as u8];
    proof {
        assert(k_environment@ =~= key_environment());
    }
    if eq_bytes(k, k_environment.as_slice()) {
        return Rule::Environment;
    }
    let k_standard_output: [u8; 14] = ['S' as u8, 't' as u8, 'a' as u8, 'n' as u8, 'd' as u8, 'a' as u8, 'r' as u8, 'd' as u8, 'O' as u8, 'u' as u8, 't' as u8, 'p' as u8, 'u' as u8, 't' as u8];
    proof {
        assert(k_standard_output@ =~= key_standard_output());
    }
    if eq_bytes(k, k_standard_output.as_slice()) {
        return Rule::StandardOutput;
    }
    let k_limit_no_file: [u8; 11] = ['L' as u8, 'i' as u8, 'm' as u8, 'i' as u8, 't' as u8, 'N' as u8, 'O' as u8, 'F' as u8, 'I' as u8, 'L' as u8, 'E' as u8];
    proof {
        assert(k_limit_no_file@ =~= key_limit_no_file());
    }
    if eq_bytes(k, k_limit_no_file.as_slice()) {
        return Rule::LimitNoFile;
    }
    let k_wanted_by: [u8; 8] = ['W' as u8, 'a' as u8, 'n' as u8, 't' as u8, 'e' as u8, 'd' as u8, 'B' as u8, 'y' as u8];
    proof {
        assert(k_wanted_by@ =~= key_wanted_by());
    }
    if eq_bytes(k, k_wanted_by.as_slice()) {
        return Rule::WantedBy;
    }
    let k_required_by: [u8; 10] = ['R' as u8, 'e' as u8, 'q' as u8, 'u' as u8, 'i' as u8, 'r' as u8, 'e' as u8, 'd' as u8, 'B' as u8, 'y' as u8];
    proof {
        assert(k_required_by@ =~= key_required_by());
    }
    if eq_bytes(k, k_required_by.as_slice()) {
        return Rule::RequiredBy;
    }
    let k_alias: [u8; 5] = ['A' as u8, 'l' as u8, 'i' as u8, 'a' as u8, 's' as u8];
    proof {
        assert(k_alias@ =~= key_alias());
    }
    if eq_bytes(k, k_alias.as_slice()) {
        return Rule::Alias;
    }
    let k_also: [u8; 4] = ['A' as u8, 'l' as u8, 's' as u8, 'o' as u8];
    proof {
        assert(k_also@ =~= key_also());
    }
    if eq_bytes(k, k_also.as_slice()) {
        return Rule::Also;
    }
    let k_default_instance: [u8; 15] = ['D' as u8, 'e' as u8, 'f' as u8, 'a' as u8, 'u' as u8, 'l' as u8, 't' as u8, 'I' as u8, 'n' as u8, 's' as u8, 't' as u8, 'a' as u8, 'n' as u8, 'c' as u8, 'e' as u8];
    proof {
        assert(k_default_instance@ =~= key_default_instance());
    }
    if eq_bytes(k, k_default_instance.as_slice()) {
        return Rule::DefaultInstance;
    }
    Rule::Unknown
}


/// A space or tab byte.
pub open spec fn is_space_byte(b: u8) -> bool {
    b == 32 || b == 9
}

/// A blank line: empty, or spaces and tabs only.
pub open spec fn spec_is_blank(l: Seq<u8>) -> bool {
    forall|i: int| 0 <= i < l.len() ==> is_space_byte(#[trigger] l[i])
}

/// A comment line: first byte is `#`.
pub open spec fn spec_is_comment(l: Seq<u8>) -> bool {
    l.len() > 0 && l[0] == '#' as u8
}

/// A heading line: `[` + non-empty bracket-free name + `]`.
pub open spec fn spec_is_heading(l: Seq<u8>) -> bool {
    &&& l.len() >= 3
    &&& l[0] == '[' as u8
    &&& l[l.len() - 1] == ']' as u8
    &&& forall|i: int|
        1 <= i < l.len() - 1 ==> #[trigger] l[i] != '[' as u8 && l[i] != ']' as u8
}

/// Index of the first `=` in `l`, or `l.len()` if there is none.
pub open spec fn spec_eq_pos(l: Seq<u8>) -> int
    decreases l.len(),
{
    if l.len() == 0 {
        0
    } else if l[0] == '=' as u8 {
        0
    } else {
        1 + spec_eq_pos(l.drop_first())
    }
}

/// `spec_eq_pos` really is the position of the first `=`.
pub proof fn lemma_eq_pos(l: Seq<u8>)
    ensures
        0 <= spec_eq_pos(l) <= l.len(),
        spec_eq_pos(l) < l.len() ==> l[spec_eq_pos(l)] == '=' as u8,
        forall|i: int| 0 <= i < spec_eq_pos(l) ==> #[trigger] l[i] != '=' as u8,
        forall|i: int| 0 <= i < l.len() && #[trigger] l[i] == '=' as u8 ==> spec_eq_pos(l) <= i,
    decreases l.len(),
{
    if l.len() == 0 {
    } else if l[0] == '=' as u8 {
    } else {
        lemma_eq_pos(l.drop_first());
        assert(forall|i: int|
            1 <= i < l.len() ==> #[trigger] l[i] == l.drop_first()[i - 1]);
    }
}

/// A directive line: a non-empty key before the first `=`, not starting
/// like a blank, comment or heading line.
pub open spec fn spec_is_directive(l: Seq<u8>) -> bool {
    &&& l.len() > 0
    &&& !is_space_byte(l[0])
    &&& l[0] != '#' as u8
    &&& l[0] != '[' as u8
    &&& l[0] != '=' as u8
    &&& spec_eq_pos(l) < l.len()
}

/// The key of a directive line: everything before the first `=`.
pub open spec fn spec_key_of(l: Seq<u8>) -> Seq<u8> {
    l.take(spec_eq_pos(l))
}

/// A line the grammar accepts.
pub open spec fn spec_line_ok(l: Seq<u8>) -> bool {
    spec_is_blank(l) || spec_is_comment(l) || spec_is_heading(l) || spec_is_directive(l)
}

/// A line that may only appear under some section heading.
pub open spec fn spec_needs_section(l: Seq<u8>) -> bool {
    spec_is_comment(l) || spec_is_directive(l)
}

/// The rule kind of a comment or directive line.
pub open spec fn spec_line_rule(l: Seq<u8>) -> Rule {
    if spec_is_comment(l) {
        Rule::Comment
    } else {
        spec_key_rule(spec_key_of(l))
    }
}

/// How a single line is classified; `Bad` is a syntax error.
#[derive(Debug, Clone, Copy, PartialEq, Eq, Structural)]
pub enum LineClass {
    Blank,
    Comment,
    Heading,
    Directive,
    Bad,
}

/// Position of the first non-space byte, or `l.len()` if the line is blank.
fn first_nonspace(l: &Vec<u8>) -> (r: usize)
    ensures
        0 <= r <= l@.len(),
        forall|j: int| 0 <= j < r ==> is_space_byte(#[trigger] l@[j]),
        r < l@.len() ==> !is_space_byte(l@[r as int]),
        (r == l@.len()) == spec_is_blank(l@),
{
    let mut i: usize = 0;
    while i < l.len()
        invariant
            0 <= i <= l@.len(),
            forall|j: int| 0 <= j < i ==> is_space_byte(#[trigger] l@[j]),
        decreases l@.len() - i,
    {
        let b = l[i];
        if b != 32 && b != 9 {
            return i;
        }
        i = i + 1;
    }
    i
}

/// Position of the first `=`, or `l.len()` if there is none.
#[verifier::loop_isolation(false)]
fn find_eq(l: &Vec<u8>) -> (r: usize)
    ensures
        r == spec_eq_pos(l@),
{
    proof {
        lemma_eq_pos(l@);
    }
    let mut i: usize = 0;
    while i < l.len()
        invariant
            0 <= i <= l@.len(),
            forall|j: int| 0 <= j < i ==> #[trigger] l@[j] != '=' as u8,
        decreases l@.len() - i,
    {
        if l[i] == '=' as u8 {
            return i;
        }
        i = i + 1;
    }
    i
}

/// Classifies one line exactly as the grammar's spec predicates do.
#[verifier::loop_isolation(false)]
fn classify_line(l: &Vec<u8>) -> (r: LineClass)
    ensures
        (r == LineClass::Blank) == spec_is_blank(l@),
        (r == LineClass::Comment) == spec_is_comment(l@),
        (r == LineClass::Heading) == spec_is_heading(l@),
        (r == LineClass::Directive) == spec_is_directive(l@),
{
    let ns = first_nonspace(l);
    if ns == l.len() {
        return LineClass::Blank;
    }
    if ns > 0 {
        // an indented comment, heading or directive is refused
        return LineClass::Bad;
    }
    let b0 = l[0];
    if b0 == '#' as u8 {
        return LineClass::Comment;
    }
    if b0 == '[' as u8 {
        if l.len() < 3 || l[l.len() - 1] != ']' as u8 {
            return LineClass::Bad;
        }
        let mut i: usize = 1;
        while i < l.len() - 1
            invariant
                1 <= i <= l@.len() - 1,
                l@.len() >= 3,
                forall|j: int|
                    1 <= j < i ==> #[trigger] l@[j] != '[' as u8 && l@[j] != ']' as u8,
            decreases l@.len() - i,
        {
            let b = l[i];
            if b == '[' as u8 || b == ']' as u8 {
                return LineClass::Bad;
            }
            i = i + 1;
        }
        return LineClass::Heading;
    }
    if b0 == '=' as u8 {
        return LineClass::Bad;
    }
    let e = find_eq(l);
    if e < l.len() {
        LineClass::Directive
    } else {
        LineClass::Bad
    }
}

/// The input split at every line terminator; `n` terminators give `n + 1`
/// parts, so joining the parts back with the terminator restores the input.
pub open spec fn spec_split_lines(t: Seq<u8>) -> Seq<Seq<u8>>
    decreases t.len(),
{
    if t.len() == 0 {
        seq![Seq::empty()]
    } else if t[0] == NL {
        seq![Seq::<u8>::empty()] + spec_split_lines(t.drop_first())
    } else {
        let rest = spec_split_lines(t.drop_first());
        seq![seq![t[0]] + rest[0]] + rest.drop_first()
    }
}

/// Splitting yields at least one part, and no part contains a terminator.
pub proof fn lemma_split_lines_props(t: Seq<u8>)
    ensures
        spec_split_lines(t).len() >= 1,
        forall|i: int, j: int|
            0 <= i < spec_split_lines(t).len() && 0 <= j < spec_split_lines(t)[i].len()
                ==> #[trigger] spec_split_lines(t)[i][j] != NL,
    decreases t.len(),
{
    if t.len() == 0 {
    } else {
        lemma_split_lines_props(t.drop_first());
    }
}

/// Splits the input into lines.
#[verifier::loop_isolation(false)]
pub fn split_lines(input: &[u8]) -> (r: Vec<Vec<u8>>)
    ensures
        r.deep_view() == spec_split_lines(input@),
{
    let ghost whole = spec_split_lines(input@);
    let mut done: Vec<Vec<u8>> = Vec::new();
    let mut cur: Vec<u8> = Vec::new();
    let mut i: usize = 0;
    proof {
        lemma_split_lines_props(input@);
        assert(input@.skip(0) =~= input@);
        assert(done.deep_view() =~= Seq::<Seq<u8>>::empty());
        assert(whole =~~= done.deep_view() + seq![cur@ + whole[0]] + whole.drop_first());
    }
    while i < input.len()
        invariant
            0 <= i <= input@.len(),
            whole =~~= done.deep_view() + seq![cur@ + spec_split_lines(input@.skip(i as int))[0]]
                + spec_split_lines(input@.skip(i as int)).drop_first(),
        decreases input@.len() - i,
    {
        let ghost s_i = spec_split_lines(input@.skip(i as int));
        let ghost s_n = spec_split_lines(input@.skip(i + 1));
        proof {
            lemma_split_lines_props(input@.skip(i as int));
            lemma_split_lines_props(input@.skip(i + 1));
            assert(input@.skip(i as int).drop_first() =~= input@.skip(i + 1));
            assert(input@.skip(i as int)[0] == input@[i as int]);
        }
        let ghost pre = done.deep_view();
        let ghost precur = cur@;
        let b = input[i];
        if b == NL {
            proof {
                assert(s_i =~~= seq![Seq::<u8>::empty()] + s_n);
                assert(s_i.drop_first() =~~= s_n);
            }
            done.push(cur);
            cur = Vec::new();
            proof {
                assert(done.deep_view() =~~= pre.push(precur));
                assert(whole =~~= pre + seq![precur] + s_n);
                assert(whole =~~= done.deep_view() + seq![cur@ + s_n[0]] + s_n.drop_first());
            }
        } else {
            proof {
                assert(s_i =~~= seq![seq![b] + s_n[0]] + s_n.drop_first());
                assert(s_i.drop_first() =~~= s_n.drop_first());
                assert(s_i[0] =~= seq![b] + s_n[0]);
            }
            cur.push(b);
            proof {
                assert(cur@ + s_n[0] =~= precur + s_i[0]);
                assert(whole =~~= done.deep_view() + seq![cur@ + s_n[0]] + s_n.drop_first());
            }
        }
        i = i + 1;
    }
    proof {
        assert(input@.skip(i as int) =~= Seq::<u8>::empty());
    }
    let ghost pre = done.deep_view();
    let ghost precur = cur@;
    done.push(cur);
    proof {
        assert(done.deep_view() =~~= pre.push(precur));
        assert(precur + spec_split_lines(Seq::<u8>::empty())[0] =~= precur);
        assert(done.deep_view() =~~= whole);
    }
    done
}


/// A rule-tagged node of the parse tree, carrying the whole matched line
/// verbatim.
#[derive(Debug, Clone, PartialEq, Eq)]
pub struct PropNode {
    pub rule: Rule,
    pub span: Vec<u8>,
}

/// Mathematical value of a `PropNode`.
#[verifier::ext_equal]
pub struct PropView {
    pub rule: Rule,
    pub span: Seq<u8>,
}

impl View for PropNode {
    type V = PropView;

    open spec fn view(&self) -> PropView {
        PropView { rule: self.rule, span: self.span@ }
    }
}

impl DeepView for PropNode {
    type V = PropView;

    open spec fn deep_view(&self) -> PropView {
        self.view()
    }
}

/// A section of the parse tree: its heading line and its property nodes in
/// source order.
#[derive(Debug, Clone, PartialEq, Eq)]
pub struct SectionNode {
    pub head: Vec<u8>,
    pub props: Vec<PropNode>,
}

/// Mathematical value of a `SectionNode`.
#[verifier::ext_equal]
pub struct SectionView {
    pub head: Seq<u8>,
    pub props: Seq<PropView>,
}

impl View for SectionNode {
    type V = SectionView;

    open spec fn view(&self) -> SectionView {
        SectionView { head: self.head@, props: self.props.deep_view() }
    }
}

impl DeepView for SectionNode {
    type V = SectionView;

    open spec fn deep_view(&self) -> SectionView {
        self.view()
    }
}

/// The root of the parse tree: the sections in source order.
#[derive(Debug, Clone, PartialEq, Eq)]
pub struct FileNode {
    pub sections: Vec<SectionNode>,
}

impl View for FileNode {
    type V = Seq<SectionView>;

    open spec fn view(&self) -> Seq<SectionView> {
        self.sections.deep_view()
    }
}

/// How one classified line extends the sections built so far: a heading
/// starts a section, a comment or directive joins the latest one, a blank
/// line changes nothing.
pub open spec fn spec_sections_step(acc: Seq<SectionView>, l: Seq<u8>) -> Seq<SectionView> {
    if spec_is_blank(l) {
        acc
    } else if spec_is_heading(l) {
        acc.push(SectionView { head: l, props: Seq::empty() })
    } else if acc.len() == 0 {
        acc
    } else {
        let last = acc.last();
        acc.update(
            acc.len() - 1,
            SectionView {
                head: last.head,
                props: last.props.push(PropView { rule: spec_line_rule(l), span: l }),
            },
        )
    }
}

/// The sections that a sequence of lines adds onto those built so far.
pub open spec fn spec_sections_from(acc: Seq<SectionView>, lines: Seq<Seq<u8>>) -> Seq<SectionView>
    decreases lines.len(),
{
    if lines.len() == 0 {
        acc
    } else {
        spec_sections_step(spec_sections_from(acc, lines.drop_last()), lines.last())
    }
}

/// Folding lines splits over concatenation.
pub proof fn lemma_sections_from_concat(acc: Seq<SectionView>, a: Seq<Seq<u8>>, b: Seq<Seq<u8>>)
    ensures
        spec_sections_from(acc, a + b) == spec_sections_from(spec_sections_from(acc, a), b),
    decreases b.len(),
{
    if b.len() == 0 {
        assert(a + b =~= a);
    } else {
        lemma_sections_from_concat(acc, a, b.drop_last());
        assert((a + b).drop_last() =~= a + b.drop_last());
        assert((a + b).last() == b.last());
    }
}

/// The parse tree a sequence of lines builds.
pub open spec fn spec_sections(lines: Seq<Seq<u8>>) -> Seq<SectionView> {
    spec_sections_from(Seq::empty(), lines)
}

/// The parse tree of a whole input.
pub open spec fn spec_tree(t: Seq<u8>) -> Seq<SectionView> {
    spec_sections(spec_split_lines(t))
}

/// Some line before index `i` is a heading.
pub open spec fn spec_heading_before(lines: Seq<Seq<u8>>, i: int) -> bool {
    exists|j: int| 0 <= j < i && spec_is_heading(#[trigger] lines[j])
}

/// Line `i` is acceptable in its context.
pub open spec fn spec_line_valid_at(lines: Seq<Seq<u8>>, i: int) -> bool {
    spec_line_ok(lines[i]) && (spec_needs_section(lines[i]) ==> spec_heading_before(lines, i))
}

/// Every line is acceptable in its context.
pub open spec fn spec_lines_valid(lines: Seq<Seq<u8>>) -> bool {
    forall|i: int| 0 <= i < lines.len() ==> spec_line_valid_at(lines, i)
}

/// The grammar accepts the whole input.
pub open spec fn spec_valid(t: Seq<u8>) -> bool {
    spec_lines_valid(spec_split_lines(t))
}

/// What a syntax error reports about the offending line.
#[derive(Debug, Clone, Copy, PartialEq, Eq, Structural)]
pub enum SyntaxErrorKind {
    /// The line is not blank and not a comment, heading or directive.
    MalformedLine,
    /// A comment or directive stands before the first section heading.
    DirectiveOutsideSection,
}

/// A syntax error: the zero-based index of the first offending line, and
/// what is wrong with it.
#[derive(Debug, Clone, Copy, PartialEq, Eq, Structural)]
pub struct SyntaxError {
    pub line: usize,
    pub kind: SyntaxErrorKind,
}

/// `e` reports the first offending line of `lines`, with the right kind.
pub open spec fn spec_error_at(lines: Seq<Seq<u8>>, e: SyntaxError) -> bool {
    &&& 0 <= (e.line as int) < lines.len()
    &&& !spec_line_valid_at(lines, e.line as int)
    &&& forall|j: int| 0 <= j < e.line ==> spec_line_valid_at(lines, j)
    &&& e.kind == if !spec_line_ok(lines[e.line as int]) {
        SyntaxErrorKind::MalformedLine
    } else {
        SyntaxErrorKind::DirectiveOutsideSection
    }
}

/// The recognizer for the unit-file grammar.
pub struct SystemDParser;

impl SystemDParser {
    /// Runs the grammar over the input and builds the parse tree, or
    /// reports the first offending line.
    #[verifier::loop_isolation(false)]
    pub fn tokenize(input: &[u8]) -> (r: Result<FileNode, SyntaxError>)
        ensures
            r is Ok <==> spec_valid(input@),
            r matches Ok(tree) ==> tree@ == spec_tree(input@),
            r matches Err(e) ==> spec_error_at(spec_split_lines(input@), e),
    {
        let lines = split_lines(input);
        let ghost ldv = lines.deep_view();
        let mut sections: Vec<SectionNode> = Vec::new();
        let mut i: usize = 0;
        proof {
            assert(ldv.take(0) =~= Seq::<Seq<u8>>::empty());
            assert(sections.deep_view() =~= Seq::<SectionView>::empty());
        }
        while i < lines.len()
            invariant
                0 <= i <= lines@.len(),
                sections.deep_view() == spec_sections(ldv.take(i as int)),
                forall|j: int| 0 <= j < i ==> spec_line_valid_at(ldv, j),
                (sections@.len() > 0) == spec_heading_before(ldv, i as int),
            decreases lines@.len() - i,
        {
            proof {
                assert(ldv.take(i + 1).drop_last() =~= ldv.take(i as int));
                assert(ldv.take(i + 1).last() == ldv[i as int]);
                assert(lines@[i as int].deep_view() =~= lines@[i as int]@);
            }
            let ghost pre = sections.deep_view();
            let l = &lines[i];
            let c = classify_line(l);
            match c {
                LineClass::Blank => {},
                LineClass::Heading => {
                    let mut props: Vec<PropNode> = Vec::new();
                    let node = SectionNode { head: l.clone(), props };
                    proof {
                        assert(node.head@ =~= l@);
                        assert(node@.props =~= Seq::<PropView>::empty());
                    }
                    sections.push(node);
                    proof {
                        assert(sections.deep_view() =~~= pre.push(node@));
                        assert(sections.deep_view() =~~= spec_sections(ldv.take(i + 1)));
                        assert(spec_heading_before(ldv, i + 1));
                    }
                },
                LineClass::Comment | LineClass::Directive => {
                    if sections.len() == 0 {
                        let e = SyntaxError {
                            line: i,
                            kind: SyntaxErrorKind::DirectiveOutsideSection,
                        };
                        proof {
                            assert(!spec_line_valid_at(ldv, i as int));
                            assert(!spec_valid(input@));
                        }
                        return Err(e);
                    }
                    let rule = if matches!(c, LineClass::Comment) {
                        Rule::Comment
                    } else {
                        let e = find_eq(l);
                        proof {
                            lemma_eq_pos(l@);
                        }
                        let key = &l.as_slice()[0..e];
                        key_rule(key)
                    };
                    let prop = PropNode { rule, span: l.clone() };
                    proof {
                        assert(prop@ =~= PropView { rule: spec_line_rule(ldv[i as int]), span: ldv[i as int] });
                    }
                    let mut sec = match sections.pop() {
                        Some(s) => s,
                        None => {
                            proof {
                                assert(false);
                            }
                            SectionNode { head: Vec::new(), props: Vec::new() }
                        },
                    };
                    let ghost presec = sec@;
                    sec.props.push(prop);
                    proof {
                        assert(sec@.props =~~= presec.props.push(prop@));
                    }
                    sections.push(sec);
                    proof {
                        assert(sections.deep_view() =~~= pre.update(
                            pre.len() - 1,
                            SectionView { head: presec.head, props: presec.props.push(prop@) },
                        ));
                        assert(sections.deep_view() =~~= spec_sections(ldv.take(i + 1)));
                    }
                },
                LineClass::Bad => {
                    let e = SyntaxError { line: i, kind: SyntaxErrorKind::MalformedLine };
                    proof {
                        assert(!spec_line_ok(ldv[i as int]));
                        assert(!spec_line_valid_at(ldv, i as int));
                        assert(!spec_lines_valid(ldv));
                        assert(!spec_valid(input@));
                    }
                    return Err(e);
                },
            }
            i = i + 1;
        }
        proof {
            assert(ldv.take(i as int) =~= ldv);
            assert(spec_valid(input@));
        }
        Ok(FileNode { sections })
    }

    /// Runs only the grammar's recognition step over the input, building
    /// nothing: success exactly when `tokenize` would succeed.
    #[verifier::loop_isolation(false)]
    pub fn validate(input: &[u8]) -> (r: Result<(), SyntaxError>)
        ensures
            r is Ok <==> spec_valid(input@),
            r matches Err(e) ==> spec_error_at(spec_split_lines(input@), e),
    {
        let lines = split_lines(input);
        let ghost ldv = lines.deep_view();
        let mut seen_heading = false;
        let mut i: usize = 0;
        while i < lines.len()
            invariant
                0 <= i <= lines@.len(),
                forall|j: int| 0 <= j < i ==> spec_line_valid_at(ldv, j),
                seen_heading == spec_heading_before(ldv, i as int),
            decreases lines@.len() - i,
        {
            proof {
                assert(lines@[i as int].deep_view() =~= lines@[i as int]@);
            }
            let l = &lines[i];
            let c = classify_line(l);
            match c {
                LineClass::Blank => {},
                LineClass::Heading => {
                    seen_heading = true;
                    proof {
                        assert(spec_is_heading(ldv[i as int]));
                        assert(spec_heading_before(ldv, i + 1));
                    }
                },
                LineClass::Comment | LineClass::Directive => {
                    if !seen_heading {
                        proof {
                            assert(spec_needs_section(ldv[i as int]));
                            assert(!spec_line_valid_at(ldv, i as int));
                            assert(!spec_lines_valid(ldv));
                            assert(!spec_valid(input@));
                        }
                        return Err(
                            SyntaxError { line: i, kind: SyntaxErrorKind::DirectiveOutsideSection },
                        );
                    }
                },
                LineClass::Bad => {
                    proof {
                        assert(!spec_line_ok(ldv[i as int]));
                        assert(!spec_line_valid_at(ldv, i as int));
                        assert(!spec_lines_valid(ldv));
                        assert(!spec_valid(input@));
                    }
                    return Err(SyntaxError { line: i, kind: SyntaxErrorKind::MalformedLine });
                },
            }
            i = i + 1;
        }
        Ok(())
    }
}


/// The heading line of the unit section: `[Unit]`.
pub open spec fn unit_head() -> Seq<u8> {
    seq!['[' as u8, 'U' as u8, 'n' as u8, 'i' as u8, 't' as u8, ']' as u8]
}

/// The heading line of the service section: `[Service]`.
pub open spec fn service_head() -> Seq<u8> {
    seq!['[' as u8, 'S' as u8, 'e' as u8, 'r' as u8, 'v' as u8, 'i' as u8, 'c' as u8, 'e' as u8, ']' as u8]
}

/// The heading line of the install section: `[Install]`.
pub open spec fn install_head() -> Seq<u8> {
    seq!['[' as u8, 'I' as u8, 'n' as u8, 's' as u8, 't' as u8, 'a' as u8, 'l' as u8, 'l' as u8, ']' as u8]
}

/// The three known headings differ from each other and are well-formed
/// heading lines.
pub proof fn lemma_heads()
    ensures
        unit_head() != service_head(),
        unit_head() != install_head(),
        service_head() != install_head(),
        spec_is_heading(unit_head()),
        spec_is_heading(service_head()),
        spec_is_heading(install_head()),
        !spec_is_blank(unit_head()),
        !spec_is_blank(service_head()),
        !spec_is_blank(install_head()),
{
    assert(unit_head().len() != service_head().len());
    assert(service_head()[1] != install_head()[1]);
    assert(!is_space_byte(unit_head()[0]));
    assert(!is_space_byte(service_head()[0]));
    assert(!is_space_byte(install_head()[0]));
}

/// Which of the three modeled sections a heading introduces, carrying the
/// captured heading span.
#[derive(Debug, Clone, PartialEq, Eq)]
pub enum SectionType {
    Unit(Vec<u8>),
    Service(Vec<u8>),
    Install(Vec<u8>),
}

/// Recognizes the three modeled headings; any other heading is a section
/// the model does not cover.
pub fn section_type_of(head: &Vec<u8>) -> (r: Option<SectionType>)
    ensures
        (r is Some) == (head@ == unit_head() || head@ == service_head() || head@
            == install_head()),
        head@ == unit_head() ==> (r matches Some(SectionType::Unit(h)) && h@ == head@),
        head@ == service_head() ==> (r matches Some(SectionType::Service(h)) && h@ == head@),
        head@ == install_head() ==> (r matches Some(SectionType::Install(h)) && h@ == head@),
{
    proof {
        lemma_heads();
    }
    let h_unit: [u8; 6] = ['[' as u8, 'U' as u8, 'n' as u8, 'i' as u8, 't' as u8, ']' as u8];
    proof {
        assert(h_unit@ =~= unit_head());
    }
    if eq_bytes(head.as_slice(), h_unit.as_slice()) {
        return Some(SectionType::Unit(head.clone()));
    }
    let h_service: [u8; 9] = ['[' as u8, 'S' as u8, 'e' as u8, 'r' as u8, 'v' as u8, 'i' as u8, 'c' as u8, 'e' as u8, ']' as u8];
    proof {
        assert(h_service@ =~= service_head());
    }
    if eq_bytes(head.as_slice(), h_service.as_slice()) {
        return Some(SectionType::Service(head.clone()));
    }
    let h_install: [u8; 9] = ['[' as u8, 'I' as u8, 'n' as u8, 's' as u8, 't' as u8, 'a' as u8, 'l' as u8, 'l' as u8, ']' as u8];
    proof {
        assert(h_install@ =~= install_head());
    }
    if eq_bytes(head.as_slice(), h_install.as_slice()) {
        return Some(SectionType::Install(head.clone()));
    }
    None
}

} // verus!
