//! The names under which a store keeps the domain's vocabularies.

use vstd::prelude::*;
use crate::enums::{TaskAction, TaskPriority, TaskStatus};
use crate::text::same_text;

verus! {

/// The stored name of an action.
pub open spec fn action_name(a: TaskAction) -> Seq<char> {
    match a {
        TaskAction::Create => "Create"@,
        TaskAction::Delete => "Delete"@,
        TaskAction::Update => "Update"@,
        TaskAction::RootChanged => "RootChanged"@,
    }
}

/// The stored name of a priority.
pub open spec fn priority_name(p: TaskPriority) -> Seq<char> {
    match p {
        TaskPriority::High => "High"@,
        TaskPriority::Low => "Low"@,
        TaskPriority::Normal => "Normal"@,
        TaskPriority::Urgent => "Urgent"@,
    }
}

/// The stored name of a status.
pub open spec fn status_name(s: TaskStatus) -> Seq<char> {
    match s {
        TaskStatus::Done => "Done"@,
        TaskStatus::Ongoing => "Ongoing"@,
        TaskStatus::Pending => "Pending"@,
        TaskStatus::Reserved => "Reserved"@,
    }
}

/// Whether `s` is the stored name of an action.
pub open spec fn names_action(s: Seq<char>) -> bool {
    exists|a: TaskAction| action_name(a) == s
}

/// Whether `s` is the stored name of a priority.
pub open spec fn names_priority(s: Seq<char>) -> bool {
    exists|p: TaskPriority| priority_name(p) == s
}

/// Whether `s` is the stored name of a status.
pub open spec fn names_status(s: Seq<char>) -> bool {
    exists|t: TaskStatus| status_name(t) == s
}

/// No two actions, no two priorities and no two statuses share a name: a
/// name stands for one value only.
pub proof fn lemma_names_are_distinct()
    ensures
        forall|a: TaskAction, b: TaskAction| action_name(a) == action_name(b) ==> a == b,
        forall|a: TaskPriority, b: TaskPriority| priority_name(a) == priority_name(b) ==> a == b,
        forall|a: TaskStatus, b: TaskStatus| status_name(a) == status_name(b) ==> a == b,
{
    reveal_strlit("Create");
    reveal_strlit("Delete");
    reveal_strlit("Update");
    reveal_strlit("RootChanged");
    reveal_strlit("High");
    reveal_strlit("Low");
    reveal_strlit("Normal");
    reveal_strlit("Urgent");
    reveal_strlit("Done");
    reveal_strlit("Ongoing");
    reveal_strlit("Pending");
    reveal_strlit("Reserved");
    assert forall|a: TaskAction, b: TaskAction| action_name(a) == action_name(b) implies a
        == b by {
        assert(action_name(a).len() == action_name(b).len());
        assert(action_name(a)[0] == action_name(b)[0]);
    }
    assert forall|a: TaskPriority, b: TaskPriority| priority_name(a) == priority_name(
        b,
    ) implies a == b by {
        assert(priority_name(a).len() == priority_name(b).len());
        assert(priority_name(a)[0] == priority_name(b)[0]);
    }
    assert forall|a: TaskStatus, b: TaskStatus| status_name(a) == status_name(b) implies a
        == b by {
        assert(status_name(a).len() == status_name(b).len());
        assert(status_name(a)[0] == status_name(b)[0]);
    }
}

/// The action that `s` names, if it names one.
pub fn find_action(s: &str) -> (r: Option<TaskAction>)
    ensures
        match r {
            Some(a) => action_name(a) == s@,
            None => forall|a: TaskAction| action_name(a) != s@,
        },
{
    if same_text(s, "Create") {
        Some(TaskAction::Create)
    } else if same_text(s, "Delete") {
        Some(TaskAction::Delete)
    } else if same_text(s, "Update") {
        Some(TaskAction::Update)
    } else if same_text(s, "RootChanged") {
        Some(TaskAction::RootChanged)
    } else {
        None
    }
}

/// The action that `s` names. The name must be that of an action.
pub fn action_from_str(s: &str) -> (a: TaskAction)
    requires
        names_action(s@),
    ensures
        action_name(a) == s@,
{
    match find_action(s) {
        Some(a) => a,
        None => {
            proof {
                let x = choose|x: TaskAction| action_name(x) == s@;
                assert(action_name(x) == s@);
            }
            unreached()
        },
    }
}

/// The name of an action.
pub fn action_to_str(a: TaskAction) -> (s: String)
    ensures
        s@ == action_name(a),
{
    match a {
        TaskAction::Create => "Create".to_owned(),
        TaskAction::Delete => "Delete".to_owned(),
        TaskAction::Update => "Update".to_owned(),
        TaskAction::RootChanged => "RootChanged".to_owned(),
    }
}

/// The priority that `s` names, if it names one.
pub fn find_priority(s: &str) -> (r: Option<TaskPriority>)
    ensures
        match r {
            Some(p) => priority_name(p) == s@,
            None => forall|p: TaskPriority| priority_name(p) != s@,
        },
{
    if same_text(s, "High") {
        Some(TaskPriority::High)
    } else if same_text(s, "Low") {
        Some(TaskPriority::Low)
    } else if same_text(s, "Normal") {
        Some(TaskPriority::Normal)
    } else if same_text(s, "Urgent") {
        Some(TaskPriority::Urgent)
    } else {
        None
    }
}

/// The priority that `s` names. The name must be that of a priority.
pub fn priority_from_str(s: &str) -> (p: TaskPriority)
    requires
        names_priority(s@),
    ensures
        priority_name(p) == s@,
{
    match find_priority(s) {
        Some(p) => p,
        None => {
            proof {
                let x = choose|x: TaskPriority| priority_name(x) == s@;
                assert(priority_name(x) == s@);
            }
            unreached()
        },
    }
}

/// The name of a priority.
pub fn priority_to_str(a: TaskPriority) -> (s: String)
    ensures
        s@ == priority_name(a),
{
    match a {
        TaskPriority::High => "High".to_owned(),
        TaskPriority::Low => "Low".to_owned(),
        TaskPriority::Normal => "Normal".to_owned(),
        TaskPriority::Urgent => "Urgent".to_owned(),
    }
}

/// The status that `s` names, if it names one.
pub fn find_status(s: &str) -> (r: Option<TaskStatus>)
    ensures
        match r {
            Some(t) => status_name(t) == s@,
            None => forall|t: TaskStatus| status_name(t) != s@,
        },
{
    if same_text(s, "Done") {
        Some(TaskStatus::Done)
    } else if same_text(s, "Ongoing") {
        Some(TaskStatus::Ongoing)
    } else if same_text(s, "Pending") {
        Some(TaskStatus::Pending)
    } else if same_text(s, "Reserved") {
        Some(TaskStatus::Reserved)
    } else {
        None
    }
}

/// The status that `s` names. The name must be that of a status.
pub fn status_from_str(s: &str) -> (t: TaskStatus)
    requires
        names_status(s@),
    ensures
        status_name(t) == s@,
{
    match find_status(s) {
        Some(t) => t,
        None => {
            proof {
                let x = choose|x: TaskStatus| status_name(x) == s@;
                assert(status_name(x) == s@);
            }
            unreached()
        },
    }
}

/// The name of a status.
pub fn status_to_str(a: TaskStatus) -> (s: String)
    ensures
        s@ == status_name(a),
{
    match a {
        TaskStatus::Done => "Done".to_owned(),
        TaskStatus::Ongoing => "Ongoing".to_owned(),
        TaskStatus::Pending => "Pending".to_owned(),
        TaskStatus::Reserved => "Reserved".to_owned(),
    }
}

} // verus!
