//! Collection-level access-control decisions.
//!
//! A collection without a policy is not access controlled. Documents are
//! registered with the access-control service only when the collection has a
//! policy and the request carries an identity; otherwise they stay public.
//! Removing a policy or changing its resource name exposes previously
//! protected documents, which `check_policy_transition` warns about.

use vstd::prelude::*;
use vstd::string::StringExecFns;
use crate::schema::{CollectionVersion, PolicyDescription};
use crate::text::cat3;

verus! {

/// Result of checking a policy transition.
#[derive(Debug, PartialEq, Eq)]
pub enum PolicyTransitionCheck {
    /// Transition is safe (no documents at risk).
    Safe,
    /// Warning: documents may lose protection.
    Warning {
        /// Human-readable warning message.
        message: String,
        /// Number of registered documents that may be affected, when known.
        affected_doc_count: Option<usize>,
    },
}

impl PolicyTransitionCheck {
    /// Whether this is a safe transition.
    pub fn is_safe(&self) -> (res: bool)
        ensures
            res == (*self is Safe),
    {
        match self {
            PolicyTransitionCheck::Safe => true,
            _ => false,
        }
    }

    /// Whether this transition has a warning.
    pub fn has_warning(&self) -> (res: bool)
        ensures
            res == (*self is Warning),
    {
        match self {
            PolicyTransitionCheck::Warning { .. } => true,
            _ => false,
        }
    }

    /// The warning message, if any.
    pub fn warning_message(&self) -> (res: Option<&str>)
        ensures
            match *self {
                PolicyTransitionCheck::Safe => res is None,
                PolicyTransitionCheck::Warning { message, .. } => res matches Some(m) && m@ == message@,
            },
    {
        match self {
            PolicyTransitionCheck::Warning { message, .. } => Some(message.as_str()),
            PolicyTransitionCheck::Safe => None,
        }
    }
}

/// The warning for a policy transition, or `None` when the transition is safe.
pub open spec fn transition_warning(old: Option<PolicyDescription>, new: Option<PolicyDescription>) -> Option<Seq<char>> {
    match (old, new) {
        (None, _) => None,
        (Some(o), None) => Some("Removing policy '"@ + o.resource_name@
            + "' will make all documents in this collection public. Previously protected documents will become accessible to anyone."@),
        (Some(o), Some(n)) =>
            if o.resource_name@ != n.resource_name@ {
                Some("Changing resource name from '"@ + o.resource_name@ + "' to '"@ + n.resource_name@
                    + "' will orphan existing ACP registrations. Previously protected documents will become public under the new policy."@)
            } else if o.id@ != n.id@ {
                Some("Changing policy ID from '"@ + o.id@ + "' to '"@ + n.id@
                    + "' with same resource name. This may affect how permissions are evaluated."@)
            } else {
                None
            },
    }
}

/// Checks whether changing a collection's policy from `old_policy` to
/// `new_policy` is safe: removing a policy, or changing its resource name or
/// id, is warned about; adding a policy or keeping it is safe.
pub fn check_policy_transition(old_policy: Option<&PolicyDescription>, new_policy: Option<&PolicyDescription>) -> (res: PolicyTransitionCheck)
    ensures
        ({
            let o = match old_policy { Some(p) => Some(*p), None => None::<PolicyDescription> };
            let n = match new_policy { Some(p) => Some(*p), None => None::<PolicyDescription> };
            match transition_warning(o, n) {
                None => res is Safe,
                Some(w) => res matches PolicyTransitionCheck::Warning { message, affected_doc_count }
                    && message@ == w && affected_doc_count is None,
            }
        }),
{
    match (old_policy, new_policy) {
        (None, _) => PolicyTransitionCheck::Safe,
        (Some(old), None) => {
            let message = cat3("Removing policy '", old.resource_name.as_str(),
                "' will make all documents in this collection public. Previously protected documents will become accessible to anyone.");
            PolicyTransitionCheck::Warning { message, affected_doc_count: None }
        },
        (Some(old), Some(new)) => {
            if old.resource_name != new.resource_name {
                let mut message = cat3("Changing resource name from '", old.resource_name.as_str(), "' to '");
                message.append(new.resource_name.as_str());
                message.append("' will orphan existing ACP registrations. Previously protected documents will become public under the new policy.");
                PolicyTransitionCheck::Warning { message, affected_doc_count: None }
            } else if old.id != new.id {
                let mut message = cat3("Changing policy ID from '", old.id.as_str(), "' to '");
                message.append(new.id.as_str());
                message.append("' with same resource name. This may affect how permissions are evaluated.");
                PolicyTransitionCheck::Warning { message, affected_doc_count: None }
            } else {
                PolicyTransitionCheck::Safe
            }
        },
    }
}

/// What a document permission check needs.
#[derive(Debug)]
pub enum PermissionCheck<'a> {
    /// The collection has no policy: access control is not enforced.
    Allowed,
    /// Ask the access-control service under this policy.
    AskAcp(&'a PolicyDescription),
}

/// Decides how to check an identity's permission on a document of
/// `collection`: without a policy everything is allowed, otherwise the
/// access-control service decides under the collection's policy.
pub fn check_doc_permission(collection: &CollectionVersion) -> (res: PermissionCheck)
    ensures
        collection.policy is None ==> res is Allowed,
        collection.policy matches Some(p) ==> (res matches PermissionCheck::AskAcp(q) && *q == p),
{
    match &collection.policy {
        None => PermissionCheck::Allowed,
        Some(p) => PermissionCheck::AskAcp(p),
    }
}

/// Decides whether a newly created document is registered with the
/// access-control service: only when the collection has a policy and an
/// identity is given; otherwise the document stays public.
pub fn register_doc_if_needed<'a>(identity: Option<&'a String>, collection: &'a CollectionVersion)
    -> (res: Option<(&'a String, &'a PolicyDescription)>)
    ensures
        (collection.policy is Some && identity is Some) ==> (res matches Some((d, p))
            && *d == *identity->0 && *p == collection.policy->0),
        !(collection.policy is Some && identity is Some) ==> res is None,
{
    match (&collection.policy, identity) {
        (Some(p), Some(did)) => Some((did, p)),
        _ => None,
    }
}

/// Decides whether a deleted document's access-control relations must be
/// looked at: only when the collection has a policy (the caller then removes
/// them if the document is registered).
pub fn unregister_doc_if_needed(collection: &CollectionVersion) -> (res: Option<&PolicyDescription>)
    ensures
        collection.policy is None ==> res is None,
        collection.policy matches Some(p) ==> (res matches Some(q) && *q == p),
{
    match &collection.policy {
        None => None,
        Some(p) => Some(p),
    }
}

/// Subset of a collection's policy metadata sufficient for key-management
/// access-control checks.
#[derive(Debug, PartialEq, Eq)]
pub struct DocCollectionInfo {
    /// The collection id.
    pub collection_id: String,
    /// Policy id under which to check the permission.
    pub policy_id: String,
    /// Resource name within the policy.
    pub resource_name: String,
    /// Whether the collection is branchable.
    pub is_branchable: bool,
}

/// The policy metadata of the collection a document resolved to, or `None`
/// when the collection has no policy.
pub fn doc_collection_info(collection: &CollectionVersion) -> (res: Option<DocCollectionInfo>)
    ensures
        collection.policy is None ==> res is None,
        collection.policy matches Some(p) ==> (res matches Some(info)
            && info.collection_id@ == collection.collection_id@ && info.policy_id@ == p.id@
            && info.resource_name@ == p.resource_name@ && info.is_branchable == collection.is_branchable),
{
    match &collection.policy {
        None => None,
        Some(p) => Some(DocCollectionInfo {
            collection_id: collection.collection_id.clone(),
            policy_id: p.id.clone(),
            resource_name: p.resource_name.clone(),
            is_branchable: collection.is_branchable,
        }),
    }
}

} // verus!
