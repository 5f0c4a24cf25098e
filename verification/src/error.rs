//! Why a replica operation failed, as structured values.
//!
//! An error here names what went wrong and carries the data that made it go
//! wrong; [`ReplicaError::message`] renders exactly the sentence a person
//! sees. A caller can tell "no such ref" from "you may not do that" without
//! matching on prose.

use vstd::prelude::*;

use crate::text::same_text;

verus! {

/// A replica operation's failure.
#[derive(Debug)]
pub enum ReplicaError {
    /// Nothing here answers to that name.
    NotFound(NotFound),
    /// The caller may not do this: membership standing, admin gates, or a
    /// self-protection rule.
    Denied(Denied),
    /// The request itself is malformed.
    Invalid(Invalid),
    /// Well-formed and permitted, but it contradicts state that already exists.
    Conflict(Conflict),
    /// A multi-step ceremony refused a step.
    Ceremony(Box<Ceremony>),
    /// A failure from beneath the domain (persistence, encoding, crypto),
    /// carried as its already formatted chain.
    Internal(String),
}

/// Something was named that does not exist here.
#[derive(Debug)]
pub enum NotFound {
    Project { named: String },
    Label { named: String },
}

/// The caller lacks the standing this operation requires.
#[derive(Debug)]
pub enum Denied {
    /// A viewer tried to mutate space content.
    ViewOnly,
    /// An admin-gated membership operation, attempted without admin.
    NotAdmin(AdminAction),
    /// Agents hold no membership authority of their own.
    NotHuman,
    /// Removing yourself would strand the space.
    SelfRemoval,
    /// This device has not established an actor identity yet.
    NoActorIdentity { in_this_space: bool },
}

/// The admin-gated operations.
#[derive(Debug, Clone, Copy)]
pub enum AdminAction {
    AddMember,
    RemoveMember,
    RevokeInvite,
    RotateKey,
    DeleteIssue,
}

/// The request could not be understood.
#[derive(Debug)]
pub enum Invalid {
    /// A field that must carry text was empty.
    Empty { field: &'static str },
    /// A value was not the shape it must take.
    Malformed { what: &'static str },
    /// An edit that names no change.
    NothingToEdit,
}

/// The operation contradicts state that already exists.
#[derive(Debug)]
pub enum Conflict {
    InviteRedeemed,
    InviteRevoked,
    /// An issue-graph edge that would make a cycle or a self-reference.
    IssueGraph(GraphViolation),
}

#[derive(Debug, Clone, Copy)]
pub enum GraphViolation {
    SelfParent,
    SelfLink,
    Ancestor,
}

/// A ceremony step refused, with its operator-facing guidance verbatim.
#[derive(Debug)]
pub enum Ceremony {
    Refused { message: String },
}

pub open spec fn not_found_text(e: NotFound) -> Seq<char> {
    match e {
        NotFound::Project { named } => "no project matches '"@ + named@ + "'"@,
        NotFound::Label { named } => "no label matches '"@ + named@ + "'"@,
    }
}

pub open spec fn admin_text(a: AdminAction) -> Seq<char> {
    match a {
        AdminAction::AddMember => "only an admin can add members"@,
        AdminAction::RemoveMember => "only an admin can remove members"@,
        AdminAction::RevokeInvite => "only an admin can revoke an invite"@,
        AdminAction::RotateKey => "only an admin can rotate the key"@,
        AdminAction::DeleteIssue => "no content authority to delete issues (view-only or agent)"@,
    }
}

pub open spec fn denied_text(e: Denied) -> Seq<char> {
    match e {
        Denied::ViewOnly => "view-only: your membership grants no write access"@,
        Denied::NotAdmin(a) => admin_text(a),
        Denied::NotHuman => "only a human member can sponsor an agent"@,
        Denied::SelfRemoval => "refusing to remove yourself"@,
        Denied::NoActorIdentity { in_this_space } => if in_this_space {
            "this device has no actor identity in this space yet"@
        } else {
            "this device has no actor identity"@
        },
    }
}

pub open spec fn invalid_text(e: Invalid) -> Seq<char> {
    match e {
        Invalid::Empty { field } => if field@ == "title"@ {
            "title must not be empty"@
        } else if field@ == "comment"@ {
            "comment body must not be empty"@
        } else if field@ == "label"@ {
            "label name is required"@
        } else if field@ == "project"@ {
            "project name and key are required"@
        } else {
            field@ + " must not be empty"@
        },
        Invalid::Malformed { what } => what@,
        Invalid::NothingToEdit => "nothing to edit"@,
    }
}

pub open spec fn graph_text(v: GraphViolation) -> Seq<char> {
    match v {
        GraphViolation::SelfParent => "an issue cannot be its own parent"@,
        GraphViolation::SelfLink => "an issue cannot link to itself"@,
        GraphViolation::Ancestor => "that would make an issue its own ancestor"@,
    }
}

pub open spec fn conflict_text(e: Conflict) -> Seq<char> {
    match e {
        Conflict::InviteRedeemed => "invite already redeemed"@,
        Conflict::InviteRevoked => "this invite has been revoked"@,
        Conflict::IssueGraph(v) => graph_text(v),
    }
}

pub open spec fn ceremony_text(e: Ceremony) -> Seq<char> {
    match e {
        Ceremony::Refused { message } => message@,
    }
}

/// The sentence a person sees for an error.
pub open spec fn error_text(e: ReplicaError) -> Seq<char> {
    match e {
        ReplicaError::NotFound(x) => not_found_text(x),
        ReplicaError::Denied(x) => denied_text(x),
        ReplicaError::Invalid(x) => invalid_text(x),
        ReplicaError::Conflict(x) => conflict_text(x),
        ReplicaError::Ceremony(x) => ceremony_text(*x),
        ReplicaError::Internal(s) => s@,
    }
}


impl NotFound {
    pub fn message(&self) -> (r: String)
        ensures
            r@ == not_found_text(*self),
    {
        let (head, named) = match self {
            NotFound::Project { named } => (String::from_str("no project matches '"), named),
            NotFound::Label { named } => (String::from_str("no label matches '"), named),
        };
        let mut s = head;
        s.append(named.as_str());
        s.append("'");
        s
    }
}

impl Denied {
    pub fn message(&self) -> (r: String)
        ensures
            r@ == denied_text(*self),
    {
        match self {
            Denied::ViewOnly => String::from_str("view-only: your membership grants no write access"),
            Denied::NotAdmin(a) => match a {
                AdminAction::AddMember => String::from_str("only an admin can add members"),
                AdminAction::RemoveMember => String::from_str("only an admin can remove members"),
                AdminAction::RevokeInvite => String::from_str("only an admin can revoke an invite"),
                AdminAction::RotateKey => String::from_str("only an admin can rotate the key"),
                AdminAction::DeleteIssue => String::from_str(
                    "no content authority to delete issues (view-only or agent)",
                ),
            },
            Denied::NotHuman => String::from_str("only a human member can sponsor an agent"),
            Denied::SelfRemoval => String::from_str("refusing to remove yourself"),
            Denied::NoActorIdentity { in_this_space } => if *in_this_space {
                String::from_str("this device has no actor identity in this space yet")
            } else {
                String::from_str("this device has no actor identity")
            },
        }
    }
}

impl Invalid {
    pub fn message(&self) -> (r: String)
        ensures
            r@ == invalid_text(*self),
    {
        match self {
            Invalid::Empty { field } => {
                if same_text(field, "title") {
                    String::from_str("title must not be empty")
                } else if same_text(field, "comment") {
                    String::from_str("comment body must not be empty")
                } else if same_text(field, "label") {
                    String::from_str("label name is required")
                } else if same_text(field, "project") {
                    String::from_str("project name and key are required")
                } else {
                    let mut s = String::from_str(field);
                    s.append(" must not be empty");
                    s
                }
            },
            Invalid::Malformed { what } => String::from_str(what),
            Invalid::NothingToEdit => String::from_str("nothing to edit"),
        }
    }
}

impl Conflict {
    pub fn message(&self) -> (r: String)
        ensures
            r@ == conflict_text(*self),
    {
        match self {
            Conflict::InviteRedeemed => String::from_str("invite already redeemed"),
            Conflict::InviteRevoked => String::from_str("this invite has been revoked"),
            Conflict::IssueGraph(v) => match v {
                GraphViolation::SelfParent => String::from_str("an issue cannot be its own parent"),
                GraphViolation::SelfLink => String::from_str("an issue cannot link to itself"),
                GraphViolation::Ancestor => String::from_str(
                    "that would make an issue its own ancestor",
                ),
            },
        }
    }
}

impl Ceremony {
    pub fn message(&self) -> (r: String)
        ensures
            r@ == ceremony_text(*self),
    {
        match self {
            Ceremony::Refused { message } => message.clone(),
        }
    }
}

impl ReplicaError {
    /// A one-of-a-kind ceremony refusal carrying its own guidance.
    pub fn ceremony(message: &str) -> (r: ReplicaError)
        ensures
            r matches ReplicaError::Ceremony(c) && ceremony_text(*c) == message@,
    {
        ReplicaError::Ceremony(Box::new(Ceremony::Refused { message: String::from_str(message) }))
    }

    /// The sentence a person sees.
    pub fn message(&self) -> (r: String)
        ensures
            r@ == error_text(*self),
    {
        match self {
            ReplicaError::NotFound(e) => e.message(),
            ReplicaError::Denied(e) => e.message(),
            ReplicaError::Invalid(e) => e.message(),
            ReplicaError::Conflict(e) => e.message(),
            ReplicaError::Ceremony(e) => e.message(),
            ReplicaError::Internal(s) => s.clone(),
        }
    }
}

} // verus!
