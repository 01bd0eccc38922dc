//! What follows from the gossip engine's answer to a publish.
//!
//! Publishing while no peer of the mesh is subscribed to the topic is no
//! failure: the message goes nowhere, the local user is told so, and the
//! node carries on. Any other refusal ends the node.

use vstd::prelude::*;
use vstd::string::StringExecFns;

verus! {

/// The gossip engine's answer to a publish.
#[derive(Debug, PartialEq, Eq)]
pub enum PublishReport {
    /// The message was handed to the mesh.
    Accepted,
    /// No peer of the mesh is subscribed to the topic.
    InsufficientPeers,
    /// The engine refused the message for the reason given.
    Rejected { reason: String },
}

/// What a [`PublishReport`] holds, as mathematical values.
pub enum PublishReportView {
    Accepted,
    InsufficientPeers,
    Rejected { reason: Seq<char> },
}

impl View for PublishReport {
    type V = PublishReportView;

    open spec fn view(&self) -> PublishReportView {
        match *self {
            PublishReport::Accepted => PublishReportView::Accepted,
            PublishReport::InsufficientPeers => PublishReportView::InsufficientPeers,
            PublishReport::Rejected { reason } => PublishReportView::Rejected { reason: reason@ },
        }
    }
}

/// What the node does after a publish.
#[derive(Debug, PartialEq, Eq)]
pub enum PublishOutcome {
    /// Nothing: the message is on its way.
    Sent,
    /// It shows `text` to the local user and carries on.
    NoPeers { text: String },
    /// It stops, and gives `reason` as the cause.
    Failed { reason: String },
}

/// What a [`PublishOutcome`] holds, as mathematical values.
pub enum PublishOutcomeView {
    Sent,
    NoPeers { text: Seq<char> },
    Failed { reason: Seq<char> },
}

impl View for PublishOutcome {
    type V = PublishOutcomeView;

    open spec fn view(&self) -> PublishOutcomeView {
        match *self {
            PublishOutcome::Sent => PublishOutcomeView::Sent,
            PublishOutcome::NoPeers { text } => PublishOutcomeView::NoPeers { text: text@ },
            PublishOutcome::Failed { reason } => PublishOutcomeView::Failed { reason: reason@ },
        }
    }
}

/// Whether the node carries on after `outcome`.
pub open spec fn recoverable(outcome: PublishOutcomeView) -> bool {
    !(outcome is Failed)
}

/// The outcome that follows from `report`.
pub open spec fn outcome_of(report: PublishReportView) -> PublishOutcomeView {
    match report {
        PublishReportView::Accepted => PublishOutcomeView::Sent,
        PublishReportView::InsufficientPeers => PublishOutcomeView::NoPeers {
            text: "No peers available"@,
        },
        PublishReportView::Rejected { reason } => PublishOutcomeView::Failed { reason },
    }
}

/// Decides what follows from the gossip engine's answer to a publish: see
/// [`outcome_of`]. A publish without peers is recoverable.
pub fn publish_outcome(report: PublishReport) -> (outcome: PublishOutcome)
    ensures
        outcome@ == outcome_of(report@),
        report is InsufficientPeers ==> recoverable(outcome@) && outcome is NoPeers,
        recoverable(outcome@) <==> !(report is Rejected),
{
    match report {
        PublishReport::Accepted => PublishOutcome::Sent,
        PublishReport::InsufficientPeers => PublishOutcome::NoPeers {
            text: String::from_str("No peers available"),
        },
        PublishReport::Rejected { reason } => PublishOutcome::Failed { reason },
    }
}

} // verus!
