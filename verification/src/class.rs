//! Server-side dispatch: the `Class` trait binds an implementation type to a
//! stable interface name and a set of transaction entry points, under which
//! the transport invokes it for inbound calls and diagnostic dumps.
//!
//! The death-link state machine also lives here: the phase of a notification
//! link, its transitions, and the laws that a link fires at most once and
//! never after an explicit unlink.

use vstd::prelude::*;
use crate::parcel::Parcel;
use crate::status::Status;

verus! {

/// A server-side object implementation, bound to a stable interface name and
/// a transaction-handling entry point; registered objects may be invoked for
/// many transactions, so implementations carry no transaction state.
pub trait Class: Sized + Send + Sync {
    /// Stable interface identifier of this implementation type.
    fn interface_name() -> &'static str;

    /// Handle one inbound transaction: read arguments from `data`, write
    /// results into `reply` (absent for one-way calls).  An unrecognized code
    /// must fail with `UnknownTransaction`.
    fn on_transact(&self, code: u32, data: &mut Parcel, reply: &mut Option<Parcel>) -> Result<
        (),
        Status,
    >;

    /// Handle a diagnostic dump request by writing to `out`; fails with
    /// `UnknownTransaction` unless implemented.
    fn on_dump(&self, out: &mut Vec<u8>, args: &Vec<String>) -> Result<(), Status> {
        let _ = out;
        let _ = args;
        Err(Status::unknown_transaction())
    }
}

/// State of one death link.
#[derive(Copy, Clone, Debug, Eq, PartialEq, Structural)]
pub enum LinkPhase {
    /// Registered; the object has not died.
    Linked,
    /// The object died; the notification has not been delivered yet.
    NotifyPending,
    /// The notification was delivered; the callback is consumed.
    Fired,
    /// Explicitly unregistered; the callback can never run.
    Unlinked,
}

/// An event in the life of a death link.
#[derive(Copy, Clone, Debug, Eq, PartialEq, Structural)]
pub enum LinkEvent {
    /// The linked object was destroyed.
    ObjectDied,
    /// Delivery of a pending notification was attempted.
    Deliver,
    /// The link was explicitly unregistered.
    Unlink,
}

/// Transition of a link's phase on an event; the second component tells
/// whether the callback fires.
pub open spec fn link_step(p: LinkPhase, e: LinkEvent) -> (LinkPhase, bool) {
    match e {
        LinkEvent::ObjectDied => (
            if p == LinkPhase::Linked {
                LinkPhase::NotifyPending
            } else {
                p
            },
            false,
        ),
        LinkEvent::Deliver => if p == LinkPhase::NotifyPending {
            (LinkPhase::Fired, true)
        } else {
            (p, false)
        },
        LinkEvent::Unlink => (
            if p == LinkPhase::Fired {
                LinkPhase::Fired
            } else {
                LinkPhase::Unlinked
            },
            false,
        ),
    }
}

/// Number of times a link fires over a sequence of events.
pub open spec fn link_fire_count(p: LinkPhase, es: Seq<LinkEvent>) -> nat
    decreases es.len(),
{
    if es.len() == 0 {
        0
    } else {
        let step = link_step(p, es[0]);
        (if step.1 {
            1nat
        } else {
            0nat
        }) + link_fire_count(step.0, es.drop_first())
    }
}

/// A link in a consumed state never fires again.
proof fn lemma_consumed_never_fires(p: LinkPhase, es: Seq<LinkEvent>)
    requires
        p == LinkPhase::Fired || p == LinkPhase::Unlinked,
    ensures
        link_fire_count(p, es) == 0,
    decreases es.len(),
{
    if es.len() > 0 {
        lemma_consumed_never_fires(link_step(p, es[0]).0, es.drop_first());
    }
}

/// Law: over any sequence of events, a death link fires at most once.
pub proof fn lemma_death_fires_at_most_once(p: LinkPhase, es: Seq<LinkEvent>)
    ensures
        link_fire_count(p, es) <= 1,
    decreases es.len(),
{
    if es.len() > 0 {
        let step = link_step(p, es[0]);
        if step.1 {
            lemma_consumed_never_fires(step.0, es.drop_first());
        } else {
            lemma_death_fires_at_most_once(step.0, es.drop_first());
        }
    }
}

/// Law: after an explicit unlink, a death link never fires, whatever events
/// follow.
pub proof fn lemma_no_fire_after_unlink(p: LinkPhase, es: Seq<LinkEvent>)
    ensures
        link_fire_count(link_step(p, LinkEvent::Unlink).0, es) == 0,
{
    lemma_consumed_never_fires(link_step(p, LinkEvent::Unlink).0, es);
}

} // verus!
