//! The service-name registry: resolves string service names to capabilities
//! and registers local objects under a name.  The registry is a collaborator
//! of the core protocol, so its failures surface as a distinct error type
//! rather than as a `Status`.

use vstd::prelude::*;
use crate::binder::{IBinder, SlotView, Transport, spec_find_service};
use crate::class::Class;
use crate::status::{Exception, NulError, find_nul};

verus! {

/// Failure of a name-registry operation.
#[derive(Debug)]
pub enum ServiceManagerError {
    /// The registry's entry point could not be found in this process.  Never
    /// produced by the local registry model; kept for callers that bind to a
    /// platform registry.
    SymbolNotFound(&'static str),
    /// The service name contains an embedded nul character.
    InvalidString(NulError),
    /// The registry rejected the operation with an exception.
    RemoteException(Exception),
}

/// Whether a name is acceptable to the registry: no embedded nul characters.
pub open spec fn spec_valid_name(name: Seq<char>) -> bool {
    forall|j: int| 0 <= j < name.len() ==> name[j] != '\0'
}

/// The name registry over a local transport.
pub struct ServiceManager;

impl ServiceManager {
    /// Resolve a service name to a fresh strong handle.  Yields the
    /// registered capability exactly when the name is bound, its object is
    /// alive, and its strong count is not saturated; an unbound name, a dead
    /// service, or a saturated count yields absence.
    pub fn get_service<T: Class>(t: &mut Transport<T>, instance: &str) -> (r: Result<
        Option<IBinder>,
        ServiceManagerError,
    >)
        ensures
            final(t)@.links == old(t)@.links,
            final(t)@.services == old(t)@.services,
            final(t)@.calling_pid == old(t)@.calling_pid,
            final(t)@.calling_uid == old(t)@.calling_uid,
            if !spec_valid_name(instance@) {
                (r matches Err(e) && e matches ServiceManagerError::InvalidString(n)
                    && instance@[n.nul_position as int] == '\0') && final(t)@.slots == old(t)@.slots
            } else {
                match spec_find_service(old(t)@.services, instance@) {
                    Some(id) => {
                        if old(t)@.alive(id) && old(t)@.strong(id) < u64::MAX {
                            ({
                                &&& (r matches Ok(x) && x matches Some(h) && h@ == id)
                                &&& final(t)@.slots == old(t)@.slots.update(
                                    id,
                                    SlotView {
                                        strong: (old(t)@.strong(id) + 1) as u64,
                                        weak: old(t)@.weak(id),
                                        held: true,
                                        extension: old(t)@.extension(id),
                                    },
                                )
                            })
                        } else {
                            r == Ok::<Option<IBinder>, ServiceManagerError>(None) && final(t)@.slots == old(t)@.slots
                        }
                    },
                    None => {
                        r == Ok::<Option<IBinder>, ServiceManagerError>(None) && final(t)@.slots
                            == old(t)@.slots
                    },
                }
            },
    {
        if let Some(i) = find_nul(instance) {
            return Err(ServiceManagerError::InvalidString(NulError { nul_position: i }));
        }
        let name = instance.to_owned();
        let id = match t.find_service(&name) {
            Some(id) => id,
            None => {
                return Ok(None);
            },
        };
        let probe = IBinder::from_id(id);
        match probe.duplicate(t) {
            Ok(h) => Ok(Some(h)),
            Err(st) => Ok(None),
        }
    }

    /// Non-blocking resolution of a service name; in a local registry it
    /// behaves exactly as `get_service`.
    pub fn check_service<T: Class>(t: &mut Transport<T>, instance: &str) -> (r: Result<
        Option<IBinder>,
        ServiceManagerError,
    >)
        ensures
            final(t)@.links == old(t)@.links,
            final(t)@.services == old(t)@.services,
            final(t)@.calling_pid == old(t)@.calling_pid,
            final(t)@.calling_uid == old(t)@.calling_uid,
            if !spec_valid_name(instance@) {
                (r matches Err(e) && e matches ServiceManagerError::InvalidString(n)
                    && instance@[n.nul_position as int] == '\0') && final(t)@.slots == old(t)@.slots
            } else {
                match spec_find_service(old(t)@.services, instance@) {
                    Some(id) => {
                        if old(t)@.alive(id) && old(t)@.strong(id) < u64::MAX {
                            ({
                                &&& (r matches Ok(x) && x matches Some(h) && h@ == id)
                                &&& final(t)@.slots == old(t)@.slots.update(
                                    id,
                                    SlotView {
                                        strong: (old(t)@.strong(id) + 1) as u64,
                                        weak: old(t)@.weak(id),
                                        held: true,
                                        extension: old(t)@.extension(id),
                                    },
                                )
                            })
                        } else {
                            r == Ok::<Option<IBinder>, ServiceManagerError>(None) && final(t)@.slots == old(t)@.slots
                        }
                    },
                    None => {
                        r == Ok::<Option<IBinder>, ServiceManagerError>(None) && final(t)@.slots
                            == old(t)@.slots
                    },
                }
            },
    {
        ServiceManager::get_service(t, instance)
    }

    /// Register a live capability under a service name, replacing any earlier
    /// binding of that name.  A name with an embedded nul is rejected, and a
    /// dead capability is rejected with an `IllegalState` exception.
    pub fn add_service<T: Class>(t: &mut Transport<T>, instance: &str, binder: &IBinder) -> (r:
        Result<(), ServiceManagerError>)
        ensures
            final(t)@.slots == old(t)@.slots,
            final(t)@.links == old(t)@.links,
            final(t)@.calling_pid == old(t)@.calling_pid,
            final(t)@.calling_uid == old(t)@.calling_uid,
            if !spec_valid_name(instance@) {
                (r matches Err(e) && e matches ServiceManagerError::InvalidString(n)
                    && instance@[n.nul_position as int] == '\0') && final(t)@.services == old(t)@.services
            } else if !old(t)@.alive(binder@) {
                (r matches Err(e) && e matches ServiceManagerError::RemoteException(ex) && ex
                    == Exception::IllegalState) && final(t)@.services == old(t)@.services
            } else {
                ({
                    &&& r is Ok
                    &&& spec_find_service(final(t)@.services, instance@) == Some(binder@)
                    &&& forall|o: Seq<char>|
                        o != instance@ ==> #[trigger] spec_find_service(final(t)@.services, o)
                            == spec_find_service(old(t)@.services, o)
                })
            },
    {
        if let Some(i) = find_nul(instance) {
            return Err(ServiceManagerError::InvalidString(NulError { nul_position: i }));
        }
        if !binder.is_alive(t) {
            return Err(ServiceManagerError::RemoteException(Exception::IllegalState));
        }
        let name = instance.to_owned();
        t.register_service(&name, binder.id_value());
        Ok(())
    }
}

} // verus!
