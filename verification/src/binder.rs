//! The transport and its capability handles: the explicit, process-local
//! model of the transport collaborator — the object table with its strong and
//! weak counts, the death-link registry and the service-name registry — and
//! the strong and weak references to its objects, with the synchronous
//! transaction call, diagnostic dump and death notification.
//!
//! Each `IBinder` value stands for one unit of its object's strong count: it
//! is created only by an operation that increments the count, and it is given
//! up with `release`, which decrements it.  The object is destroyed, and
//! every linked death notification becomes pending, when the count reaches
//! zero — true destruction authority lives in the transport, never in a
//! handle.

use vstd::prelude::*;
use vstd::bytes::{lemma_auto_spec_u32_to_from_le_bytes, lemma_auto_spec_u64_to_from_le_bytes, spec_u64_to_le_bytes};
use crate::class::{Class, LinkEvent, LinkPhase, link_step};
use crate::parcel::{MAX_DATA_SIZE, Parcel, Read, spec_i32_enc, splice, lemma_splice_parts, lemma_splice_identity, lemma_i32_round_trip};
use crate::status::{Code, Status, spec_status_of_code};

verus! {

/// One object slot: its reference counts and, while it is alive, the
/// implementation object.
struct Slot<T> {
    strong: u64,
    weak: u64,
    object: Option<T>,
    extension: Option<usize>,
}

/// One registered death link.
struct LinkEntry {
    object: usize,
    phase: LinkPhase,
}

/// One name-registry entry.
struct ServiceEntry {
    name: String,
    object: usize,
}

/// Abstract value of an object slot.
pub ghost struct SlotView {
    pub strong: u64,
    pub weak: u64,
    /// Whether the slot still holds its implementation object.
    pub held: bool,
    /// Identity of the attached extension object, if one was set.
    pub extension: Option<int>,
}

/// Abstract value of a death link.
pub ghost struct LinkView {
    pub object: int,
    pub phase: LinkPhase,
}

/// Abstract value of a registry entry.
pub ghost struct ServiceView {
    pub name: Seq<char>,
    pub object: int,
}

/// Abstract value of a transport.
pub ghost struct TransportView {
    pub slots: Seq<SlotView>,
    pub links: Seq<LinkView>,
    pub services: Seq<ServiceView>,
    pub calling_pid: u32,
    pub calling_uid: u32,
}

impl TransportView {
    /// The identifier names an object of this transport.
    pub open spec fn valid(self, id: int) -> bool {
        0 <= id < self.slots.len()
    }

    /// The object has not been destroyed.
    pub open spec fn alive(self, id: int) -> bool {
        self.valid(id) && self.slots[id].strong > 0 && self.slots[id].held
    }

    /// Strong count of an object.
    pub open spec fn strong(self, id: int) -> u64 {
        self.slots[id].strong
    }

    /// Weak count of an object.
    pub open spec fn weak(self, id: int) -> u64 {
        self.slots[id].weak
    }

    /// Identity of an object's extension, if one was set.
    pub open spec fn extension(self, id: int) -> Option<int> {
        self.slots[id].extension
    }
}

/// First registry entry carrying a name, if any.
pub open spec fn spec_find_service(s: Seq<ServiceView>, name: Seq<char>) -> Option<int>
    decreases s.len(),
{
    if s.len() == 0 {
        None
    } else if s[0].name == name {
        Some(s[0].object)
    } else {
        spec_find_service(s.drop_first(), name)
    }
}

/// The process-local transport: the object table, the death-link registry
/// and the service-name registry for objects of one implementation type.
pub struct Transport<T> {
    slots: Vec<Slot<T>>,
    links: Vec<LinkEntry>,
    services: Vec<ServiceEntry>,
    calling_pid: u32,
    calling_uid: u32,
}

impl<T> View for Transport<T> {
    type V = TransportView;

    closed spec fn view(&self) -> TransportView {
        TransportView {
            slots: Seq::new(
                self.slots@.len(),
                |i: int|
                    SlotView {
                        strong: self.slots@[i].strong,
                        weak: self.slots@[i].weak,
                        held: self.slots@[i].object is Some,
                        extension: match self.slots@[i].extension {
                            Option::None => None,
                            Option::Some(e) => Some(e as int),
                        },
                    },
            ),
            links: Seq::new(
                self.links@.len(),
                |i: int|
                    LinkView {
                        object: self.links@[i].object as int,
                        phase: self.links@[i].phase,
                    },
            ),
            services: Seq::new(
                self.services@.len(),
                |i: int|
                    ServiceView {
                        name: self.services@[i].name@,
                        object: self.services@[i].object as int,
                    },
            ),
            calling_pid: self.calling_pid,
            calling_uid: self.calling_uid,
        }
    }
}

impl<T> Transport<T> {
    /// A fresh transport with no objects, no links and no registered
    /// services.  A local transport answers calling-identity queries with the
    /// identity given here.
    pub fn new_with_identity(calling_pid: u32, calling_uid: u32) -> (r: Transport<T>)
        ensures
            r@.slots == Seq::<SlotView>::empty(),
            r@.links == Seq::<LinkView>::empty(),
            r@.services == Seq::<ServiceView>::empty(),
            r@.calling_pid == calling_pid,
            r@.calling_uid == calling_uid,
    {
        let r = Transport {
            slots: Vec::new(),
            links: Vec::new(),
            services: Vec::new(),
            calling_pid,
            calling_uid,
        };
        proof {
            assert(r@.slots =~= Seq::<SlotView>::empty());
            assert(r@.links =~= Seq::<LinkView>::empty());
            assert(r@.services =~= Seq::<ServiceView>::empty());
        }
        r
    }

    /// A fresh transport with an anonymous calling identity.
    pub fn new() -> (r: Transport<T>)
        ensures
            r@.slots == Seq::<SlotView>::empty(),
            r@.links == Seq::<LinkView>::empty(),
            r@.services == Seq::<ServiceView>::empty(),
            r@.calling_pid == 0,
            r@.calling_uid == 0,
    {
        Transport::new_with_identity(0, 0)
    }
}

impl<T: Class> Transport<T> {
    /// Register a local object: a new slot with one strong reference, owned
    /// by the returned handle.
    pub fn new_binder(&mut self, object: T) -> (r: IBinder)
        ensures
            r@ == old(self)@.slots.len(),
            final(self)@.slots == old(self)@.slots.push(
                SlotView { strong: 1, weak: 0, held: true, extension: None },
            ),
            final(self)@.links == old(self)@.links,
            final(self)@.services == old(self)@.services,
            final(self)@.calling_pid == old(self)@.calling_pid,
            final(self)@.calling_uid == old(self)@.calling_uid,
    {
        let id = self.slots.len();
        self.slots.push(Slot { strong: 1, weak: 0, object: Some(object), extension: None });
        proof {
            assert(self@.slots =~= old(self)@.slots.push(
                SlotView { strong: 1, weak: 0, held: true, extension: None },
            ));
            assert(self@.links =~= old(self)@.links);
            assert(self@.services =~= old(self)@.services);
        }
        IBinder::from_id(id)
    }
}


/// Transaction flags.
pub enum Flags {
    /// Asynchronous call: does not wait for, nor produce, a reply.
    Oneway,
}

/// Whether a flag set asks for a one-way call.
pub open spec fn spec_is_oneway(flags: Seq<Flags>) -> bool {
    exists|i: int| 0 <= i < flags.len() && flags[i] is Oneway
}

/// The link slot named by a death link, as this transport sees it.
pub open spec fn spec_died_link(lv: LinkView, id: int) -> LinkView {
    if lv.object == id {
        LinkView { object: lv.object, phase: link_step(lv.phase, LinkEvent::ObjectDied).0 }
    } else {
        lv
    }
}

/// A strong capability handle.  Equality and ordering compare the identity of
/// the underlying object, not the wrapper.
#[derive(Debug, Ord, PartialOrd, Eq, PartialEq, Structural)]
pub struct IBinder {
    id: usize,
}

impl View for IBinder {
    type V = int;

    closed spec fn view(&self) -> int {
        self.id as int
    }
}

impl IBinder {
    pub(crate) fn from_id(id: usize) -> (r: IBinder)
        ensures
            r@ == id as int,
    {
        IBinder { id }
    }

    pub(crate) fn id_value(&self) -> (r: usize)
        ensures
            r as int == self@,
    {
        self.id
    }

    /// Identity of the caller a local transport answers with.
    pub fn get_calling_pid<T: Class>(t: &Transport<T>) -> (r: u32)
        ensures
            r == t@.calling_pid,
    {
        t.calling_pid
    }

    /// User identity of the caller a local transport answers with.
    pub fn get_calling_uid<T: Class>(t: &Transport<T>) -> (r: u32)
        ensures
            r == t@.calling_uid,
    {
        t.calling_uid
    }

    /// Whether the object this handle names has not been destroyed.
    pub fn is_alive<T: Class>(&self, t: &Transport<T>) -> (r: bool)
        ensures
            r == t@.alive(self@),
    {
        self.id < t.slots.len() && t.slots[self.id].strong > 0 && t.slots[self.id].object.is_some()
    }

    /// Whether the object lives in another process; never, in a local
    /// transport.
    pub fn is_remote<T: Class>(&self, t: &Transport<T>) -> (r: bool)
        ensures
            r == false,
    {
        let _ = t;
        false
    }

    /// Probe the object: succeeds exactly while it is alive.
    pub fn ping<T: Class>(&self, t: &Transport<T>) -> (r: Result<(), Status>)
        ensures
            t@.alive(self@) ==> r is Ok,
            !t@.alive(self@) ==> (r matches Err(st) && st@ == spec_status_of_code(
                Code::DeadObject,
            )),
    {
        if self.is_alive(t) {
            Ok(())
        } else {
            Err(Status::with_code(Code::DeadObject))
        }
    }

    /// Take one more unit of the strong count, yielding a second handle to
    /// the same object.
    pub fn duplicate<T: Class>(&self, t: &mut Transport<T>) -> (r: Result<IBinder, Status>)
        ensures
            final(t)@.links == old(t)@.links,
            final(t)@.services == old(t)@.services,
            final(t)@.calling_pid == old(t)@.calling_pid,
            final(t)@.calling_uid == old(t)@.calling_uid,
            if old(t)@.alive(self@) {
                if old(t)@.strong(self@) < u64::MAX {
                    ({
                        &&& (r matches Ok(h) && h@ == self@)
                        &&& final(t)@.slots == old(t)@.slots.update(
                            self@,
                            SlotView {
                                strong: (old(t)@.strong(self@) + 1) as u64,
                                weak: old(t)@.weak(self@),
                                held: true,
                                extension: old(t)@.extension(self@),
                            },
                        )
                    })
                } else {
                    ({
                        &&& (r matches Err(st) && st@ == spec_status_of_code(Code::NoMemory))
                        &&& final(t)@.slots == old(t)@.slots
                    })
                }
            } else {
                ({
                    &&& (r matches Err(st) && st@ == spec_status_of_code(Code::DeadObject))
                    &&& final(t)@.slots == old(t)@.slots
                })
            },
    {
        let id = self.id;
        if !self.is_alive(t) {
            return Err(Status::with_code(Code::DeadObject));
        }
        let strong = t.slots[id].strong;
        if strong == u64::MAX {
            return Err(Status::with_code(Code::NoMemory));
        }
        let mut e = t.slots.remove(id);
        e.strong = strong + 1;
        t.slots.insert(id, e);
        proof {
            assert(t@.slots =~= old(t)@.slots.update(
                id as int,
                SlotView {
                    strong: (old(t)@.strong(id as int) + 1) as u64,
                    weak: old(t)@.weak(id as int),
                    held: true,
                    extension: old(t)@.extension(id as int),
                },
            ));
            assert(t@.links =~= old(t)@.links);
            assert(t@.services =~= old(t)@.services);
        }
        Ok(IBinder { id })
    }

    /// Give up this handle's unit of the strong count.  When the last unit
    /// goes, the object is destroyed and every linked death notification
    /// becomes pending.
    pub fn release<T: Class>(self, t: &mut Transport<T>)
        ensures
            final(t)@.services == old(t)@.services,
            final(t)@.calling_pid == old(t)@.calling_pid,
            final(t)@.calling_uid == old(t)@.calling_uid,
            if old(t)@.alive(self@) {
                if old(t)@.strong(self@) > 1 {
                    ({
                        &&& final(t)@.slots == old(t)@.slots.update(
                            self@,
                            SlotView {
                                strong: (old(t)@.strong(self@) - 1) as u64,
                                weak: old(t)@.weak(self@),
                                held: true,
                                extension: old(t)@.extension(self@),
                            },
                        )
                        &&& final(t)@.links == old(t)@.links
                    })
                } else {
                    ({
                        &&& final(t)@.slots == old(t)@.slots.update(
                            self@,
                            SlotView {
                                strong: 0,
                                weak: old(t)@.weak(self@),
                                held: false,
                                extension: None,
                            },
                        )
                        &&& final(t)@.links.len() == old(t)@.links.len()
                        &&& forall|l: int|
                            0 <= l < old(t)@.links.len() ==> #[trigger] final(t)@.links[l]
                                == spec_died_link(old(t)@.links[l], self@)
                    })
                }
            } else {
                final(t)@.slots == old(t)@.slots && final(t)@.links == old(t)@.links
            },
    {
        let id = self.id;
        if !self.is_alive(t) {
            return;
        }
        let strong = t.slots[id].strong;
        let mut e = t.slots.remove(id);
        if strong > 1 {
            e.strong = strong - 1;
            t.slots.insert(id, e);
            proof {
                assert(t@.slots =~= old(t)@.slots.update(
                    id as int,
                    SlotView {
                        strong: (old(t)@.strong(id as int) - 1) as u64,
                        weak: old(t)@.weak(id as int),
                        held: true,
                        extension: old(t)@.extension(id as int),
                    },
                ));
                assert(t@.links =~= old(t)@.links);
                assert(t@.services =~= old(t)@.services);
            }
            return;
        }
        e.strong = 0;
        e.object = None;
        e.extension = None;
        t.slots.insert(id, e);
        proof {
            assert(t@.slots =~= old(t)@.slots.update(
                id as int,
                SlotView {
                    strong: 0,
                    weak: old(t)@.weak(id as int),
                    held: false,
                    extension: None,
                },
            ));
            assert(t@.services =~= old(t)@.services);
            assert(t@.links =~= old(t)@.links);
        }
        let n = t.links.len();
        let mut l: usize = 0;
        while l < n
            invariant
                n == t@.links.len(),
                t@.links.len() == old(t)@.links.len(),
                0 <= l <= n,
                forall|k: int|
                    0 <= k < l ==> #[trigger] t@.links[k] == spec_died_link(
                        old(t)@.links[k],
                        id as int,
                    ),
                forall|k: int| l <= k < n ==> #[trigger] t@.links[k] == old(t)@.links[k],
                t@.slots == old(t)@.slots.update(
                    id as int,
                    SlotView {
                        strong: 0,
                        weak: old(t)@.weak(id as int),
                        held: false,
                        extension: None,
                    },
                ),
                t@.services == old(t)@.services,
                t@.calling_pid == old(t)@.calling_pid,
                t@.calling_uid == old(t)@.calling_uid,
            decreases n - l,
        {
            let ghost pre = t@;
            let obj = t.links[l].object;
            let phase = t.links[l].phase;
            if obj == id && phase == LinkPhase::Linked {
                t.links[l] = LinkEntry { object: obj, phase: LinkPhase::NotifyPending };
                proof {
                    assert(t@.links =~= pre.links.update(
                        l as int,
                        LinkView { object: obj as int, phase: LinkPhase::NotifyPending },
                    ));
                    assert(t@.slots =~= pre.slots);
                    assert(t@.services =~= pre.services);
                }
            }
            proof {
                assert(pre.links[l as int] == LinkView { object: obj as int, phase });
                assert(t@.links[l as int] == spec_died_link(old(t)@.links[l as int], id as int));
            }
            l += 1;
        }
    }

    /// Produce a weak handle without touching the strong count.
    pub fn weak_ref<T: Class>(&self, t: &mut Transport<T>) -> (r: Result<WeakIBinder, Status>)
        ensures
            final(t)@.links == old(t)@.links,
            final(t)@.services == old(t)@.services,
            final(t)@.calling_pid == old(t)@.calling_pid,
            final(t)@.calling_uid == old(t)@.calling_uid,
            if old(t)@.valid(self@) {
                if old(t)@.weak(self@) < u64::MAX {
                    ({
                        &&& (r matches Ok(w) && w@ == self@)
                        &&& final(t)@.slots == old(t)@.slots.update(
                            self@,
                            SlotView {
                                strong: old(t)@.strong(self@),
                                weak: (old(t)@.weak(self@) + 1) as u64,
                                held: old(t)@.slots[self@].held,
                                extension: old(t)@.extension(self@),
                            },
                        )
                    })
                } else {
                    ({
                        &&& (r matches Err(st) && st@ == spec_status_of_code(Code::NoMemory))
                        &&& final(t)@.slots == old(t)@.slots
                    })
                }
            } else {
                ({
                    &&& (r matches Err(st) && st@ == spec_status_of_code(Code::BadValue))
                    &&& final(t)@.slots == old(t)@.slots
                })
            },
    {
        let id = self.id;
        if id >= t.slots.len() {
            return Err(Status::with_code(Code::BadValue));
        }
        let weak = t.slots[id].weak;
        if weak == u64::MAX {
            return Err(Status::with_code(Code::NoMemory));
        }
        let mut e = t.slots.remove(id);
        e.weak = weak + 1;
        t.slots.insert(id, e);
        proof {
            assert(t@.slots =~= old(t)@.slots.update(
                id as int,
                SlotView {
                    strong: old(t)@.strong(id as int),
                    weak: (old(t)@.weak(id as int) + 1) as u64,
                    held: old(t)@.slots[id as int].held,
                    extension: old(t)@.extension(id as int),
                },
            ));
            assert(t@.links =~= old(t)@.links);
            assert(t@.services =~= old(t)@.services);
        }
        Ok(WeakIBinder { id })
    }

    /// Issue a transaction against the object this handle names: rewind
    /// `data`, dispatch to the object's transaction handler, and return the
    /// reply parcel, rewound for reading.  A one-way call produces no reply
    /// and ignores the handler's outcome; a handler failure's transport code
    /// becomes the returned status.
    pub fn transact<T: Class>(
        &self,
        t: &Transport<T>,
        code: u32,
        data: &mut Parcel,
        flags: &[Flags],
    ) -> (r: Result<Option<Parcel>, Status>)
        ensures
            !t@.alive(self@) ==> ((r matches Err(st) && st@ == spec_status_of_code(
                Code::DeadObject,
            )) && final(data)@ == old(data)@),
            (t@.alive(self@) && spec_is_oneway(flags@)) ==> r == Ok::<Option<Parcel>, Status>(
                None,
            ),
            (t@.alive(self@) && !spec_is_oneway(flags@)) ==> ((r matches Ok(x) && x matches Some(
                p,
            ) && p@.pos == 0) || (r matches Err(st) && st@.code != Code::Success)),
    {
        let id = self.id;
        if !self.is_alive(t) {
            return Err(Status::with_code(Code::DeadObject));
        }
        let oneway = flags.len() > 0;
        proof {
            if flags@.len() > 0 {
                let f0 = flags@[0];
                assert(f0 is Oneway);
                assert(spec_is_oneway(flags@)) by {
                    assert(0 <= 0 < flags@.len() && flags@[0] is Oneway);
                }
            }
            assert(oneway == spec_is_oneway(flags@));
        }
        let _ = data.set_data_position(0);
        let obj = match t.slots[id].object.as_ref() {
            Some(o) => o,
            None => {
                return Err(Status::with_code(Code::DeadObject));
            },
        };
        let mut reply: Option<Parcel> = if oneway {
            None
        } else {
            Some(Parcel::new())
        };
        let outcome = obj.on_transact(code, data, &mut reply);
        if oneway {
            return Ok(None);
        }
        let out_code = match outcome {
            Ok(u) => Code::Success,
            Err(st) => st.get_code(),
        };
        if out_code == Code::Success {
            let mut rp = match reply {
                Some(p) => p,
                None => Parcel::new(),
            };
            let _ = rp.set_data_position(0);
            Ok(Some(rp))
        } else {
            Err(Status::with_code(out_code))
        }
    }

    /// Ask the object for a diagnostic dump into `out`; fails with
    /// `DeadObject` once the object is gone, else the handler decides the
    /// outcome.
    pub fn dump<T: Class>(&self, t: &Transport<T>, out: &mut Vec<u8>, args: &Vec<String>) -> (r:
        Result<(), Status>)
        ensures
            !t@.alive(self@) ==> ((r matches Err(st) && st@ == spec_status_of_code(
                Code::DeadObject,
            )) && final(out)@ == old(out)@),
    {
        let id = self.id;
        if !self.is_alive(t) {
            return Err(Status::with_code(Code::DeadObject));
        }
        match t.slots[id].object.as_ref() {
            Some(o) => o.on_dump(out, args),
            None => Err(Status::with_code(Code::DeadObject)),
        }
    }

    /// Attach another object as this object's extension, replacing any
    /// earlier one.  The parcel-free analogue of a secondary interface: the
    /// slot records the extension's identity, and `get_extension` re-acquires
    /// it.
    pub fn set_extension<T: Class>(&self, t: &mut Transport<T>, extension: &IBinder) -> (r:
        Result<(), Status>)
        ensures
            final(t)@.links == old(t)@.links,
            final(t)@.services == old(t)@.services,
            final(t)@.calling_pid == old(t)@.calling_pid,
            final(t)@.calling_uid == old(t)@.calling_uid,
            if old(t)@.alive(self@) {
                ({
                    &&& r is Ok
                    &&& final(t)@.slots == old(t)@.slots.update(
                        self@,
                        SlotView {
                            strong: old(t)@.strong(self@),
                            weak: old(t)@.weak(self@),
                            held: true,
                            extension: Some(extension@),
                        },
                    )
                })
            } else {
                ({
                    &&& (r matches Err(st) && st@ == spec_status_of_code(Code::DeadObject))
                    &&& final(t)@.slots == old(t)@.slots
                })
            },
    {
        let id = self.id;
        if !self.is_alive(t) {
            return Err(Status::with_code(Code::DeadObject));
        }
        let mut e = t.slots.remove(id);
        e.extension = Some(extension.id);
        t.slots.insert(id, e);
        proof {
            assert(t@.slots =~= old(t)@.slots.update(
                id as int,
                SlotView {
                    strong: old(t)@.strong(id as int),
                    weak: old(t)@.weak(id as int),
                    held: true,
                    extension: Some(extension@),
                },
            ));
            assert(t@.links =~= old(t)@.links);
            assert(t@.services =~= old(t)@.services);
        }
        Ok(())
    }

    /// Re-acquire this object's extension as a fresh strong handle, or absent
    /// if none was attached.  Fails with `DeadObject` if this object, or the
    /// attached extension, is gone.
    pub fn get_extension<T: Class>(&self, t: &mut Transport<T>) -> (r: Result<
        Option<IBinder>,
        Status,
    >)
        ensures
            final(t)@.links == old(t)@.links,
            final(t)@.services == old(t)@.services,
            final(t)@.calling_pid == old(t)@.calling_pid,
            final(t)@.calling_uid == old(t)@.calling_uid,
            if !old(t)@.alive(self@) {
                ({
                    &&& (r matches Err(st) && st@ == spec_status_of_code(Code::DeadObject))
                    &&& final(t)@.slots == old(t)@.slots
                })
            } else {
                match old(t)@.extension(self@) {
                    Option::None => {
                        r == Ok::<Option<IBinder>, Status>(None) && final(t)@.slots == old(
                            t,
                        )@.slots
                    },
                    Option::Some(e) => {
                        if old(t)@.alive(e) && old(t)@.strong(e) < u64::MAX {
                            ({
                                &&& (r matches Ok(x) && x matches Some(h) && h@ == e)
                                &&& final(t)@.slots == old(t)@.slots.update(
                                    e,
                                    SlotView {
                                        strong: (old(t)@.strong(e) + 1) as u64,
                                        weak: old(t)@.weak(e),
                                        held: true,
                                        extension: old(t)@.extension(e),
                                    },
                                )
                            })
                        } else if !old(t)@.alive(e) {
                            ({
                                &&& (r matches Err(st) && st@ == spec_status_of_code(
                                    Code::DeadObject,
                                ))
                                &&& final(t)@.slots == old(t)@.slots
                            })
                        } else {
                            ({
                                &&& (r matches Err(st) && st@ == spec_status_of_code(
                                    Code::NoMemory,
                                ))
                                &&& final(t)@.slots == old(t)@.slots
                            })
                        }
                    },
                }
            },
    {
        let id = self.id;
        if !self.is_alive(t) {
            return Err(Status::with_code(Code::DeadObject));
        }
        let ext = match t.slots[id].extension {
            Option::None => {
                return Ok(None);
            },
            Option::Some(e) => e,
        };
        let probe = IBinder { id: ext };
        match probe.duplicate(t) {
            Ok(h) => Ok(Some(h)),
            Err(st) => Err(st),
        }
    }

    /// Register a death notification against the object this handle names.
    /// The returned link owns the recipient until it fires or is unlinked.
    pub fn link_to_death<T: Class, R: DeathRecipient>(
        t: &mut Transport<T>,
        binder: &IBinder,
        recipient: R,
    ) -> (r: Result<LinkedDeathRecipient<R>, Status>)
        ensures
            final(t)@.slots == old(t)@.slots,
            final(t)@.services == old(t)@.services,
            final(t)@.calling_pid == old(t)@.calling_pid,
            final(t)@.calling_uid == old(t)@.calling_uid,
            if old(t)@.alive(binder@) {
                ({
                    &&& (r matches Ok(l) && l@.link == old(t)@.links.len() && l@.armed)
                    &&& final(t)@.links == old(t)@.links.push(
                        LinkView { object: binder@, phase: LinkPhase::Linked },
                    )
                })
            } else {
                ({
                    &&& (r matches Err(st) && st@ == spec_status_of_code(Code::DeadObject))
                    &&& final(t)@.links == old(t)@.links
                })
            },
    {
        if !binder.is_alive(t) {
            return Err(Status::with_code(Code::DeadObject));
        }
        let link = t.links.len();
        t.links.push(LinkEntry { object: binder.id, phase: LinkPhase::Linked });
        proof {
            assert(t@.links =~= old(t)@.links.push(
                LinkView { object: binder@, phase: LinkPhase::Linked },
            ));
            assert(t@.slots =~= old(t)@.slots);
            assert(t@.services =~= old(t)@.services);
        }
        Ok(LinkedDeathRecipient { link, recipient: Some(recipient) })
    }
}

/// A weak capability handle: observes liveness without owning a unit of the
/// strong count.  Each value stands for one unit of the weak count.
#[derive(Debug, Ord, PartialOrd, Eq, PartialEq, Structural)]
pub struct WeakIBinder {
    id: usize,
}

impl View for WeakIBinder {
    type V = int;

    closed spec fn view(&self) -> int {
        self.id as int
    }
}

impl WeakIBinder {
    /// Try to take a strong handle: succeeds exactly while the strong count
    /// is positive (and not saturated), and never yields a handle to a
    /// destroyed object.
    pub fn upgrade<T: Class>(&self, t: &mut Transport<T>) -> (r: Option<IBinder>)
        ensures
            final(t)@.links == old(t)@.links,
            final(t)@.services == old(t)@.services,
            final(t)@.calling_pid == old(t)@.calling_pid,
            final(t)@.calling_uid == old(t)@.calling_uid,
            if old(t)@.alive(self@) && old(t)@.strong(self@) < u64::MAX {
                ({
                    &&& (r matches Some(h) && h@ == self@)
                    &&& final(t)@.slots == old(t)@.slots.update(
                        self@,
                        SlotView {
                            strong: (old(t)@.strong(self@) + 1) as u64,
                            weak: old(t)@.weak(self@),
                            held: true,
                            extension: old(t)@.extension(self@),
                        },
                    )
                })
            } else {
                r is None && final(t)@.slots == old(t)@.slots
            },
    {
        let id = self.id;
        if id >= t.slots.len() {
            return None;
        }
        let strong = t.slots[id].strong;
        if strong == 0 || strong == u64::MAX || !t.slots[id].object.is_some() {
            return None;
        }
        let mut e = t.slots.remove(id);
        e.strong = strong + 1;
        t.slots.insert(id, e);
        proof {
            assert(t@.slots =~= old(t)@.slots.update(
                id as int,
                SlotView {
                    strong: (old(t)@.strong(id as int) + 1) as u64,
                    weak: old(t)@.weak(id as int),
                    held: true,
                    extension: old(t)@.extension(id as int),
                },
            ));
            assert(t@.links =~= old(t)@.links);
            assert(t@.services =~= old(t)@.services);
        }
        Some(IBinder { id })
    }

    /// Take one more unit of the weak count, yielding a second weak handle
    /// to the same object.
    pub fn duplicate<T: Class>(&self, t: &mut Transport<T>) -> (r: Result<WeakIBinder, Status>)
        ensures
            final(t)@.links == old(t)@.links,
            final(t)@.services == old(t)@.services,
            final(t)@.calling_pid == old(t)@.calling_pid,
            final(t)@.calling_uid == old(t)@.calling_uid,
            if old(t)@.valid(self@) {
                if old(t)@.weak(self@) < u64::MAX {
                    ({
                        &&& (r matches Ok(w) && w@ == self@)
                        &&& final(t)@.slots == old(t)@.slots.update(
                            self@,
                            SlotView {
                                strong: old(t)@.strong(self@),
                                weak: (old(t)@.weak(self@) + 1) as u64,
                                held: old(t)@.slots[self@].held,
                                extension: old(t)@.extension(self@),
                            },
                        )
                    })
                } else {
                    ({
                        &&& (r matches Err(st) && st@ == spec_status_of_code(Code::NoMemory))
                        &&& final(t)@.slots == old(t)@.slots
                    })
                }
            } else {
                ({
                    &&& (r matches Err(st) && st@ == spec_status_of_code(Code::BadValue))
                    &&& final(t)@.slots == old(t)@.slots
                })
            },
    {
        let id = self.id;
        if id >= t.slots.len() {
            return Err(Status::with_code(Code::BadValue));
        }
        let weak = t.slots[id].weak;
        if weak == u64::MAX {
            return Err(Status::with_code(Code::NoMemory));
        }
        let mut e = t.slots.remove(id);
        e.weak = weak + 1;
        t.slots.insert(id, e);
        proof {
            assert(t@.slots =~= old(t)@.slots.update(
                id as int,
                SlotView {
                    strong: old(t)@.strong(id as int),
                    weak: (old(t)@.weak(id as int) + 1) as u64,
                    held: old(t)@.slots[id as int].held,
                    extension: old(t)@.extension(id as int),
                },
            ));
            assert(t@.links =~= old(t)@.links);
            assert(t@.services =~= old(t)@.services);
        }
        Ok(WeakIBinder { id })
    }

    /// Give up this weak handle's unit of the weak count.
    pub fn release<T: Class>(self, t: &mut Transport<T>)
        ensures
            final(t)@.links == old(t)@.links,
            final(t)@.services == old(t)@.services,
            final(t)@.calling_pid == old(t)@.calling_pid,
            final(t)@.calling_uid == old(t)@.calling_uid,
            if old(t)@.valid(self@) && old(t)@.weak(self@) > 0 {
                final(t)@.slots == old(t)@.slots.update(
                    self@,
                    SlotView {
                        strong: old(t)@.strong(self@),
                        weak: (old(t)@.weak(self@) - 1) as u64,
                        held: old(t)@.slots[self@].held,
                        extension: old(t)@.extension(self@),
                    },
                )
            } else {
                final(t)@.slots == old(t)@.slots
            },
    {
        let id = self.id;
        if id >= t.slots.len() {
            return;
        }
        let weak = t.slots[id].weak;
        if weak == 0 {
            return;
        }
        let mut e = t.slots.remove(id);
        e.weak = weak - 1;
        t.slots.insert(id, e);
        proof {
            assert(t@.slots =~= old(t)@.slots.update(
                id as int,
                SlotView {
                    strong: old(t)@.strong(id as int),
                    weak: (old(t)@.weak(id as int) - 1) as u64,
                    held: old(t)@.slots[id as int].held,
                    extension: old(t)@.extension(id as int),
                },
            ));
            assert(t@.links =~= old(t)@.links);
            assert(t@.services =~= old(t)@.services);
        }
    }
}

/// A one-shot callback to run when a linked object dies.
pub trait DeathRecipient: Sized + Send {
    /// Consume the recipient; called at most once.
    fn on_dead(self);
}

/// Abstract value of a registered death link: which link entry it names, and
/// whether it still owns its recipient.
pub ghost struct LinkedView {
    pub link: int,
    pub armed: bool,
}

/// A registered death link.  It owns the recipient's storage for its
/// lifetime; delivery consumes the recipient, and an explicit unlink discards
/// it unfired.
pub struct LinkedDeathRecipient<R> {
    link: usize,
    recipient: Option<R>,
}

impl<R> View for LinkedDeathRecipient<R> {
    type V = LinkedView;

    closed spec fn view(&self) -> LinkedView {
        LinkedView { link: self.link as int, armed: self.recipient is Some }
    }
}

impl<R: DeathRecipient> LinkedDeathRecipient<R> {
    /// Deliver the death notification if one is pending: the recipient runs
    /// at most once, and the link's phase follows `link_step` on a delivery
    /// event.
    pub fn notify<T: Class>(&mut self, t: &mut Transport<T>) -> (fired: bool)
        ensures
            final(t)@.slots == old(t)@.slots,
            final(t)@.services == old(t)@.services,
            final(t)@.calling_pid == old(t)@.calling_pid,
            final(t)@.calling_uid == old(t)@.calling_uid,
            final(self)@.link == old(self)@.link,
            if (old(self)@.armed && 0 <= old(self)@.link < old(t)@.links.len() && old(
                t,
            )@.links[old(self)@.link].phase == LinkPhase::NotifyPending) {
                ({
                    &&& fired
                    &&& !final(self)@.armed
                    &&& final(t)@.links == old(t)@.links.update(
                        old(self)@.link,
                        LinkView {
                            object: old(t)@.links[old(self)@.link].object,
                            phase: link_step(
                                old(t)@.links[old(self)@.link].phase,
                                LinkEvent::Deliver,
                            ).0,
                        },
                    )
                })
            } else {
                ({
                    &&& !fired
                    &&& final(self)@ == old(self)@
                    &&& final(t)@.links == old(t)@.links
                })
            },
    {
        let link = self.link;
        if link >= t.links.len() {
            return false;
        }
        if !(t.links[link].phase == LinkPhase::NotifyPending) {
            return false;
        }
        let recipient = match self.recipient.take() {
            Some(rec) => rec,
            None => {
                return false;
            },
        };
        let obj = t.links[link].object;
        t.links[link] = LinkEntry { object: obj, phase: LinkPhase::Fired };
        proof {
            assert(t@.links =~= old(t)@.links.update(
                link as int,
                LinkView { object: obj as int, phase: LinkPhase::Fired },
            ));
            assert(t@.slots =~= old(t)@.slots);
            assert(t@.services =~= old(t)@.services);
        }
        recipient.on_dead();
        true
    }

    /// Unregister the link and discard the recipient unfired; after this the
    /// notification can never run.  The link's phase follows `link_step` on
    /// an unlink event.
    pub fn unlink<T: Class>(self, t: &mut Transport<T>)
        ensures
            final(t)@.slots == old(t)@.slots,
            final(t)@.services == old(t)@.services,
            final(t)@.calling_pid == old(t)@.calling_pid,
            final(t)@.calling_uid == old(t)@.calling_uid,
            if 0 <= self@.link < old(t)@.links.len() {
                final(t)@.links == old(t)@.links.update(
                    self@.link,
                    LinkView {
                        object: old(t)@.links[self@.link].object,
                        phase: link_step(
                            old(t)@.links[self@.link].phase,
                            LinkEvent::Unlink,
                        ).0,
                    },
                )
            } else {
                final(t)@.links == old(t)@.links
            },
    {
        let link = self.link;
        if link >= t.links.len() {
            return;
        }
        let obj = t.links[link].object;
        let phase = t.links[link].phase;
        let next = if phase == LinkPhase::Fired {
            LinkPhase::Fired
        } else {
            LinkPhase::Unlinked
        };
        t.links[link] = LinkEntry { object: obj, phase: next };
        proof {
            assert(t@.links =~= old(t)@.links.update(
                link as int,
                LinkView {
                    object: obj as int,
                    phase: link_step(old(t)@.links[link as int].phase, LinkEvent::Unlink).0,
                },
            ));
            assert(t@.slots =~= old(t)@.slots);
            assert(t@.services =~= old(t)@.services);
        }
    }
}

/// Encoding of an optional capability: a present marker and the object's
/// identity, or a null marker.
pub open spec fn spec_binder_enc(b: Option<int>) -> Seq<u8> {
    match b {
        Option::None => spec_i32_enc(0i32),
        Option::Some(id) => spec_i32_enc(1i32) + spec_u64_to_le_bytes(id as u64),
    }
}

/// Decode of an optional capability: the object identity (or absence) and the
/// position after it.
pub open spec fn spec_read_binder(bytes: Seq<u8>, pos: int) -> Result<(Option<int>, int), Code> {
    match <i32 as Read>::read_spec(bytes, pos) {
        Err(c) => Err(c),
        Ok(d) => {
            if d.0 == 0 {
                Ok((None, d.1))
            } else if d.0 == 1 {
                match <u64 as Read>::read_spec(bytes, d.1) {
                    Err(c) => Err(c),
                    Ok(e) => Ok((Some(e.0 as int), e.1)),
                }
            } else {
                Err(Code::BadValue)
            }
        },
    }
}

/// Law: a capability written into a parcel decodes back to the same object
/// identity, whatever lies around it.
pub proof fn lemma_capability_round_trip(b: Option<int>, bytes: Seq<u8>, pos: int)
    requires
        0 <= pos <= bytes.len(),
        b matches Some(id) ==> 0 <= id <= u64::MAX,
    ensures
        spec_read_binder(splice(bytes, pos, spec_binder_enc(b)), pos) == Ok::<
            (Option<int>, int),
            Code,
        >((b, pos + spec_binder_enc(b).len())),
{
    lemma_auto_spec_u32_to_from_le_bytes();
    lemma_auto_spec_u64_to_from_le_bytes();
    let enc = spec_binder_enc(b);
    let s2 = splice(bytes, pos, enc);
    lemma_splice_parts(bytes, pos, enc);
    match b {
        Option::None => {
            assert(s2.subrange(pos, pos + 4) =~= spec_i32_enc(0i32));
            lemma_i32_round_trip(0i32, s2, pos);
            lemma_splice_identity(s2, pos, spec_i32_enc(0i32));
        },
        Option::Some(id) => {
            assert(s2.subrange(pos, pos + 4) =~= spec_i32_enc(1i32));
            lemma_i32_round_trip(1i32, s2, pos);
            lemma_splice_identity(s2, pos, spec_i32_enc(1i32));
            let idb = spec_u64_to_le_bytes(id as u64);
            assert(s2.subrange(pos + 4, pos + 4 + 8) =~= idb) by {
                assert forall|k: int| 0 <= k < 8 implies s2[pos + 4 + k] == idb[k] by {
                    assert(enc[4 + k] == (spec_i32_enc(1i32) + idb)[4 + k]);
                }
            }
            assert((id as u64) as int == id);
        },
    }
}

impl Parcel {
    /// Encode an optional capability at the data position: a null reference
    /// if absent, else the handle's underlying object identity.  The parcel
    /// carries the identity only; the reader re-acquires the reference from
    /// its transport.
    pub fn write_binder(&mut self, binder: Option<&IBinder>) -> (r: Result<(), Status>)
        ensures
            ({
                let enc = spec_binder_enc(
                    match binder {
                        Option::Some(h) => Some(h@),
                        Option::None => None,
                    },
                );
                if old(self)@.pos + enc.len() <= MAX_DATA_SIZE as int {
                    ({
                        &&& r is Ok
                        &&& final(self)@.bytes == splice(old(self)@.bytes, old(self)@.pos, enc)
                        &&& final(self)@.pos == old(self)@.pos + enc.len()
                    })
                } else {
                    ({
                        &&& (r matches Err(st) && st@ == spec_status_of_code(Code::NoMemory))
                        &&& final(self)@ == old(self)@
                    })
                }
            }),
    {
        proof {
            lemma_auto_spec_u32_to_from_le_bytes();
            lemma_auto_spec_u64_to_from_le_bytes();
        }
        match binder {
            Option::None => {
                let mut v = vstd::bytes::u32_to_le_bytes(0u32);
                assert(v@ == spec_binder_enc(None));
                self.write_bytes(v.as_slice())
            },
            Option::Some(h) => {
                let mut v = vstd::bytes::u32_to_le_bytes(1u32);
                let mut idb = vstd::bytes::u64_to_le_bytes(h.id as u64);
                v.append(&mut idb);
                assert(v@ == spec_binder_enc(Some(h@)));
                self.write_bytes(v.as_slice())
            },
        }
    }

    /// Decode an optional capability at the data position and re-acquire it
    /// from the transport: a fresh strong handle, owned by the caller, or
    /// absent for a null reference.  Fails with `DeadObject` if the named
    /// object has been destroyed, and with `BadValue` on a malformed marker;
    /// on failure the data position is unchanged.
    pub fn read_binder<T: Class>(&mut self, t: &mut Transport<T>) -> (r: Result<
        Option<IBinder>,
        Status,
    >)
        ensures
            final(self)@.bytes == old(self)@.bytes,
            final(t)@.links == old(t)@.links,
            final(t)@.services == old(t)@.services,
            final(t)@.calling_pid == old(t)@.calling_pid,
            final(t)@.calling_uid == old(t)@.calling_uid,
            match spec_read_binder(old(self)@.bytes, old(self)@.pos) {
                Err(c) => {
                    &&& (r matches Err(st) && st@ == spec_status_of_code(c))
                    &&& final(self)@.pos == old(self)@.pos
                    &&& final(t)@.slots == old(t)@.slots
                },
                Ok(d) => {
                    match d.0 {
                        Option::None => {
                            &&& r == Ok::<Option<IBinder>, Status>(None)
                            &&& final(self)@.pos == d.1
                            &&& final(t)@.slots == old(t)@.slots
                        },
                        Option::Some(id) => {
                            if old(t)@.alive(id) && old(t)@.strong(id) < u64::MAX {
                                ({
                                    &&& (r matches Ok(x) && x matches Some(h) && h@ == id)
                                    &&& final(self)@.pos == d.1
                                    &&& final(t)@.slots == old(t)@.slots.update(
                                        id,
                                        SlotView {
                                            strong: (old(t)@.strong(id) + 1) as u64,
                                            weak: old(t)@.weak(id),
                                            held: true,
                                            extension: old(t)@.extension(id),
                                        },
                                    )
                                })
                            } else if !old(t)@.alive(id) {
                                ({
                                    &&& (r matches Err(st) && st@ == spec_status_of_code(
                                        Code::DeadObject,
                                    ))
                                    &&& final(self)@.pos == old(self)@.pos
                                    &&& final(t)@.slots == old(t)@.slots
                                })
                            } else {
                                ({
                                    &&& (r matches Err(st) && st@ == spec_status_of_code(
                                        Code::NoMemory,
                                    ))
                                    &&& final(self)@.pos == old(self)@.pos
                                    &&& final(t)@.slots == old(t)@.slots
                                })
                            }
                        },
                    }
                },
            },
    {
        let p0 = self.get_data_position();
        let tag: i32 = match self.read::<i32>() {
            Ok(v) => v,
            Err(st) => {
                return Err(st);
            },
        };
        if tag == 0 {
            return Ok(None);
        }
        if tag != 1 {
            let res = self.set_data_position(p0);
            assert(res is Ok);
            return Err(Status::with_code(Code::BadValue));
        }
        let idu: u64 = match self.read::<u64>() {
            Ok(v) => v,
            Err(st) => {
                let res = self.set_data_position(p0);
                assert(res is Ok);
                return Err(st);
            },
        };
        if idu >= t.slots.len() as u64 {
            let res = self.set_data_position(p0);
            assert(res is Ok);
            return Err(Status::with_code(Code::DeadObject));
        }
        let id = idu as usize;
        let handle = IBinder { id };
        match handle.duplicate(t) {
            Ok(h) => Ok(Some(h)),
            Err(st) => {
                let res = self.set_data_position(p0);
                assert(res is Ok);
                Err(st)
            },
        }
    }
}

impl<T: Class> Transport<T> {
    /// First registered object carrying a service name, if any.
    #[verifier::loop_isolation(false)]
    pub(crate) fn find_service(&self, name: &String) -> (r: Option<usize>)
        ensures
            match spec_find_service(self@.services, name@) {
                Some(id) => r matches Some(u) && u as int == id,
                None => r is None,
            },
    {
        let n = self.services.len();
        let mut i: usize = 0;
        proof {
            assert(self@.services.skip(0) =~= self@.services);
        }
        while i < n
            invariant
                n == self@.services.len(),
                0 <= i <= n,
                spec_find_service(self@.services, name@) == spec_find_service(
                    self@.services.skip(i as int),
                    name@,
                ),
            decreases n - i,
        {
            proof {
                assert(self@.services.skip(i as int).drop_first() =~= self@.services.skip(
                    i + 1,
                ));
                assert(self@.services.skip(i as int)[0] == self@.services[i as int]);
            }
            if self.services[i].name.eq(name) {
                return Some(self.services[i].object);
            }
            i += 1;
        }
        None
    }

    /// Bind a service name to an object, replacing any earlier binding of the
    /// same name.
    #[verifier::loop_isolation(false)]
    pub(crate) fn register_service(&mut self, name: &String, id: usize)
        ensures
            final(self)@.slots == old(self)@.slots,
            final(self)@.links == old(self)@.links,
            final(self)@.calling_pid == old(self)@.calling_pid,
            final(self)@.calling_uid == old(self)@.calling_uid,
            spec_find_service(final(self)@.services, name@) == Some(id as int),
            forall|o: Seq<char>|
                o != name@ ==> #[trigger] spec_find_service(final(self)@.services, o)
                    == spec_find_service(old(self)@.services, o),
    {
        let n = self.services.len();
        let mut i: usize = 0;
        proof {
            assert(self@.services.skip(0) =~= self@.services);
        }
        while i < n
            invariant
                n == self@.services.len(),
                0 <= i <= n,
                self@ == old(self)@,
                forall|k: int| 0 <= k < i ==> (#[trigger] self@.services[k].name) != name@,
                spec_find_service(self@.services, name@) == spec_find_service(
                    self@.services.skip(i as int),
                    name@,
                ),
            decreases n - i,
        {
            proof {
                assert(self@.services.skip(i as int).drop_first() =~= self@.services.skip(
                    i + 1,
                ));
                assert(self@.services.skip(i as int)[0] == self@.services[i as int]);
            }
            if self.services[i].name.eq(name) {
                let ghost pre = self@;
                self.services[i] = ServiceEntry { name: name.clone(), object: id };
                proof {
                    assert(self@.services =~= pre.services.update(
                        i as int,
                        ServiceView { name: name@, object: id as int },
                    ));
                    assert(self@.slots =~= pre.slots);
                    assert(self@.links =~= pre.links);
                    lemma_find_service_update(
                        pre.services,
                        i as int,
                        ServiceView { name: name@, object: id as int },
                        name@,
                    );
                }
                return;
            }
            i += 1;
        }
        let ghost pre = self@;
        self.services.push(ServiceEntry { name: name.clone(), object: id });
        proof {
            assert(self@.services =~= pre.services.push(
                ServiceView { name: name@, object: id as int },
            ));
            assert(self@.slots =~= pre.slots);
            assert(self@.links =~= pre.links);
            assert(pre.services.skip(n as int) =~= Seq::<ServiceView>::empty());
            lemma_find_service_push(
                pre.services,
                ServiceView { name: name@, object: id as int },
            );
        }
    }
}

/// Rebinding the first entry that carries a name changes that name's binding
/// and no other.
proof fn lemma_find_service_update(s: Seq<ServiceView>, i: int, v: ServiceView, name: Seq<char>)
    requires
        0 <= i < s.len(),
        s[i].name == name,
        v.name == name,
        forall|k: int| 0 <= k < i ==> (#[trigger] s[k].name) != name,
    ensures
        spec_find_service(s.update(i, v), name) == Some(v.object),
        forall|o: Seq<char>|
            o != name ==> #[trigger] spec_find_service(s.update(i, v), o) == spec_find_service(
                s,
                o,
            ),
    decreases i,
{
    let s2 = s.update(i, v);
    if i == 0 {
        assert(s2.drop_first() =~= s.drop_first());
        assert(spec_find_service(s2, name) == Some(v.object));
        assert forall|o: Seq<char>| o != name implies #[trigger] spec_find_service(s2, o)
            == spec_find_service(s, o) by {
            assert(spec_find_service(s2, o) == spec_find_service(s2.drop_first(), o));
            assert(spec_find_service(s, o) == spec_find_service(s.drop_first(), o));
        }
    } else {
        assert(s2[0] == s[0]);
        assert(s2.drop_first() =~= s.drop_first().update(i - 1, v));
        lemma_find_service_update(s.drop_first(), i - 1, v, name);
        assert(spec_find_service(s2, name) == spec_find_service(s2.drop_first(), name));
        assert forall|o: Seq<char>| o != name implies #[trigger] spec_find_service(s2, o)
            == spec_find_service(s, o) by {
            if s[0].name == o {
            } else {
                assert(spec_find_service(s2, o) == spec_find_service(s2.drop_first(), o));
                assert(spec_find_service(s, o) == spec_find_service(s.drop_first(), o));
            }
        }
    }
}

/// Appending a binding for a fresh name adds that binding and changes no
/// other.
proof fn lemma_find_service_push(s: Seq<ServiceView>, v: ServiceView)
    requires
        spec_find_service(s, v.name) is None,
    ensures
        spec_find_service(s.push(v), v.name) == Some(v.object),
        forall|o: Seq<char>|
            o != v.name ==> #[trigger] spec_find_service(s.push(v), o) == spec_find_service(s, o),
    decreases s.len(),
{
    let s2 = s.push(v);
    if s.len() == 0 {
        assert(s2.drop_first() =~= Seq::<ServiceView>::empty());
        assert(spec_find_service(s2, v.name) == Some(v.object));
        assert forall|o: Seq<char>| o != v.name implies #[trigger] spec_find_service(s2, o)
            == spec_find_service(s, o) by {
            assert(spec_find_service(s2, o) == spec_find_service(s2.drop_first(), o));
        }
    } else {
        assert(s2[0] == s[0]);
        assert(s[0].name != v.name);
        assert(s2.drop_first() =~= s.drop_first().push(v));
        lemma_find_service_push(s.drop_first(), v);
        assert(spec_find_service(s2, v.name) == spec_find_service(s2.drop_first(), v.name));
        assert forall|o: Seq<char>| o != v.name implies #[trigger] spec_find_service(s2, o)
            == spec_find_service(s, o) by {
            if s[0].name == o {
            } else {
                assert(spec_find_service(s2, o) == spec_find_service(s2.drop_first(), o));
                assert(spec_find_service(s, o) == spec_find_service(s.drop_first(), o));
            }
        }
    }
}

} // verus!
