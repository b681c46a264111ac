use std::sync::Arc;
use std::sync::atomic::{AtomicU32, Ordering};

use ndk_binder::{
    Class, Code, DeathRecipient, Exception, Flags, IBinder, Parcel, ServiceManager,
    ServiceManagerError, Status, Transport,
};

struct LocalService;

impl Class for LocalService {
    fn interface_name() -> &'static str {
        "com.github.kr328.NdkBinder"
    }

    fn on_transact(
        &self,
        code: u32,
        data: &mut Parcel,
        reply: &mut Option<Parcel>,
    ) -> Result<(), Status> {
        match code {
            1 => {
                let s: Option<String> = data.read()?;
                reply.as_mut().unwrap().write(&s.map(|s| s + "114514"))?;
                Ok(())
            }
            2 => {
                let v: u64 = data.read()?;
                reply.as_mut().unwrap().write(&(v + 114514))?;
                Ok(())
            }
            _ => Err(Status::unknown_transaction()),
        }
    }

    fn on_dump(&self, out: &mut Vec<u8>, args: &Vec<String>) -> Result<(), Status> {
        out.extend_from_slice(args.join(",").as_bytes());
        Ok(())
    }
}

#[test]
fn binder_local_transact() {
    let mut t: Transport<LocalService> = Transport::new();
    let binder = t.new_binder(LocalService);

    let s = Some("x".to_string());
    let mut data = Parcel::new();
    data.write(&s).unwrap();
    let mut reply = binder.transact(&t, 1, &mut data, &[]).unwrap().unwrap();
    let rs: Option<String> = reply.read().unwrap();
    assert_eq!(s.map(|s| s + "114514"), rs);

    let v: u64 = 1919810;
    let mut data = Parcel::new();
    data.write(&v).unwrap();
    let mut reply = binder.transact(&t, 2, &mut data, &[]).unwrap().unwrap();
    let rv: u64 = reply.read().unwrap();
    assert_eq!(v + 114514, rv);

    let mut data = Parcel::new();
    let rn = binder.transact(&t, 3, &mut data, &[]);
    assert!(matches!(rn, Err(st) if st.get_code() == Code::UnknownTransaction));
}

#[test]
fn binder_oneway_transact() {
    let mut t: Transport<LocalService> = Transport::new();
    let binder = t.new_binder(LocalService);

    let mut data = Parcel::new();
    // a one-way call produces no reply even for an unknown code
    let r = binder.transact(&t, 3, &mut data, &[Flags::Oneway]).unwrap();
    assert!(r.is_none());
}

#[test]
fn binder_dump() {
    let mut t: Transport<LocalService> = Transport::new();
    let binder = t.new_binder(LocalService);

    let mut out: Vec<u8> = Vec::new();
    let args = vec!["a".to_string(), "b".to_string()];
    binder.dump(&t, &mut out, &args).unwrap();
    assert_eq!(out, b"a,b");
}

#[test]
fn parcel_alive_obj() {
    let mut t: Transport<LocalService> = Transport::new();
    let binder = t.new_binder(LocalService);

    let mut parcel = Parcel::new();
    parcel.write_file_descriptor(Some(3)).unwrap();
    parcel.write_binder(Some(&binder)).unwrap();
    parcel.write_file_descriptor(Some(4)).unwrap();
    parcel.write_file_descriptor(None).unwrap();
    parcel.write_binder(None).unwrap();

    parcel.set_data_position(0).unwrap();

    assert_eq!(Some(3), parcel.read_file_descriptor().unwrap());
    let rbinder = parcel.read_binder(&mut t).unwrap();
    assert_eq!(Some(4), parcel.read_file_descriptor().unwrap());
    let none_fd = parcel.read_file_descriptor().unwrap();
    let none_binder = parcel.read_binder(&mut t).unwrap();

    // identity-equal to the original capability
    assert_eq!(binder, rbinder.unwrap());
    assert!(none_fd.is_none());
    assert!(none_binder.is_none());
}

#[test]
fn binder_capability_of_dead_object() {
    let mut t: Transport<LocalService> = Transport::new();
    let binder = t.new_binder(LocalService);

    let mut parcel = Parcel::new();
    parcel.write_binder(Some(&binder)).unwrap();
    binder.release(&mut t);

    parcel.set_data_position(0).unwrap();
    assert!(matches!(
        parcel.read_binder(&mut t),
        Err(s) if s.get_code() == Code::DeadObject
    ));
}

#[test]
fn binder_ping_and_identity() {
    let mut t: Transport<LocalService> = Transport::new_with_identity(42, 43);
    let binder = t.new_binder(LocalService);

    assert_eq!(42, IBinder::get_calling_pid(&t));
    assert_eq!(43, IBinder::get_calling_uid(&t));
    assert!(binder.is_alive(&t));
    assert!(!binder.is_remote(&t));
    binder.ping(&t).unwrap();

    let other = t.new_binder(LocalService);
    assert_ne!(binder, other);
    let dup = binder.duplicate(&mut t).unwrap();
    assert_eq!(binder, dup);
    dup.release(&mut t);
    binder.ping(&t).unwrap();
}

#[test]
fn weak_upgrade_fails_after_last_release() {
    let mut t: Transport<LocalService> = Transport::new();
    let binder = t.new_binder(LocalService);
    let weak = binder.weak_ref(&mut t).unwrap();

    // while a strong reference lives, the upgrade succeeds
    let strong = weak.upgrade(&mut t).unwrap();
    strong.release(&mut t);

    binder.release(&mut t);

    // after the last strong reference is gone, the upgrade fails
    assert!(weak.upgrade(&mut t).is_none());
    assert!(weak.upgrade(&mut t).is_none());
    weak.release(&mut t);
}

struct Recipient(Arc<AtomicU32>);

impl DeathRecipient for Recipient {
    fn on_dead(self) {
        self.0.fetch_add(1, Ordering::SeqCst);
    }
}

#[test]
fn death_notification_fires_at_most_once() {
    let fired = Arc::new(AtomicU32::new(0));
    let mut t: Transport<LocalService> = Transport::new();
    let binder = t.new_binder(LocalService);

    let mut link = IBinder::link_to_death(&mut t, &binder, Recipient(fired.clone())).unwrap();

    // nothing is pending while the object lives
    assert!(!link.notify(&mut t));
    assert_eq!(0, fired.load(Ordering::SeqCst));

    binder.release(&mut t);

    assert!(link.notify(&mut t));
    assert_eq!(1, fired.load(Ordering::SeqCst));

    // redundant deliveries never fire twice
    assert!(!link.notify(&mut t));
    assert!(!link.notify(&mut t));
    assert_eq!(1, fired.load(Ordering::SeqCst));
    link.unlink(&mut t);
    assert_eq!(1, fired.load(Ordering::SeqCst));
}

#[test]
fn death_notification_never_after_unlink() {
    let fired = Arc::new(AtomicU32::new(0));
    let mut t: Transport<LocalService> = Transport::new();
    let binder = t.new_binder(LocalService);

    let link = IBinder::link_to_death(&mut t, &binder, Recipient(fired.clone())).unwrap();
    link.unlink(&mut t);

    binder.release(&mut t);
    assert_eq!(0, fired.load(Ordering::SeqCst));
}

#[test]
fn death_link_on_dead_object_is_refused() {
    let fired = Arc::new(AtomicU32::new(0));
    let mut t: Transport<LocalService> = Transport::new();
    let binder = t.new_binder(LocalService);
    let stale = foreign_handle();
    binder.release(&mut t);

    // `stale` carries the identity of the released object
    let r = IBinder::link_to_death(&mut t, &stale, Recipient(fired.clone()));
    assert!(matches!(r, Err(s) if s.get_code() == Code::DeadObject));
    assert_eq!(0, fired.load(Ordering::SeqCst));
}

/// A handle carrying the identity of the first object of some other
/// transport; against the caller's transport it names whatever stands at that
/// identity there.
fn foreign_handle() -> IBinder {
    let mut other: Transport<LocalService> = Transport::new();
    other.new_binder(LocalService)
}

#[test]
fn service_manager_round_trip() {
    let mut t: Transport<LocalService> = Transport::new();
    let binder = t.new_binder(LocalService);

    assert!(ServiceManager::get_service(&mut t, "activity").unwrap().is_none());

    ServiceManager::add_service(&mut t, "activity", &binder).unwrap();
    let got = ServiceManager::get_service(&mut t, "activity").unwrap().unwrap();
    assert_eq!(binder, got);
    let checked = ServiceManager::check_service(&mut t, "activity").unwrap().unwrap();
    assert_eq!(binder, checked);

    // a second registration replaces the binding
    let second = t.new_binder(LocalService);
    ServiceManager::add_service(&mut t, "activity", &second).unwrap();
    let got2 = ServiceManager::get_service(&mut t, "activity").unwrap().unwrap();
    assert_eq!(second, got2);
    assert_ne!(binder, got2);

    got.release(&mut t);
    got2.release(&mut t);
    checked.release(&mut t);
}

#[test]
fn service_manager_rejects_nul_names() {
    let mut t: Transport<LocalService> = Transport::new();
    let binder = t.new_binder(LocalService);

    let r = ServiceManager::add_service(&mut t, "bad\0name", &binder);
    assert!(matches!(
        r,
        Err(ServiceManagerError::InvalidString(e)) if e.nul_position == 3
    ));
    let r = ServiceManager::get_service(&mut t, "bad\0name");
    assert!(matches!(r, Err(ServiceManagerError::InvalidString(_))));
}

#[test]
fn service_manager_dead_service_is_absent() {
    let mut t: Transport<LocalService> = Transport::new();
    let binder = t.new_binder(LocalService);
    ServiceManager::add_service(&mut t, "ephemeral", &binder).unwrap();
    binder.release(&mut t);

    assert!(ServiceManager::get_service(&mut t, "ephemeral").unwrap().is_none());
}

#[test]
fn service_manager_rejects_dead_binder() {
    let mut t: Transport<LocalService> = Transport::new();
    let binder = t.new_binder(LocalService);
    let stale = foreign_handle();
    binder.release(&mut t);

    let r = ServiceManager::add_service(&mut t, "gone", &stale);
    assert!(matches!(
        r,
        Err(ServiceManagerError::RemoteException(Exception::IllegalState))
    ));
}

#[test]
fn binder_extension() {
    let mut t: Transport<LocalService> = Transport::new();
    let binder = t.new_binder(LocalService);
    assert!(binder.get_extension(&mut t).unwrap().is_none());

    let ext = t.new_binder(LocalService);
    binder.set_extension(&mut t, &ext).unwrap();
    let got = binder.get_extension(&mut t).unwrap().unwrap();
    assert_eq!(ext, got);
    got.release(&mut t);

    // a dead extension is reported as such
    ext.release(&mut t);
    assert!(matches!(
        binder.get_extension(&mut t),
        Err(s) if s.get_code() == Code::DeadObject
    ));
}
