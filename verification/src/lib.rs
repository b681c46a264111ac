//! An object-capability inter-process communication layer: structured value
//! marshalling through parcels, reference-counted capability handles with
//! strong/weak semantics, death notification, and a server-side dispatch
//! registry, all layered over an explicit transport model.

pub mod binder;
pub mod class;
pub mod parcel;
pub mod service_manager;
pub mod status;

pub use binder::DeathRecipient;
pub use binder::Flags;
pub use binder::IBinder;
pub use binder::LinkedDeathRecipient;
pub use binder::Transport;
pub use binder::WeakIBinder;
pub use class::Class;
pub use parcel::Parcel;
pub use parcel::Parcelable;
pub use parcel::Read;
pub use parcel::Write;
pub use service_manager::ServiceManager;
pub use service_manager::ServiceManagerError;
pub use status::Code;
pub use status::Exception;
pub use status::NulError;
pub use status::Status;
