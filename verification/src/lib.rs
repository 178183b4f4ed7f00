//! Core logic of a bluetooth coordinator: a device state cache, a connection
//! state machine with retry policy, a pairing-confirmation handshake, and the
//! raw byte-level power-control fallback protocol.
//!
//! The surrounding process (event loop, bus calls, file I/O) lives outside
//! this crate and drives these functions with plain values: it queries the
//! platform, hands the answers in, and performs the side effects the results
//! ask for.

pub mod coordinator;
pub mod device;
pub mod retry;
pub mod rfkill;

pub use coordinator::Coordinator;
pub use coordinator::DeviceEntry;
pub use coordinator::WorkerEvent;
pub use coordinator::WorkerRequest;
pub use device::BluetoothDevice;
pub use device::ConnectionStatus;
pub use device::DeviceProps;
pub use device::DeviceUpdate;
pub use device::device_type_to_icon;
pub use device::format_address;
pub use retry::ConnectRetry;
pub use rfkill::RfkillEntry;
pub use rfkill::RfkillError;
pub use rfkill::resolve_adapter_index;
pub use rfkill::rfkill_event_bytes;
