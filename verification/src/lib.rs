//! A local bridge between untrusted front ends and a privileged
//! app-management backend reached over a local socket.
//!
//! The bridge speaks a length-free, CR-LF-terminated JSON protocol
//! (`frame`, `codec`), and guards privileged install requests arriving
//! from the network behind an RSA signature check (`gate`); the named
//! operations of the backend are built in `router`.

pub mod codec;
pub mod decode;
pub mod frame;
pub mod gate;
pub mod router;

pub use codec::encode_frame;
pub use decode::decode;
pub use decode::Decoded;
pub use gate::authorize_install;
pub use gate::authorize_install_pwa;
pub use gate::sha256;
pub use gate::verify_signature;
pub use gate::Digester;
pub use gate::GateOutcome;
pub use gate::SignatureError;
pub use gate::TrustKey;
pub use router::encode;
pub use router::install;
pub use router::install_pwa;
pub use router::list;
pub use router::uninstall;
pub use router::Command;
pub use frame::find_terminator;
pub use frame::FrameReader;

