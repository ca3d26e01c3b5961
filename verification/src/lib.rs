//! Session-helper protocol logic: the control-channel message codec, the
//! streaming frame state machine, descriptor adoption, and the relay
//! forwarding rules, each with a verified contract.

pub mod channel;
pub mod codec;
pub mod frame;
pub mod messages;
pub mod relay;
pub mod snapshot;

pub use messages::DecodeError;
pub use messages::Message;
pub use messages::MsgModel;
