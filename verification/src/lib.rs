pub mod bytes;
pub mod codec;
pub mod delta;
pub mod errors;
pub mod remote;
pub mod resource;
pub mod session;
pub mod state;
pub mod txn;
pub mod view;
