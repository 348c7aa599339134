pub mod wire;
pub mod utp;
pub mod protocol;
pub mod session;
