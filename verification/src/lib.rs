pub mod addr;
pub mod bundle;
pub mod cfg;
pub mod codec;
pub mod dt;
pub mod msg;
pub mod pkt;
pub mod store;
pub mod tosser;
pub mod util;
