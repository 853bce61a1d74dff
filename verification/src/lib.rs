pub mod analysis;
pub mod spn;

pub use spn::SPN;
