pub mod correlation;
pub mod keyed;
pub mod message;
pub mod node;
pub mod peers;
pub mod protocols;
pub mod workloads;
