pub mod bench;
pub mod gen;
pub mod harness;
pub mod order;
pub mod quick;
pub mod sequence;
