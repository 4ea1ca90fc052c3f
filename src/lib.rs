//! A scheduler that places fixed-duration power-drawing tasks on a discrete
//! profile of available power, so that the combined draw disturbs the profile
//! as little as possible.
pub mod time;
pub mod graph;
pub mod task;
pub mod kernel;
pub mod scheduler;
pub mod protocol;
pub mod worker;
