//! The machine's sensors: what their readings mean and how they are asked.
pub mod pressure;
pub mod temperature;
