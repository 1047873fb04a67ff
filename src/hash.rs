pub mod computing;
pub mod label;
pub mod ring;
