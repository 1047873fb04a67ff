pub mod hash;
