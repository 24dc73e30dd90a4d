//! A modular-arithmetic engine: extended-gcd-based modular inversion, an
//! overflow-safe modular multiplication primitive, and a canonical
//! residue-class value type built on top of them.

pub mod euclid;
pub mod inverse;
pub mod modular;

pub use euclid::extended_gcd;
pub use inverse::mod_floor;
pub use inverse::mod_inv;
pub use inverse::mod_mult;
pub use modular::Mod;
