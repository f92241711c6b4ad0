//! Projective geometric algebra Cl(3,0,1): the combinatorics of its sixteen
//! basis blades.
//!
//! A basis blade is a bitmask over the generators (bit 0 = e1, bit 1 = e2,
//! bit 2 = e3, bit 3 = e0), with e1^2 = e2^2 = e3^2 = 1 and e0^2 = 0. Every
//! operator of the algebra acts blade by blade: a product sends a pair of
//! blades to one blade with a sign (or annihilates it), and the reversions and
//! the Hodge dual send a blade to one blade with a sign. This crate computes
//! those slots and signs and proves the laws they obey.
//!
//! - `blade`: grades, names and the display order of the blades.
//! - `product`: the geometric and outer products of blades.
//! - `reversion`: the signs of reversal and grade involution.
//! - `dual`: the Hodge dual and its inverse.

pub mod blade;
pub mod dual;
pub mod product;
pub mod reversion;

pub use blade::{blade_grade, blade_name, blades_by_grade, popcount, NUM_COMPONENTS, NUM_GRADES};
pub use dual::{dual_slot, undual_slot};
pub use product::{gp_blade, op_blade, GENERATOR_METRIC};
pub use reversion::{involution_negates, reverse_negates};
