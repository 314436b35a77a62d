//! The decision core of an offline ray tracer.
//!
//! Every scalar that crosses this crate's boundary is an *order code*: a signed
//! integer that stands for one binary64 number, such that smaller numbers have
//! smaller codes, zero has code zero and negation negates the code (see
//! [`scalar`]). Everything the renderer decides by comparing numbers is done
//! here on codes and proved: ranges and boxes, the slab test, the choice of a
//! root, the nearest hit of a scan and of the hierarchy, the rules of the
//! materials, the length of a path, the split of an image among workers and
//! its assembly.
//!
//! A code beyond those of the infinities stands for a bit pattern that is
//! not a number. Nothing is found less or greater than such a value, and a
//! minimum or maximum passes over it, as binary64 has it: every comparison in
//! this crate goes through [`scalar`], and the contracts say what is decided
//! on such values too. Only the order in which a span of objects is sorted
//! is that of the codes themselves, so that it is an order on all of them.
//!
//! The arithmetic that produces the numbers is the caller's. Where a function
//! needs some of it in mid-course it takes a closure, and its contract says
//! what it returns for whatever the closure answers.

pub mod scalar;
pub mod interval;
pub mod vec;
pub mod aabb;
pub mod ray;
pub mod hittable;
pub mod sphere;
pub mod bvh;
pub mod nearest;
pub mod material;
pub mod image;
pub mod camera;
pub mod utils;
