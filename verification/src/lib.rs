//! Relaxation of a chain of points towards a minimum energy path.
//!
//! A chain is laid out between two anchors and swept again and again. Each
//! sweep moves every free point by a rule that reads the point and its two
//! neighbours, as they stood before the sweep. The relaxation ends when a
//! sweep gains less energy than a threshold.
//!
//! The library fixes what is read and written, in which order, and when the
//! relaxation stops. It does not look into a point, an energy or a spring
//! stiffness: these are type parameters, and the rules that compute with
//! them (where a point goes, what the energy of a point is, whether a gain
//! is small) are functions that the caller hands in. What the library
//! guarantees is stated in terms of what those functions return.
//!
//! - [`chain`]: the chain, its layout, one sweep over it, its energy.
//! - [`driver`]: the book-keeping of a relaxation, iteration by iteration.
//! - [`relax`]: the descent of a single point, used for the anchors.

pub mod chain;
pub mod driver;
pub mod relax;
