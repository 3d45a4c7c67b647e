//! Cubic-Bézier easing for animation, in fixed-point arithmetic.
//!
//! An easing curve maps a normalized time fraction to a normalized
//! progress fraction through a cubic Bézier curve with fixed endpoints
//! (0,0) and (1,1).  All fractions are carried as signed integers scaled
//! by `fixed::SCALE`, so every operation has an exact, machine-checked
//! contract.

pub mod bezier;
pub mod fixed;
