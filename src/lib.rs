//! Fixed-step explicit Euler integration of a scalar ODE, with the
//! bookkeeping of each sample and the framing of the result table.
pub mod euler;
pub mod table;
