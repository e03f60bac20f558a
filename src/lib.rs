//! Posit arithmetic over generic widths, with a fixed-scale exact accumulator
//! (`Quire`) and a floating-scale renormalizing accumulator (`FLQuire`).
pub mod codec;
pub mod posit;
pub mod quire;
pub mod flquire;
