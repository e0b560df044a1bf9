pub mod mmxms;
pub mod statmm;
