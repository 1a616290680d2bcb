//! Attribution of somatic point mutations to reference mutational signatures.
//!
//! The library classifies single-nucleotide variants into the 96 strand-collapsed
//! mutation categories, accumulates per-sample count vectors, validates a
//! reference signature catalog held in fixed point, drives the prune-and-refit
//! loop of the attribution fitter, and assembles the cohort report.
pub mod category;
pub mod matrix;
pub mod fit;
pub mod catalog;
pub mod cohort;
pub mod split;
