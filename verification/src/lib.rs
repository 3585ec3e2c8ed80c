//! Tumor/normal base depth at variant positions.
//!
//! For each variant position and each of the two samples, the reads of one
//! pileup column are sorted into reference, alternate and other calls, and
//! into those that are left out (filtered reads, deletions, reference skips).
//! The counts of one column form a [`depth::PilePosition`].
//!
//! Reading alignment files, variant files and the command line is left to
//! the program around this library: it hands the library plain values
//! ([`pileup::PileupColumn`], [`vcf::VcfRecord`], [`cli::Cli`]) and takes
//! records back.
pub mod compact;
pub mod pileup;
pub mod depth;
pub mod vcf;
pub mod dispatch;
pub mod cli;
