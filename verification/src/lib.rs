//! Batched discharge of deferred monster claims, and what goes with it.
//!
//! When many proofs of one constraint system are aggregated, each leaf verifier defers one large
//! multilinear evaluation, the monster evaluation, as a claim: a point and a value. This crate
//! certifies many such claims with one batched argument.
//!
//! - [`table`], [`claim`], [`monster`]: the term table of a constraint system, claims, and the
//!   monster evaluation as a sum over the table.
//! - [`histogram`], [`reduction`]: the histograms of a table under a row challenge, and how they
//!   answer a claim.
//! - [`poles`], [`fracadd`]: the fraction tree that ties the histograms to the table.
//! - [`cubic`], [`packed`], [`merged`], [`discharge`]: the provers' tables, batched weights and the
//!   merged opening.
//! - [`step1`]: the native mode, in which the verifier rebuilds the histograms.
//! - [`step2`], [`vk`]: the committed mode, in which it opens committed tables, and its key.
//! - [`soundness`]: why false claims are caught.
//! - [`synth`], [`recorder`]: synthetic systems and claims, and captured ones.
//!
//! Both modes are state machines: a state awaits one message, challenge or outside check, and the
//! method that takes it makes the library's own check and gives the next state. [`native`] and
//! [`step2::run`] run a verifier over everything that it receives, and say when it accepts.
//!
//! Two smaller parts stand beside the discharge. [`vision`] holds circuit gadgets for the Vision
//! permutations over the same field, and [`bip32`] the paths, keys, addresses and proof files of
//! Bitcoin signatures of knowledge. [`field`] and [`multilinear`] are the arithmetic below it all.

pub mod bip32;
pub mod claim;
pub mod cs;
pub mod cubic;
pub mod digest;
pub mod discharge;
pub mod encode;
pub mod error;
pub mod field;
pub mod fracadd;
pub mod histogram;
pub mod merged;
pub mod messages;
pub mod mode;
pub mod monster;
pub mod multilinear;
pub mod native;
pub mod packed;
pub mod poles;
pub mod recorder;
pub mod reduction;
pub mod soundness;
pub mod step1;
pub mod step2;
pub mod synth;
pub mod table;
pub mod text;
pub mod vision;
pub mod vk;
pub mod word;
