//! Learning linear temporal logic formulae from labelled finite traces.
//!
//! A sample holds the traces on which a formula has to hold and those on
//! which it has to fail. The search tries the candidate formulae size after
//! size and returns one of the first size that has a formula agreeing with
//! the sample.
//!
//! - `syntax`: formulae, what they mean on a finite trace, how they print.
//! - `order`: structural equality and a total order on formulae.
//! - `trace`: samples and whether a formula agrees with one.
//! - `prune`: the filters that keep one of several formulae that say the same.
//! - `identities`: the proofs that what a filter refuses says the same as
//!   another formula.
//! - `learn`: the candidates of each size and the search among them.
//! - `lists`: pairs and concatenation of lists, for the enumeration.

pub mod identities;
pub mod learn;
pub mod lists;
pub mod order;
pub mod prune;
pub mod syntax;
pub mod trace;
