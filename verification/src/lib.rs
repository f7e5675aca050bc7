//! Verified core of a small plotting toolkit: the order keys that stand for
//! the plotted numbers, runs of equal values, sorting, the five-number
//! summary positions, outlier selection and the widgets' event decisions.

pub mod key;
pub mod runs;
pub mod sort;
pub mod summary;
pub mod widgets;
