//! Headless backend for arael-sketch, the verified part: the undo/redo
//! history, command lines (`;`-separated, with comments) and the
//! undo/redo/history/msg commands, command completion, constraint names,
//! meta-constraint records and their reconciliation, and the discrete
//! side of the sketch operations: which piece owns what after a split or
//! trim; how a fillet or chamfer corner resolves and what it adds; which
//! offset parameters are refused, which results carry a dimension, what
//! relations a side adds and which sides an update keeps; where pattern
//! copies go and what holds each; which mirror points are pinned or tied
//! and the constraints that hold the copies; which dimensions scale; and
//! how an operation's batches run as one undo group. The geometry itself,
//! in floating point, the solver's sketch, and performing the actions stay
//! outside: what the library needs of them comes in as plain values.

pub mod text;
pub mod sketch_io;
pub mod history;
pub mod complete;
pub mod commands;
pub mod ids;
pub mod meta;
pub mod split;
pub mod transfer;
pub mod corner_ops;
pub mod pattern;
pub mod mirror;
pub mod offset;
pub mod scale;
pub mod grouping;
