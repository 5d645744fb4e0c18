//! Consent-gated git hooks.
//!
//! A repository may commit hooks: commands in `.githooks.toml`, and scripts under
//! `.githooks/`. They run only with consent to their exact content: by the user, by
//! a recorded decision, by an override for one call, or by the signature of a key
//! that is trusted.
//!
//! The library touches no file, process or terminal. A command is a function of
//! the exchanges it has had so far (see [`world`]), and [`program`] says what to do
//! next. What every part of a command does is stated as a function whose name
//! begins in `play_`.
//!
//! - [`text`], [`order`], [`paths`], [`tree`], [`glob`], [`quote`]: text, paths and
//!   patterns.
//! - [`document`], [`config`], [`policy`], [`signers`]: the files that are read.
//! - [`world`], [`git`]: the outside world, and `git` in it.
//! - [`content`], [`consent`], [`trust`], [`prompt`], [`hook`]: what consent covers,
//!   how it is given, and what it allows.
//! - [`commands`], [`signing`], [`program`]: the commands.
//! - [`requests`]: no command of a hook is run without consent.
//! - [`replay`]: a command goes on from where it stopped.
//! - [`keeping`]: what one call of the program leaves for the next.
//! - [`covering`]: consent covers every file of the hooks, and holds for their content.
//! - [`afterwards`], [`adding`], [`attested`], [`setup`]: what a decision, a command that
//!   was added, a signature and the setup mean for later calls.
//! - [`spelling`], [`placing`], [`reading`], [`listening`]: what texts, paths, files and the
//!   output of processes come to.
//! - [`deciding`], [`answering`], [`vouching`]: who decides about hooks, and how.
//! - [`showing`], [`telling`], [`reporting`]: what the user is shown.
//! - [`tracing`], [`running`], [`performing`], [`restraint`], [`ending`], [`commanding`]:
//!   which requests are made, in which order, which are not, and how commands end.
pub mod adding;
pub mod afterwards;
pub mod answering;
pub mod attested;
pub mod commanding;
pub mod commands;
pub mod config;
pub mod consent;
pub mod content;
pub mod covering;
pub mod deciding;
pub mod document;
pub mod ending;
pub mod git;
pub mod glob;
pub mod hook;
pub mod keeping;
pub mod listening;
pub mod order;
pub mod paths;
pub mod performing;
pub mod placing;
pub mod policy;
pub mod program;
pub mod prompt;
pub mod quote;
pub mod reading;
pub mod replay;
pub mod reporting;
pub mod requests;
pub mod restraint;
pub mod running;
pub mod setup;
pub mod showing;
pub mod signers;
pub mod signing;
pub mod spelling;
pub mod telling;
pub mod text;
pub mod tracing;
pub mod tree;
pub mod trust;
pub mod vouching;
pub mod world;
