//! Path classification and fuzzy ranking for a "jump to project" picker.
//!
//! The library ranks candidate directories (project checkouts, repository
//! clones, workspace trees) against a query that a user types, and shortens
//! paths for a shell prompt. Data flows one way:
//!
//! - [`path_shortener`] classifies a path into a type and the segments below
//!   the root of that type, and renders the classification into tagged
//!   components, in full or abbreviated; [`prompt`] cuts the rendering into
//!   the three parts of a prompt;
//! - [`candidate`] flattens the components of a candidate into the text
//!   that is matched, with the offsets of each piece;
//! - [`alignment`] finds every way in which a query occurs in that text,
//!   [`scoring`] says what each way is worth, and [`scorer`] takes the best;
//! - [`worktree_collector`] filters and sorts the candidates by total score,
//!   and [`navigator`] decides between picking the winner at once and
//!   asking the user.
//!
//! Around these stand the rules of the program that are no input or output
//! themselves: [`frecency`] scores, [`sections`] of a prompt, the
//! [`shell_init`] functions, [`config`] and the settings of the
//! [`src_provider`] and [`worktree_provider`].
//!
//! Nothing here reads the file system, the environment or a terminal. What a
//! function needs of the machine it takes as an argument.
//!
//! # Scores
//!
//! A score is a whole number of hundredths of a point ([`scoring::Score`]).
//! All weights of the scheme are exact in that unit. A score may be below
//! zero; a candidate matches a query where its score is above zero.
//!
//! # What is verified, and what is taken on trust
//!
//! Every function is verified against its contract, with these exceptions,
//! whose contracts are believed: the calls of `str::to_lowercase`,
//! `char::is_alphanumeric`, `char::is_whitespace` and `String::push` in
//! [`text`], the search with the `regex` crate in [`path_shortener`], and
//! the comparison with the `semver` crate in [`shell_init`]. Where the
//! outcome of such a call is more than a few lines can say, the contract
//! only gives it a name, and the contracts of the functions built on it
//! speak of that name.

pub mod alignment;
pub mod candidate;
pub mod candidate_provider;
pub mod config;
pub mod frecency;
pub mod navigator;
pub mod path_shortener;
pub mod prompt;
pub mod provider;
pub mod scorer;
pub mod scoring;
pub mod sections;
pub mod shell_init;
pub mod src_provider;
pub mod text;
pub mod utils;
pub mod worktree_collector;
pub mod worktree_provider;
