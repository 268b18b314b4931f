//! A music player's memory of what its listener likes: a graph of songs in
//! which the weight of an edge says how well one song follows another, and from
//! which the song to play first and the song to play next are drawn at random,
//! by weight.
//!
//! - [`markov`] holds the graph and [`weights`] the weights of one item's edges;
//!   [`assoc`] is the model behind both, a list of keys and values.
//! - [`sampler`] draws an item by weight, or a key at random.
//! - [`database`] says what a durable store offers and holds the rows of its
//!   tables; [`snapshot`] turns the graph into rows and rows into the graph;
//!   [`service`] keeps a graph and its store in step; [`state`] is what a
//!   session keeps from one run to the next.
//! - [`handle`] lists a directory and moves a cursor through the listing.
//! - [`socket`] answers the commands of the daemon's socket, [`ui`] names the
//!   commands behind the keys, [`player`] and [`config`] hold what is decided
//!   about the player and the settings, [`song`] says what a song is, and
//!   [`text`] compares strings.

pub mod assoc;
pub mod config;
pub mod database;
pub mod handle;
pub mod markov;
pub mod player;
pub mod sampler;
pub mod service;
pub mod snapshot;
pub mod socket;
pub mod song;
pub mod state;
pub mod text;
pub mod ui;
pub mod weights;
