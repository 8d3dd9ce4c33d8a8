//! A small employee-directory service together with a handful of verified
//! utility routines.
//!
//! The heart of the crate is the directory: a command grammar (`command`),
//! an in-memory store mapping departments to employees (`directory`), and an
//! executor that applies parsed commands to the store (`executor`). Around it
//! stand independent verified helpers: lexicographic string ordering and
//! sorting (`order`), whitespace tokenization (`tokenizer`), and a few small
//! routines (`basics`, `fib`, `carol`, `piglatin`, `workout`, `config`,
//! `samples`, `restaurant`, `restaurant_use`).

pub mod basics;
pub mod carol;
pub mod command;
pub mod config;
pub mod directory;
pub mod executor;
pub mod fib;
pub mod order;
pub mod piglatin;
pub mod restaurant;
pub mod restaurant_use;
pub mod samples;
pub mod tokenizer;
pub mod workout;
