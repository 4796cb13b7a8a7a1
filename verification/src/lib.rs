//! A time-partitioned retrieval engine for a columnar market-data archive
//! laid out as one file per calendar day per (exchange, market type,
//! stream, symbol) tuple, named `<symbol>.<YYYY-MM-DD>.<extension>` under
//! `<base>/<exchange>/<market_type>/<stream>/`.
//!
//! The engine resolves a query key plus a closed millisecond interval into
//! the date-ordered set of files that can contain matching records, decides
//! what each file's decoded records mean for the query, filters them by
//! exact millisecond timestamp, and assembles one ordered result — either
//! materialized at once or record by record.
//!
//! The outside work — the one directory listing per query and the decoding
//! of each file — is done by the surrounding process, which hands its
//! outcomes to the functions here as plain values; every rule about what
//! those outcomes mean is specified and verified in this crate.
pub mod config;
pub mod date;
pub mod engine;
pub mod error;
pub mod file_finder;
pub mod fs;
pub mod records;
pub mod seq_util;
