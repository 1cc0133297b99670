//! A verified core for streaming stock quotes: the server reads each client's
//! `STREAM` command, keeps a registry of clients with their keep-alive pings, and
//! sends each client the quotes of its tickers; the client builds the command and
//! reads the datagrams.
pub mod text;
pub mod address;
pub mod command;
pub mod tcp_input;
pub mod server;
pub mod quotes;
pub mod registry;
pub mod wire;
pub mod ticker_list;
pub mod response;
pub mod handler;
pub mod keep_alive;
pub mod generators;
pub mod client;
pub mod laws;
