//! The core of an LDAP client with bounds on memory, depth and outstanding requests.
//!
//! - `asn1`, `parse`, `write`: BER elements, and reading and writing them under limits;
//!   `spelling` says what bytes an element can be, and `roundtrip` has the laws of both.
//! - `controls`, `protocol`, `allocation`: messages, their frames, and what they take;
//!   `framing`, `message_laws` and `allocation_laws` have the laws.
//! - `filter`: search filters as text, by the `filter_grammar`; `filter_names` and
//!   `filter_meaning` say what text is a filter and what it means, and `filter_laws` what else
//!   holds.
//! - `requests`, `result`: operations and their results; `operation_laws` and `request_laws` have
//!   the laws.
//! - `ids`, `raw`, `conn`: the requests that wait on a connection, and what it does with
//!   responses; `delivery_laws`, `driver_laws` and `raw_laws` have the laws.
//! - `sasl`, `tls`, `target`: security layers, certificates and URLs; `security_laws` and
//!   `target_laws` have the laws.
//! - `buffer`, `channels`, `text`: what is taken from other crates as they document it.
//!
//! A law of a function speaks of its calls: `call_ensures` stands for one that was made with
//! these arguments and gave this result.
pub mod allocation;
pub mod allocation_laws;
pub mod ascii;
pub mod asn1;
pub mod buffer;
pub mod channels;
pub mod conn;
pub mod controls;
pub mod delivery_laws;
pub mod driver_laws;
pub mod error;
pub mod filter;
pub mod filter_grammar;
pub mod filter_laws;
pub mod filter_meaning;
pub mod filter_names;
pub mod framing;
pub mod ids;
pub mod message_laws;
pub mod operation_laws;
pub mod parse;
pub mod protocol;
pub mod raw;
pub mod raw_laws;
pub mod request_laws;
pub mod requests;
pub mod result;
pub mod roundtrip;
pub mod sasl;
pub mod security_laws;
pub mod spelling;
pub mod target;
pub mod target_laws;
pub mod text;
pub mod tls;
pub mod write;
