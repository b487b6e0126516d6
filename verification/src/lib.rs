//! The engine of a mail, contacts and calendar client: the canonical model,
//! the readers for the text formats the protocols speak, and the decisions the
//! sync engine makes, each stated as a contract and proved.

pub mod text;
pub mod model;
pub mod contentline;
pub mod auth;
pub mod ical;
pub mod vcard;
pub mod imap;
pub mod config;
pub mod oauth;
pub mod at_rest;
pub mod jmap;
pub mod xml;
pub mod dav;
pub mod engine;
pub mod smtp;
