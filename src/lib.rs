//! Resolution of registry network listings: decoding of textual IP
//! addresses and a streaming reader that turns a WHOIS-REST XML document
//! into the list of address ranges it describes.

pub mod address;
pub mod model;
pub mod events;
pub mod xmlparser;
pub mod lemmas;
pub mod query;
