//! A minimal DNS client core.
//!
//! The crate builds A-record queries in DNS wire format and decodes the
//! answer section of a response buffer into dotted-decimal IPv4 strings.
//! Transport (UDP) is left to the caller; the functions here are pure.

pub mod addr;
pub mod answer;
pub mod cursor;
pub mod errors;
pub mod fields;
pub mod name;
pub mod query;

pub use addr::dotted_quad;
pub use addr::format_ipv4;
pub use answer::addr_strings;
pub use answer::decode_spec;
pub use answer::deserialize_dns_answer;
pub use answer::header_ancount;
pub use answer::parse_answers;
pub use answer::skip_name;
pub use cursor::Reader;
pub use errors::DnsError;
pub use fields::be16;
pub use fields::be32;
pub use name::host_labels;
pub use name::read_labels;
pub use name::transform_cname_for_query;
pub use name::valid_hostname;
pub use name::wire_name;
pub use query::build_query;
pub use query::build_query_with_id;
pub use query::query_message;
