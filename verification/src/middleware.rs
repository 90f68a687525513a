pub mod auth;
pub mod ip_rules;
pub mod request_id;
