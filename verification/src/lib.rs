pub mod text;
pub mod config;
pub mod dashboard;
pub mod router;
pub mod middleware;
pub mod balancer;
pub mod health;
pub mod rate_limiter;
pub mod gateway;
pub mod proxy;
pub mod admin;
pub mod gossip;
pub mod persistence;
pub mod tui;
pub mod tls;
