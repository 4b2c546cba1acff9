//! Host-side interception for an overlay network: which packets are captured, which service they
//! are dialled to, and how the connections and name queries that follow are run.

pub mod addr;
pub mod addr_laws;
pub mod answer_laws;
pub mod config;
pub mod config_laws;
pub mod dispatch;
pub mod dns;
pub mod dns_laws;
pub mod dns_server;
pub mod endpoint_laws;
pub mod error;
pub mod flows;
pub mod intercept_laws;
pub mod json;
pub mod names;
pub mod plan_laws;
pub mod proxy;
pub mod proxy_conn;
pub mod proxy_resolve;
pub mod relay_laws;
pub mod resolve;
pub mod resolve_laws;
pub mod route_laws;
pub mod routes;
pub mod splice;
pub mod stack;
pub mod table;
pub mod text;
pub mod text_laws;
pub mod udp;
pub mod udp_flows;
pub mod upstream;
pub mod vconn;
