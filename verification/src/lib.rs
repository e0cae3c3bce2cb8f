//! Decision core of the TraeWork assistant: everything the assistant decides or computes,
//! as verified functions over plain values.
pub mod account_laws;
pub mod accounts;
pub mod checkin;
pub mod checkin_laws;
pub mod choosing;
pub mod clock;
pub mod command_laws;
pub mod commands;
pub mod endpoint;
pub mod gate;
pub mod gate_laws;
pub mod gateway;
pub mod http;
pub mod http_laws;
pub mod inject;
pub mod inject_laws;
pub mod journal;
pub mod json;
pub mod number;
pub mod patch;
pub mod paths;
pub mod place_laws;
pub mod proxy;
pub mod proxy_laws;
pub mod realtime;
pub mod realtime_laws;
pub mod refresh;
pub mod renewal_laws;
pub mod route_laws;
pub mod routing;
pub mod rules;
pub mod scheduler;
pub mod session;
pub mod session_laws;
pub mod table;
pub mod target;
pub mod text;
pub mod view_laws;
