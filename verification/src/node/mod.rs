//! The control plane of one node.

pub mod adaptive;
pub mod alert;
pub mod attackers;
pub mod audit;
pub mod auth;
pub mod blacklist_sync;
pub mod config;
pub mod config_laws;
pub mod console_laws;
pub mod control;
pub mod copies;
pub mod danger;
pub mod events;
pub mod figure_laws;
pub mod geoip;
pub mod hub_client;
pub mod ip_report;
pub mod keeping_laws;
pub mod login_limiter;
pub mod modules;
pub mod offender_laws;
pub mod packet_log;
pub mod pattern_laws;
pub mod port_rule;
pub mod projects;
pub mod records;
pub mod report;
pub mod rule_laws;
pub mod snapshot;
pub mod startup;
pub mod stats;
pub mod status;
pub mod sync;
pub mod table_laws;
pub mod table_plan;
pub mod telling_laws;
pub mod threat_intel;
pub mod timeseries;
pub mod tui;
pub mod validate;
pub mod web;
