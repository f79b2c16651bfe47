//! A Docker-compatible container engine: the logic of image references, registry
//! exchanges, Dockerfiles, networking, the image store and the command line, each
//! function with a contract that Verus proves.

pub mod addr;
pub mod api;
pub mod asking;
pub mod auth;
pub mod boot;
pub mod builder;
pub mod building;
pub mod commands;
pub mod compose;
pub mod de;
pub mod dns;
pub mod dockerfile;
pub mod doctor;
pub mod encode;
pub mod exchanges;
pub mod filters;
pub mod fsck;
pub mod ignore;
pub mod inherit;
pub mod instructions;
pub mod ipam;
pub mod json;
pub mod listing;
pub mod manager;
pub mod network;
pub mod num;
pub mod order;
pub mod ports;
pub mod project;
pub mod pull;
pub mod pushing;
pub mod queries;
pub mod reading;
pub mod reference;
pub mod registry;
pub mod replies;
pub mod requests;
pub mod rollout;
pub mod showing;
pub mod steps;
pub mod store;
pub mod stream;
pub mod table;
pub mod text;
pub mod unicode;
pub mod unpack;
pub mod wiring;
