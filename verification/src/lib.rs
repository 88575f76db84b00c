//! ENet: a thin, robust communication layer on top of UDP, with optional reliable,
//! in-order delivery of packets, made agnostic to the underlying socket.
//!
//! The library holds the protocol logic of ENet: the wire format of protocol commands,
//! the sequencing of incoming commands per channel, the bookkeeping of peers (round trip
//! times, throttling, time outs, windows), bandwidth management of a host, and the CRC32
//! checksum. Each of these is stated with a contract and proved.
#![allow(unused_imports)]

pub mod consts;
pub mod address;
pub mod version;
pub mod os;
pub mod packet;
pub mod protocol;
pub mod channel;
pub mod crc32;
pub mod peer;
pub mod error;
pub mod outgoing;
pub mod incoming;
pub mod fragment;
pub mod acknowledge;
pub mod control;
pub mod event;
pub mod handlers;
pub mod host;
pub mod dispatch;
pub mod list;
pub mod socket;
pub mod connected;
pub mod compressor;
pub mod timeouts;
pub mod sending;
pub mod service;
pub mod throttle;
pub mod peer_api;
pub mod read_write;
pub mod connected_host;
