pub mod text;
pub mod ports;
pub mod arp;
pub mod web_banner;
pub mod vendor;
pub mod ip_range;
pub mod limits;
pub mod pinger;
pub mod scanner;
pub mod cli;
pub mod export;
pub mod gui;
