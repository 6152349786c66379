#![allow(non_snake_case)]
#![allow(non_upper_case_globals)]
#![allow(non_camel_case_types)]

pub mod util;
pub mod static_dict;
pub mod command;
pub mod params;
pub mod model;
pub mod hasher;
pub mod dictionary;
pub mod search;
pub mod parse;
pub mod basic_hasher;
pub mod adv_hasher;
pub mod union_hasher;
pub mod forgetful_chain;
pub mod backward;
