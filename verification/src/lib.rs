use vstd::prelude::*;

pub mod access;
pub mod audit;
pub mod config;
pub mod container;
pub mod json;
pub mod launch;
pub mod proxy;
pub mod sandbox;
pub mod text;
