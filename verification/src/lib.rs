//! Decisions of the Norted server.
#![allow(unused_imports)]
use vstd::prelude::*;

pub mod acquisition;
pub mod backend;
pub mod catalog;
pub mod cli;
pub mod commands;
pub mod doctor;
pub mod downloads;
pub mod duplicate;
pub mod engines;
pub mod externals;
pub mod hashing;
pub mod hub;
pub mod imports;
pub mod inference;
pub mod lifecycle;
pub mod manager;
pub mod order;
pub mod output;
pub mod outside;
pub mod paths;
pub mod provenance;
pub mod pruning;
pub mod receipts;
pub mod references;
pub mod resolution;
pub mod runtimes;
pub mod schemas;
pub mod selections;
pub mod sorting;
pub mod store;
pub mod supervisor;
pub mod table;
pub mod text;
pub mod updates;
pub mod versions;
