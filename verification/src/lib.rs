pub mod browse;
pub mod claude;
pub mod cli;
pub mod daemon;
pub mod db;
pub mod deep_search;
pub mod extract;
pub mod git;
pub mod github;
pub mod hooks;
pub mod indexing;
pub mod lemmas;
pub mod manifest;
pub mod migrate;
pub mod numbers;
pub mod order;
pub mod reflect;
pub mod release;
pub mod sanitize;
pub mod shadow;
pub mod slug;
pub mod staleness;
pub mod text;
