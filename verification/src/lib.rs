//! Verified core of CG Arena: the domain model, candidate evaluation
//! scheduling, matchmaking, match statistics and the referee protocol.
pub mod computed_stats;
pub mod config;
pub mod db;
pub mod domain;
pub mod embedded_worker;
pub mod evaluation;
pub mod lookup;
pub mod managed_referee;
pub mod match_retrieval;
pub mod matchmaking;
pub mod models;
pub mod orderings;
pub mod paths;
pub mod random;
pub mod replay_artifact;
pub mod replay_viewer;
pub mod runtime;
pub mod scheduling;
pub mod referee_adapter;
pub mod referee_checkout;
pub mod referee_flows;
pub mod sorting;
pub mod text;
pub mod total_order;
