//! Game logic of the Nebula Nomad exploration game: vaults, wormholes,
//! alliances, markets, navigation and the other on-ledger rules, each held
//! in a store of plain values and stated by its contract.

pub mod types;
pub mod shared_lib;
pub mod navigation_planner;
pub mod prize_distributor;
pub mod audio_seed_generator;
pub mod wormhole_traveler;
pub mod constellation_mapper;
pub mod resource_minter;
pub mod dex_integration;
pub mod randomness_oracle;
pub mod alliance_manager;
pub mod market_oracle;
pub mod treasure_vault;
pub mod config_updater;
pub mod entanglement_comms;
pub mod portal_registry;
pub mod difficulty_scaler;
pub mod referral_system;
pub mod session_manager;
pub mod sustainability_metrics;
pub mod anomaly_classifier;
pub mod audit_logger;
pub mod blueprint_factory;
