//! A verified non-fungible-token registry.
//!
//! The registry hands out token identities, keeps for every owner a dense
//! collection of the identities it holds, keeps a reverse index from each
//! identity to its owner and position, and enforces delegated authorization
//! for transfers. Every operation either commits fully or reports a typed
//! failure and leaves the registry unchanged; the consistency of the two
//! indexes is proved for every reachable state.

pub mod address;
pub mod types;
pub mod index_model;
pub mod ownership;
pub mod metadata;
pub mod registry_model;
pub mod parts;
pub mod contract;
pub mod laws;

pub use address::Address;
pub use contract::NftContract;
pub use metadata::NFTMetadata;
pub use parts::ContractParts;
pub use registry_model::{Op, RegistryState};
pub use index_model::IndexState;
pub use ownership::OwnershipIndex;
pub use types::{NftError, NftEvent, OwnerInfo, MAX_SUPPLY};
