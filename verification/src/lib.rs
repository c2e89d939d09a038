//! A verified model of the Cambium carbon-credit protocol: a credit token,
//! a project registry with multi-signature governance of verifying keys, a
//! marketplace with constant-product pools and a limit order book, a
//! retirement ledger, and the proof verifier that gates minting.
//!
//! Each contract is a value whose abstract state (its view) the contracts of
//! its methods speak of; every contract keeps the log of the events it
//! publishes, and a refused call leaves every state it was given unchanged.
//! Calls between contracts go through the values handed in: the token
//! contracts deployed on the network are held in a `TokenLedger`.

pub mod amm;
pub mod common;
pub mod governance;
pub mod marketplace;
pub mod orderbook;
pub mod registry;
pub mod retirement;
pub mod solvency;
pub mod sums;
pub mod table;
pub mod token;
pub mod zk;

pub use amm::calculate_swap_output;
pub use common::{Address, Auth, Bytes32, Error, LedgerInfo, OrderSide, Proof, RetireeRef, Symbol};
pub use governance::{GovernanceConfig, Proposal, ProposalTarget, VkeyState};
pub use marketplace::{MarketEvent, MarketplaceContract, Pool};
pub use orderbook::{crosses, Fill, Order};
pub use registry::{Project, RegistryContract, RegistryEvent, Vintage};
pub use retirement::{RetirementContract, RetirementEvent, RetirementRecord};
pub use token::{CreditTokenContract, TokenError, TokenEvent, TokenLedger};
pub use zk::ZkVerifierContract;
