//! A transactional registry for uniquely identified digital assets
//! ("kitties"). Assets are created, bred from two parents, transferred,
//! listed for sale and bought; every ownership change is backed by a fixed
//! stake reserved against the owner's ledger balance.

pub mod genome;
pub mod ledger;
pub mod pallet;
pub mod randomness;

pub use genome::Kitty;
pub use ledger::Ledger;
pub use ledger::LedgerError;
pub use pallet::Config;
pub use pallet::Error;
pub use pallet::Event;
pub use pallet::Pallet;
pub use randomness::CounterSeed;
pub use randomness::IdentitySource;
