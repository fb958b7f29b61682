pub mod codec;
pub mod laws;
pub mod record;
pub mod vault;

pub use record::BIOMETRIC_WEIGHT;
pub use record::DEMOGRAPHIC_WEIGHT;
pub use record::IdentityVault;
pub use record::OwnerId;
pub use record::RecordView;
pub use vault::ErrorCode;
pub use vault::VaultStore;
