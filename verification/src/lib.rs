//! An encrypted record store for a single-user secret vault: records of account, secret and
//! description, the secret sealed under a key that is widened from a master password.

pub mod db;
pub mod envelope;
pub mod error;
pub mod hexcode;
pub mod json;
pub mod laws;
pub mod memdata;
pub mod model;
pub mod records;
pub mod shelf;
pub mod text;
pub mod types;
pub mod utils;
pub mod vault;

pub use db::Database;
pub use error::Error;
pub use memdata::MemData;
pub use model::{CPandas, Screen};
pub use types::{Export, InputItem, Item, State};
pub use vault::{Unlocked, Vault};
