pub mod errors;
pub mod contract;
pub mod cost;
pub mod laws;
pub mod ledger;
pub mod assoc;
pub mod id;
pub mod record;
pub mod text;
