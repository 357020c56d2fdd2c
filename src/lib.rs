pub mod key_order;
pub mod value;
pub mod table;
pub mod env;
pub mod laws;
pub mod manager;
