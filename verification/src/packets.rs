pub mod c2s;
pub mod s2c;
pub mod stage;
