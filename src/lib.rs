pub mod finger;
pub mod notation;
pub mod spacing;
pub mod tone;
