//! A crafting engine: a catalog of recipes indexed by the crafters that
//! make them, craftability checks and crafting against a stock of
//! materials, mastery tracking, and per-player slot inventories.
pub mod assoc;
pub mod catalog;
pub mod inventory;
pub mod recipe;
pub mod smith;
pub mod stock;
