//! Verified core of an operations toolkit for marketplace inventory files.
pub mod text;
pub mod calendar;
pub mod columns;
pub mod inventory;
pub mod stock;
pub mod dates;
pub mod register;
pub mod restock;
pub mod shipment;
pub mod future_price;
pub mod cost;
pub mod invoice;
pub mod order;
pub mod tsv;
pub mod conversion;
