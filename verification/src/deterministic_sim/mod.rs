//! A deterministic simulation engine: fixed-point numbers computed with
//! integers only, entities kept in id order, and systems run in name order.
pub mod fixed_point;
pub mod fixed_point_order;
pub mod sim;
