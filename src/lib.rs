//! Structure of qudit circuits: radix systems, gate descriptions, operation
//! placement, cycle grouping, tensor embedding of gates and the product-rule
//! plan for gradients.
pub mod radix;
pub mod gate;
pub mod circuit;
pub mod embed;
pub mod plan;
