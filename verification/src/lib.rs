//! Integer and ordering logic of the spectral toolkit: the layout of DFT
//! bins, the selection and ranking of dominant frequencies, the moving-average
//! windows of the health decomposition, and the decision rules of the
//! conservation and transport checks.
//!
//! Real-valued quantities enter this crate as IEEE-754 bit patterns and are
//! compared through `float_order::float_order_key`.
pub mod alert_dft;
pub mod conservation;
pub mod distill_transport;
pub mod fisher_rooms;
pub mod float_order;
pub mod health_spectral;
