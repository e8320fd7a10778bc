//! Pooled flash-loan accounting: lenders deposit into a shared treasury and
//! hold growing claims on it, borrowers take funds out and must return them
//! with a fee before their operation completes, and accrued fees are folded
//! back into the lenders' claims.

pub mod decimal;
pub mod fees;
pub mod flash_loan;
pub mod laws;
pub mod obligation;
pub mod registry;

