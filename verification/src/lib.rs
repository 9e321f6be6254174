//! Regulatory fintech building blocks: exact decimal money arithmetic, the
//! debt-burden (PDN) calculation, a hash-chained audit trail, canonical
//! report hashing, a typestate lending workflow, and the pure decision logic
//! of the CBR anti-fraud and SMEV 4 clients.

pub mod decimal;
pub mod pdn;
pub mod digest;
pub mod text;
pub mod ids;
pub mod audit;
pub mod smev;
pub mod smev_services;
pub mod rsocket;
pub mod antifraud;
pub mod lending;
pub mod report;
