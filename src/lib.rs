//! Stock watching for a parts vendor: configuration parsing, extraction of the
//! stock count from a search page, planning of the notification mails, and the
//! admission control that bounds how many product checks run at once.

pub mod text;
pub mod config;
pub mod stock;
pub mod notify;
pub mod scheduler;
