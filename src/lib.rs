//! A transactional key/value storage engine with snapshots and forks, and a
//! dispatcher that deploys service artifacts, starts service instances and
//! routes calls between them within one atomic unit of work.
pub mod keys;
pub mod keymap;
pub mod storage;
pub mod runtime;
pub mod dispatcher;
pub mod test_service;
pub mod testkit;
pub mod consolidation;
