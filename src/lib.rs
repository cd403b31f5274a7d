//! Managing a local collection of versioned addons from a remote catalog: choosing files by
//! stability channel and game version, resolving required dependencies, detecting declared
//! incompatibilities, checking transfers and installs, and staging filesystem changes so that
//! an install either lands completely or rolls back.
pub mod release_type;
pub mod addon;
pub mod channel;
pub mod incompat;
pub mod text;
pub mod version;
pub mod conf;
pub mod deps;
pub mod finalize;
pub mod transfer;
pub mod paths;
pub mod validate;
pub mod query;
pub mod ops;
pub mod install;
pub mod matching;
