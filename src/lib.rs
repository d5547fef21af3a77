pub mod error;
pub mod init;
pub mod locate;
pub mod path;
pub mod repository;
