pub mod broadcast;
pub mod echo;
pub mod generate;
pub mod init;
pub mod multi;
pub mod protocol;
