pub mod broadcast;
pub mod echo;
pub mod g_counter;
pub mod generate;
pub mod init;
pub mod kafka;
pub mod multi;
pub mod workload;
