//! Host records, the host form, the dashboard host list and file-listing
//! logic of an SSH/SFTP/FTP host manager.
pub mod text;
pub mod order;
pub mod client;
pub mod form;
pub mod hostlist;
pub mod hosts;
pub mod files;
pub mod dashboard;
