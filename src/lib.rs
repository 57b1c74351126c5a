pub mod add;
pub mod cardface;
pub mod carddb;
pub mod cardfolder;
pub mod commands;
pub mod content;
pub mod error;
pub mod folder;
pub mod hash;
pub mod init;
pub mod keyed;
pub mod meta;
pub mod schema;
pub mod sorted;
pub mod tag;
pub mod tagcli;
pub mod text;
pub mod varg;
