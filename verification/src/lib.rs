pub mod command;
pub mod playlist;
pub mod song;
pub mod text;
