pub mod deprterminal;
