pub mod memmap;
pub mod sect_alloc;
