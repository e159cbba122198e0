pub mod bytes;
pub mod sdk;
pub mod strings;
pub mod framebuffer;
pub mod desktop;
pub mod mouse;
pub mod app_wm;
pub mod events;
pub mod elf;
pub mod input;
pub mod ata;
pub mod fs;
pub mod button;
pub mod cursor;
pub mod splash;
pub mod chrome;
pub mod task;
pub mod interrupts;
pub mod welcome;
pub mod app;
pub mod apps;
pub mod shell;
pub mod memory;
pub mod archive;
