//! Customisation of CoreOS live images.

pub mod area;
pub mod byte_laws;
pub mod change_laws;
pub mod cmdline;
pub mod command_laws;
pub mod compose;
pub mod content_laws;
pub mod customize;
pub mod customize_commands;
pub mod editor;
pub mod embed;
pub mod error;
pub mod extract;
pub mod glob;
pub mod hook;
pub mod ignition;
pub mod image_laws;
pub mod initrd;
pub mod input;
pub mod iso;
pub mod iso_commands;
pub mod iso_config;
pub mod kargs;
pub mod laws;
pub mod miniso;
pub mod network;
pub mod operation_laws;
pub mod order;
pub mod output;
pub mod pxe;
pub mod read_back;
pub mod region;
pub mod series;
pub mod stream;
pub mod text;
pub mod text_laws;
