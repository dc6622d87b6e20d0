//! Terminal system-information summary: ANSI-aware width measurement, bordered
//! boxes, section stacks and the choice of a layout for the terminal at hand,
//! with the parsing of the settings and of the system files it shows.

pub mod colorcontrol;
pub mod configloader;
pub mod coremodules;
pub mod fontmodule;
pub mod geometry;
pub mod hardwaremodules;
pub mod helpers;
pub mod image;
pub mod imagerender;
pub mod renderer;
pub mod userspacemodules;
pub mod width;
