//! Document model and pure logic of a slide-presentation editor: geometry in EMU,
//! colours and themes, fractional order keys, the entity/component store, the
//! master/layout/slide inheritance rules, and the text, XML and path helpers the
//! editor and the file formats are built on.

pub mod anim;
pub mod authoring;
pub mod builtins;
pub mod color;
pub mod commands;
pub mod doc;
pub mod frame;
pub mod font;
pub mod frac;
pub mod geom;
pub mod highlight;
pub mod image;
pub mod import;
pub mod keys;
pub mod labels;
pub mod media;
pub mod ooxml;
pub mod paint;
pub mod paths;
pub mod persist;
pub mod pptx;
pub mod presentation;
pub mod readback;
pub mod reorder;
pub mod shape;
pub mod slides;
pub mod snap;
pub mod strings;
pub mod text;
pub mod textcmd;
pub mod textedit;
pub mod textnav;
pub mod theme;
pub mod units;
pub mod world;
pub mod xmltext;
