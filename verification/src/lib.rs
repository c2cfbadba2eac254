//! Verified core of a scripted short-video renderer: the `script.md`
//! timeline parser, the recorder's take bookkeeping and routing, the
//! generative-image request rules, voice backend selection, and the small
//! text formats the pipeline exchanges with ffmpeg, Chrome and the browser.

pub mod catalog;
pub mod chrome;
pub mod genai;
pub mod media;
pub mod path_name;
pub mod record;
pub mod recorder;
pub mod render;
pub mod script;
pub mod text;
pub mod voice;
