//! Pairs subtitle files with video files and plans the renames that give each
//! subtitle the name of its video, with a language tag where one is known.
//!
//! A directory listing is split into subtitles and videos (`scan`,
//! `classify`), both lists are sorted by file name and paired position by
//! position (`matcher`), each subtitle gets a language tag from its name or
//! from its content (`language`, `content`), and the resulting plan is
//! carried out entry by entry (`executor`). Reading directories and files
//! and renaming them is left to the caller, who brings a loader and a rename
//! operation.

pub mod classify;
pub mod cli;
pub mod content;
pub mod executor;
pub mod language;
pub mod matcher;
pub mod menu;
pub mod path;
pub mod scan;
pub mod text;
