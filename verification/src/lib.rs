//! Core logic of an adaptive-streaming downloader: a playlist data model with
//! derived queries, deterministic stream selection, byte-range partitioning,
//! AES key/IV derivation, and a subtitle cue merger with WebVTT/SubRip
//! renderers.
#![allow(unused_imports)]
use vstd::prelude::*;

pub mod parsers;
pub mod playlist;
pub mod select;
pub mod sniff;
pub mod subtitles;
pub mod text;
