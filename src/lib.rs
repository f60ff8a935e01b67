//! Backend logic of a desktop media application: safe extraction of ZIP archives
//! into a local data tree, a small router for serving video files, media
//! download targets, image data URIs and daily log lines.

pub mod archive;
pub mod text;
pub mod media;
pub mod logs;
pub mod download;
pub mod datauri;
