//! The decisions of the request handlers, one module for each group of
//! entry points.

/// Login, logout, the home page and the error page.
pub mod auth;
/// The health check, the login form and the profile page.
pub mod basics;
/// Pages of files and directories, media and subtitles.
pub mod media;
/// Deleting and renaming.
pub mod fileio;
/// Uploads.
pub mod upload;
