//! The persisted user settings: the watched folder and the export / output
//! preferences. Every preference is optional, so a settings file from an
//! older version (or none at all) still loads.

use vstd::prelude::*;
use crate::library::output_root;
use crate::media::opt_string;
use crate::naming::{nonblank, opt_view};

verus! {

/// The user's settings; `None` until the user has saved a value.
pub struct Settings {
    pub watched_folder: Option<String>,
    /// "lossless" | "compress"
    pub export_mode: Option<String>,
    /// "size" | "quality"
    pub compress_by: Option<String>,
    pub target_mb: Option<u32>,
    /// The quality preset.
    pub quality: Option<String>,
    pub delete_original: Option<bool>,
    /// Where exports are written when set (non-blank); next to the source
    /// Clip otherwise.
    pub output_dir: Option<String>,
    /// The template of the default output stem (`{name}`, `{action}`).
    pub naming_scheme: Option<String>,
    /// The theme's accent colour (hex).
    pub accent: Option<String>,
}

impl Default for Settings {
    fn default() -> (r: Self)
        ensures
            r.watched_folder is None && r.export_mode is None && r.compress_by is None
                && r.target_mb is None && r.quality is None && r.delete_original is None
                && r.output_dir is None && r.naming_scheme is None && r.accent is None,
    {
        Settings {
            watched_folder: None,
            export_mode: None,
            compress_by: None,
            target_mb: None,
            quality: None,
            delete_original: None,
            output_dir: None,
            naming_scheme: None,
            accent: None,
        }
    }
}

impl Settings {
    /// The output folder override: the trimmed setting, or `None` (write
    /// next to the source) when it is missing or blank.
    pub fn output_folder(&self) -> (r: Option<String>)
        ensures
            match r {
                Some(d) => nonblank(opt_string(self.output_dir)) == Some(d@),
                None => nonblank(opt_string(self.output_dir)) is None,
            },
    {
        match &self.output_dir {
            Some(d) => {
                let ds = d.as_str();
                assert(opt_view(Some(ds)) == opt_string(self.output_dir));
                output_root(Some(ds))
            },
            None => {
                assert(opt_view(None) == opt_string(self.output_dir));
                output_root(None)
            },
        }
    }
}

} // verus!
