//! `media build`: folder to ISO/floppy image.

use vstd::prelude::*;

use crate::config::model::MediaKind;
use crate::text::{cat3, str_eq};

verus! {

/// Images from folders.
#[derive(Debug)]
pub enum MediaCmd {
    /// Build an image from a folder
    Build { kind: String, from: String, out: String, label: Option<String> },
}

/// The kind of image that a word names.
pub fn media_kind(kind: &str) -> (r: Result<MediaKind, String>)
    ensures
        match r {
            Ok(MediaKind::Iso) => kind@ == "iso"@,
            Ok(MediaKind::Floppy) => kind@ == "floppy"@,
            Err(e) => kind@ != "iso"@ && kind@ != "floppy"@ && e@ == "unknown media kind `"@
                + kind@ + "` (expected iso, floppy)"@,
        },
{
    if str_eq(kind, "iso") {
        Ok(MediaKind::Iso)
    } else if str_eq(kind, "floppy") {
        Ok(MediaKind::Floppy)
    } else {
        Err(cat3("unknown media kind `", kind, "` (expected iso, floppy)"))
    }
}

/// What is said of an image that was built.
pub fn built_message(kind: MediaKind, out: &str) -> (r: String)
    ensures
        r@ == (match kind {
            MediaKind::Iso => "built ISO "@ + out@,
            MediaKind::Floppy => "built floppy "@ + out@,
        }),
{
    match kind {
        MediaKind::Iso => crate::text::joined("built ISO ", out),
        MediaKind::Floppy => crate::text::joined("built floppy ", out),
    }
}

} // verus!
