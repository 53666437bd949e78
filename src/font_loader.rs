//! Where the font comes from: a file, an installed font by name, or the
//! font bundled with the program.
use crate::code_to_pdf::{extension_of, path_extension};
use vstd::prelude::*;
use vstd::utf8::encode_utf8;

verus! {

/// Where to look for a font.
#[derive(Clone, Debug)]
pub enum FontSource {
    /// Read the font file at this path.
    Path(String),
    /// Look up the installed font of this family name.
    System(String),
    /// Use the bundled font.
    Bundled,
}

/// Whether `s` names a font file rather than a font family: it has an
/// extension, is longer than 31 bytes, or starts with a dot.
pub open spec fn names_path(s: Seq<char>) -> bool {
    path_extension(s) is Some || encode_utf8(s).len() > 31 || (s.len() > 0 && s[0] == '.')
}

/// Whether `s` names a font file rather than a font family.
pub fn is_path(s: &str) -> (r: bool)
    ensures
        r == names_path(s@),
{
    let has_extension = match extension_of(s) {
        Some(_) => true,
        None => false,
    };
    has_extension || s.as_bytes().len() > 31 || (s.unicode_len() > 0 && s.get_char(0) == '.')
}

/// Where to look for the font given as `name_or_path`: no name means the
/// bundled font.
pub fn font_source(name_or_path: Option<String>) -> (r: FontSource)
    ensures
        match name_or_path {
            None => r is Bundled,
            Some(n) => if names_path(n@) {
                r matches FontSource::Path(p) && p@ == n@
            } else {
                r matches FontSource::System(f) && f@ == n@
            },
        },
{
    match name_or_path {
        None => FontSource::Bundled,
        Some(n) => if is_path(n.as_str()) {
            FontSource::Path(n)
        } else {
            FontSource::System(n)
        },
    }
}

/// The font data to use: what was loaded, or else `bundled`; the flag tells
/// whether the bundled font was taken.
pub fn load_font(loaded: Option<Vec<u8>>, bundled: Vec<u8>) -> (r: (Vec<u8>, bool))
    ensures
        match loaded {
            Some(d) => r.0@ == d@ && !r.1,
            None => r.0@ == bundled@ && r.1,
        },
{
    match loaded {
        Some(d) => (d, false),
        None => (bundled, true),
    }
}

} // verus!
