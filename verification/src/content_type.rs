//! The Content-Type registry.
//!
//! A closed, bidirectional mapping between MIME type strings and typed
//! variants.  Unknown strings are rejected, never silently mapped; every
//! variant has exactly one string form.

use vstd::prelude::*;
use crate::error::HTTPError;
use crate::text::str_eq_str;

verus! {

#[derive(Clone, Copy, Debug, PartialEq, Eq, Structural)]
pub enum ImageType {
    Png,
    Svg,
    XIcon,
}

#[derive(Clone, Copy, Debug, PartialEq, Eq, Structural)]
pub enum FontType {
    Collection,
    Otf,
    Sfnt,
    Ttf,
    Woff,
    Woff2,
}

/// The media types the server is prepared to speak about.
#[derive(Clone, Copy, Debug, PartialEq, Eq, Structural)]
pub enum ContentType {
    Image(ImageType),
    Font(FontType),
    Css,
    JavaScript,
    Html,
    PlainText,
    OctetStream,
    Wasm,
    Wgsl,
}

/// The one string form of each media type.
pub open spec fn spec_mime(ct: ContentType) -> Seq<char> {
    match ct {
        ContentType::Image(ImageType::Png) => "image/png"@,
        ContentType::Image(ImageType::Svg) => "image/svg+xml"@,
        ContentType::Image(ImageType::XIcon) => "image/x-icon"@,
        ContentType::Font(FontType::Collection) => "font/collection"@,
        ContentType::Font(FontType::Otf) => "font/otf"@,
        ContentType::Font(FontType::Sfnt) => "font/sfnt"@,
        ContentType::Font(FontType::Ttf) => "font/ttf"@,
        ContentType::Font(FontType::Woff) => "font/woff"@,
        ContentType::Font(FontType::Woff2) => "font/woff2"@,
        ContentType::Css => "text/css"@,
        ContentType::JavaScript => "text/javascript"@,
        ContentType::Html => "text/html"@,
        ContentType::PlainText => "text/plain"@,
        ContentType::OctetStream => "application/octet-stream"@,
        ContentType::Wasm => "application/wasm"@,
        ContentType::Wgsl => "text/wgsl"@,
    }
}

/// The media type a string names, or `None` for any string outside the
/// registry.
pub open spec fn spec_parse_mime(s: Seq<char>) -> Option<ContentType> {
    if s == "image/png"@ {
        Some(ContentType::Image(ImageType::Png))
    } else if s == "image/svg+xml"@ {
        Some(ContentType::Image(ImageType::Svg))
    } else if s == "image/x-icon"@ {
        Some(ContentType::Image(ImageType::XIcon))
    } else if s == "font/collection"@ {
        Some(ContentType::Font(FontType::Collection))
    } else if s == "font/otf"@ {
        Some(ContentType::Font(FontType::Otf))
    } else if s == "font/sfnt"@ {
        Some(ContentType::Font(FontType::Sfnt))
    } else if s == "font/ttf"@ {
        Some(ContentType::Font(FontType::Ttf))
    } else if s == "font/woff"@ {
        Some(ContentType::Font(FontType::Woff))
    } else if s == "font/woff2"@ {
        Some(ContentType::Font(FontType::Woff2))
    } else if s == "text/css"@ {
        Some(ContentType::Css)
    } else if s == "text/javascript"@ {
        Some(ContentType::JavaScript)
    } else if s == "text/html"@ {
        Some(ContentType::Html)
    } else if s == "text/plain"@ {
        Some(ContentType::PlainText)
    } else if s == "application/octet-stream"@ {
        Some(ContentType::OctetStream)
    } else if s == "application/wasm"@ {
        Some(ContentType::Wasm)
    } else if s == "text/wgsl"@ {
        Some(ContentType::Wgsl)
    } else {
        None
    }
}

/// Enough observations of the registry's string literals to tell any
/// two of them apart: their lengths, their first characters, and one
/// more character where those agree.
proof fn lemma_mime_literal_facts()
    ensures
        "image/png"@.len() == 9 && "image/png"@[0] == 'i',
        "image/svg+xml"@.len() == 13 && "image/svg+xml"@[0] == 'i',
        "image/x-icon"@.len() == 12 && "image/x-icon"@[0] == 'i',
        "font/collection"@.len() == 15 && "font/collection"@[0] == 'f',
        "font/otf"@.len() == 8 && "font/otf"@[0] == 'f' && "font/otf"@[5] == 'o',
        "font/sfnt"@.len() == 9 && "font/sfnt"@[0] == 'f' && "font/sfnt"@[5] == 's',
        "font/ttf"@.len() == 8 && "font/ttf"@[0] == 'f' && "font/ttf"@[5] == 't',
        "font/woff"@.len() == 9 && "font/woff"@[0] == 'f' && "font/woff"@[5] == 'w',
        "font/woff2"@.len() == 10 && "font/woff2"@[0] == 'f',
        "text/css"@.len() == 8 && "text/css"@[0] == 't' && "text/css"@[5] == 'c',
        "text/javascript"@.len() == 15 && "text/javascript"@[0] == 't',
        "text/html"@.len() == 9 && "text/html"@[0] == 't' && "text/html"@[5] == 'h',
        "text/plain"@.len() == 10 && "text/plain"@[0] == 't',
        "application/octet-stream"@.len() == 24 && "application/octet-stream"@[0] == 'a',
        "application/wasm"@.len() == 16 && "application/wasm"@[0] == 'a',
        "text/wgsl"@.len() == 9 && "text/wgsl"@[0] == 't' && "text/wgsl"@[5] == 'w',
{
    reveal_strlit("image/png");
    reveal_strlit("image/svg+xml");
    reveal_strlit("image/x-icon");
    reveal_strlit("font/collection");
    reveal_strlit("font/otf");
    reveal_strlit("font/sfnt");
    reveal_strlit("font/ttf");
    reveal_strlit("font/woff");
    reveal_strlit("font/woff2");
    reveal_strlit("text/css");
    reveal_strlit("text/javascript");
    reveal_strlit("text/html");
    reveal_strlit("text/plain");
    reveal_strlit("application/octet-stream");
    reveal_strlit("application/wasm");
    reveal_strlit("text/wgsl");
}

/// The registry is a bijection: parsing the string form of any media
/// type gives that media type back, so formatting after parsing returns
/// every supported string unchanged.
#[verifier::rlimit(60)]
pub proof fn lemma_mime_round_trip(ct: ContentType)
    ensures
        spec_parse_mime(spec_mime(ct)) == Some(ct),
{
    lemma_mime_literal_facts();
    match ct {
        ContentType::Image(ImageType::Png) => {
            assert(spec_parse_mime("image/png"@) == Some(ct));
        },
        ContentType::Image(ImageType::Svg) => {
            assert(spec_parse_mime("image/svg+xml"@) == Some(ct));
        },
        ContentType::Image(ImageType::XIcon) => {
            assert(spec_parse_mime("image/x-icon"@) == Some(ct));
        },
        ContentType::Font(FontType::Collection) => {
            assert(spec_parse_mime("font/collection"@) == Some(ct));
        },
        ContentType::Font(FontType::Otf) => {
            assert(spec_parse_mime("font/otf"@) == Some(ct));
        },
        ContentType::Font(FontType::Sfnt) => {
            assert(spec_parse_mime("font/sfnt"@) == Some(ct));
        },
        ContentType::Font(FontType::Ttf) => {
            assert(spec_parse_mime("font/ttf"@) == Some(ct));
        },
        ContentType::Font(FontType::Woff) => {
            assert(spec_parse_mime("font/woff"@) == Some(ct));
        },
        ContentType::Font(FontType::Woff2) => {
            assert(spec_parse_mime("font/woff2"@) == Some(ct));
        },
        ContentType::Css => {
            assert(spec_parse_mime("text/css"@) == Some(ct));
        },
        ContentType::JavaScript => {
            assert(spec_parse_mime("text/javascript"@) == Some(ct));
        },
        ContentType::Html => {
            assert(spec_parse_mime("text/html"@) == Some(ct));
        },
        ContentType::PlainText => {
            assert(spec_parse_mime("text/plain"@) == Some(ct));
        },
        ContentType::OctetStream => {
            assert(spec_parse_mime("application/octet-stream"@) == Some(ct));
        },
        ContentType::Wasm => {
            assert(spec_parse_mime("application/wasm"@) == Some(ct));
        },
        ContentType::Wgsl => {
            assert(spec_parse_mime("text/wgsl"@) == Some(ct));
        },
    }
}

/// The other direction of the bijection: a string the registry accepts
/// is the string form of what it parses to.
#[verifier::rlimit(60)]
pub proof fn lemma_mime_parse_formats(s: Seq<char>, ct: ContentType)
    requires
        spec_parse_mime(s) == Some(ct),
    ensures
        spec_mime(ct) == s,
{
    lemma_mime_literal_facts();
}

impl ContentType {
    /// The MIME string of this media type.
    pub fn as_str(&self) -> (r: &'static str)
        ensures
            r@ == spec_mime(*self),
    {
        match self {
            ContentType::Image(ImageType::Png) => "image/png",
            ContentType::Image(ImageType::Svg) => "image/svg+xml",
            ContentType::Image(ImageType::XIcon) => "image/x-icon",
            ContentType::Font(FontType::Collection) => "font/collection",
            ContentType::Font(FontType::Otf) => "font/otf",
            ContentType::Font(FontType::Sfnt) => "font/sfnt",
            ContentType::Font(FontType::Ttf) => "font/ttf",
            ContentType::Font(FontType::Woff) => "font/woff",
            ContentType::Font(FontType::Woff2) => "font/woff2",
            ContentType::Css => "text/css",
            ContentType::JavaScript => "text/javascript",
            ContentType::Html => "text/html",
            ContentType::PlainText => "text/plain",
            ContentType::OctetStream => "application/octet-stream",
            ContentType::Wasm => "application/wasm",
            ContentType::Wgsl => "text/wgsl",
        }
    }

    /// Looks a MIME string up in the registry.  Exactly the strings of
    /// the registry are accepted; everything else is
    /// `InvalidContentType`.
    pub fn from_mime(s: &str) -> (r: Result<ContentType, HTTPError>)
        ensures
            match r {
                Ok(ct) => spec_parse_mime(s@) == Some(ct),
                Err(e) => spec_parse_mime(s@) is None && e == HTTPError::InvalidContentType,
            },
    {
        if str_eq_str(s, "image/png") {
            Ok(ContentType::Image(ImageType::Png))
        } else if str_eq_str(s, "image/svg+xml") {
            Ok(ContentType::Image(ImageType::Svg))
        } else if str_eq_str(s, "image/x-icon") {
            Ok(ContentType::Image(ImageType::XIcon))
        } else if str_eq_str(s, "font/collection") {
            Ok(ContentType::Font(FontType::Collection))
        } else if str_eq_str(s, "font/otf") {
            Ok(ContentType::Font(FontType::Otf))
        } else if str_eq_str(s, "font/sfnt") {
            Ok(ContentType::Font(FontType::Sfnt))
        } else if str_eq_str(s, "font/ttf") {
            Ok(ContentType::Font(FontType::Ttf))
        } else if str_eq_str(s, "font/woff") {
            Ok(ContentType::Font(FontType::Woff))
        } else if str_eq_str(s, "font/woff2") {
            Ok(ContentType::Font(FontType::Woff2))
        } else if str_eq_str(s, "text/css") {
            Ok(ContentType::Css)
        } else if str_eq_str(s, "text/javascript") {
            Ok(ContentType::JavaScript)
        } else if str_eq_str(s, "text/html") {
            Ok(ContentType::Html)
        } else if str_eq_str(s, "text/plain") {
            Ok(ContentType::PlainText)
        } else if str_eq_str(s, "application/octet-stream") {
            Ok(ContentType::OctetStream)
        } else if str_eq_str(s, "application/wasm") {
            Ok(ContentType::Wasm)
        } else if str_eq_str(s, "text/wgsl") {
            Ok(ContentType::Wgsl)
        } else {
            Err(HTTPError::InvalidContentType)
        }
    }
}

impl core::str::FromStr for ContentType {
    type Err = HTTPError;

    fn from_str(s: &str) -> Result<ContentType, HTTPError> {
        ContentType::from_mime(s)
    }
}

} // verus!
