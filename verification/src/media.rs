//! The slice of a media type that the parser reads: top-level type,
//! subtype, suffix, and the `boundary` parameter.

use vstd::prelude::*;

verus! {

/// What the parser reads out of a parsed media type.  The type, subtype
/// and suffix come ASCII lower-cased; the boundary parameter keeps its
/// case.
pub struct MediaType {
    pub typ: Vec<u8>,
    pub subtype: Vec<u8>,
    pub suffix: Option<Vec<u8>>,
    pub boundary: Option<Vec<u8>>,
}

/// The mathematical shadow of [`MediaType`].
pub ghost struct MediaTypeView {
    pub typ: Seq<u8>,
    pub subtype: Seq<u8>,
    pub suffix: Option<Seq<u8>>,
    pub boundary: Option<Seq<u8>>,
}

impl View for MediaType {
    type V = MediaTypeView;

    open spec fn view(&self) -> MediaTypeView {
        MediaTypeView {
            typ: self.typ@,
            subtype: self.subtype@,
            suffix: match self.suffix {
                Some(ref s) => Some(s@),
                None => None,
            },
            boundary: match self.boundary {
                Some(ref b) => Some(b@),
                None => None,
            },
        }
    }
}

impl MediaType {
    /// An identical copy.
    pub fn duplicate(&self) -> (r: MediaType)
        ensures
            r@ == self@,
    {
        MediaType {
            typ: vstd::slice::slice_to_vec(self.typ.as_slice()),
            subtype: vstd::slice::slice_to_vec(self.subtype.as_slice()),
            suffix: match &self.suffix {
                Some(s) => Some(vstd::slice::slice_to_vec(s.as_slice())),
                None => None,
            },
            boundary: match &self.boundary {
                Some(b) => Some(vstd::slice::slice_to_vec(b.as_slice())),
                None => None,
            },
        }
    }
}

/// What the `mime` crate makes of a media-type string: the parts the
/// parser reads, or nothing when the string is not a valid media type.
/// The outcome is a function of the characters alone.
pub uninterp spec fn media_type_of(s: Seq<char>) -> Option<MediaTypeView>;

/// Relies on `str::parse::<mime::Mime>`: it parses a media-type string
/// per RFC 2045, ASCII lower-casing the type, subtype and suffix, and
/// exposes the `boundary` parameter's value; it errs exactly on strings
/// that are not a valid media type.
#[verifier::external_body]
pub(crate) fn parse_media_type(src: &str) -> (r: Option<MediaType>)
    ensures
        match r {
            Some(m) => media_type_of(src@) == Some(m@),
            None => media_type_of(src@) is None,
        },
{
    let m: mime::Mime = match src.parse() {
        Ok(m) => m,
        Err(_) => return None,
    };
    Some(
        MediaType {
            typ: m.type_().as_str().as_bytes().to_vec(),
            subtype: m.subtype().as_str().as_bytes().to_vec(),
            suffix: m.suffix().map(|n| n.as_str().as_bytes().to_vec()),
            boundary: m.get_param(mime::BOUNDARY).map(|n| n.as_str().as_bytes().to_vec()),
        },
    )
}

} // verus!
