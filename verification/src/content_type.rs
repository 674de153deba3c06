//! The trusted boundary to the `mime` crate, which parses `Content-Type`
//! header values. What a parse yields is a function of the input characters
//! alone, so the parts are named rather than restated.

use vstd::prelude::*;

verus! {

/// Whether `mime::Mime::from_str` accepts the text.
pub uninterp spec fn spec_mime_ok(s: Seq<char>) -> bool;

/// The bytes of `Mime::type_` (the top-level type) of the parsed text.
pub uninterp spec fn spec_mime_type(s: Seq<char>) -> Seq<u8>;

/// The bytes of `Mime::subtype` of the parsed text.
pub uninterp spec fn spec_mime_subtype(s: Seq<char>) -> Seq<u8>;

/// The bytes of `Mime::essence_str` (type, `/`, subtype, without parameters)
/// of the parsed text.
pub uninterp spec fn spec_mime_essence(s: Seq<char>) -> Seq<u8>;

/// A parsed `Content-Type` value, reduced to the three parts the registry
/// reads: top-level type, subtype, and essence.
pub struct MimeParts {
    pub top: Vec<u8>,
    pub subtype: Vec<u8>,
    pub essence: Vec<u8>,
}

/// Relies on `mime::Mime::from_str`, which parses a MIME type from the input
/// characters alone, and on the accessors `Mime::type_`, `Mime::subtype` and
/// `Mime::essence_str`, each a function of the parsed text.
#[verifier::external_body]
pub fn parse_mime_parts(s: &str) -> (r: Option<MimeParts>)
    ensures
        r.is_some() == spec_mime_ok(s@),
        r matches Some(p) ==> {
            &&& p.top@ == spec_mime_type(s@)
            &&& p.subtype@ == spec_mime_subtype(s@)
            &&& p.essence@ == spec_mime_essence(s@)
        },
{
    match s.parse::<mime::Mime>() {
        Ok(m) => Some(MimeParts {
            top: m.type_().as_str().as_bytes().to_vec(),
            subtype: m.subtype().as_str().as_bytes().to_vec(),
            essence: m.essence_str().as_bytes().to_vec(),
        }),
        Err(_) => None,
    }
}

/// The bytes of the literal `image`, the one top-level type uploads may carry.
pub open spec fn image_type_bytes() -> Seq<u8> {
    seq!['i' as u8, 'm' as u8, 'a' as u8, 'g' as u8, 'e' as u8]
}

/// Is this byte string exactly `image`?
pub fn is_image_type(p: &Vec<u8>) -> (r: bool)
    ensures
        r == (p@ == image_type_bytes()),
{
    let r = p.len() == 5
        && p[0] == 'i' as u8
        && p[1] == 'm' as u8
        && p[2] == 'a' as u8
        && p[3] == 'g' as u8
        && p[4] == 'e' as u8;
    proof {
        if r {
            assert(p@ =~= image_type_bytes());
        }
    }
    r
}

} // verus!
