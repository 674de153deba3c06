//! The route table: a pure mapping from an HTTP method and a URL to the one
//! repository operation it names. Unmatched paths and malformed id segments
//! are not found; methods outside GET, POST and PUT are rejected outright.

use vstd::prelude::*;
use crate::bytestr::{
    bytes_eq, copy_range, dec_val, digits_part, find_byte, first_at, has_byte,
    is_u32_numeral, lemma_first_at, no_byte, parse_u32, spec_starts_with, starts_with,
};

verus! {

/// The HTTP methods the registry distinguishes: the three it serves, and
/// everything else.
#[derive(Clone, Copy, Debug)]
pub enum Method {
    Get,
    Post,
    Put,
    Other,
}

/// The bytes of `/api/v1/cat`.
pub open spec fn lit_cat() -> Seq<u8> {
    seq![
        '/' as u8, 'a' as u8, 'p' as u8, 'i' as u8, '/' as u8, 'v' as u8, '1' as u8,
        '/' as u8, 'c' as u8, 'a' as u8, 't' as u8,
    ]
}

/// The bytes of `/api/v1/cat/`.
pub open spec fn lit_cat_slash() -> Seq<u8> {
    lit_cat().push('/' as u8)
}

/// The bytes of `/api/v1/list_cats`.
pub open spec fn lit_list_cats() -> Seq<u8> {
    seq![
        '/' as u8, 'a' as u8, 'p' as u8, 'i' as u8, '/' as u8, 'v' as u8, '1' as u8,
        '/' as u8, 'l' as u8, 'i' as u8, 's' as u8, 't' as u8, '_' as u8, 'c' as u8,
        'a' as u8, 't' as u8, 's' as u8,
    ]
}

/// The bytes of `/api/v1/image`.
pub open spec fn lit_image() -> Seq<u8> {
    seq![
        '/' as u8, 'a' as u8, 'p' as u8, 'i' as u8, '/' as u8, 'v' as u8, '1' as u8,
        '/' as u8, 'i' as u8, 'm' as u8, 'a' as u8, 'g' as u8, 'e' as u8,
    ]
}

/// The bytes of `/api/v1/image/`.
pub open spec fn lit_image_slash() -> Seq<u8> {
    lit_image().push('/' as u8)
}

/// The bytes of `/sightings`.
pub open spec fn lit_sightings() -> Seq<u8> {
    seq![
        '/' as u8, 's' as u8, 'i' as u8, 'g' as u8, 'h' as u8, 't' as u8, 'i' as u8,
        'n' as u8, 'g' as u8, 's' as u8,
    ]
}

fn make_lit_cat() -> (r: Vec<u8>)
    ensures
        r@ == lit_cat(),
{
    let mut v: Vec<u8> = Vec::new();
    v.push('/' as u8);
    v.push('a' as u8);
    v.push('p' as u8);
    v.push('i' as u8);
    v.push('/' as u8);
    v.push('v' as u8);
    v.push('1' as u8);
    v.push('/' as u8);
    v.push('c' as u8);
    v.push('a' as u8);
    v.push('t' as u8);
    assert(v@ =~= lit_cat());
    v
}

fn make_lit_cat_slash() -> (r: Vec<u8>)
    ensures
        r@ == lit_cat_slash(),
{
    let mut v = make_lit_cat();
    v.push('/' as u8);
    v
}

fn make_lit_list_cats() -> (r: Vec<u8>)
    ensures
        r@ == lit_list_cats(),
{
    let mut v: Vec<u8> = Vec::new();
    v.push('/' as u8);
    v.push('a' as u8);
    v.push('p' as u8);
    v.push('i' as u8);
    v.push('/' as u8);
    v.push('v' as u8);
    v.push('1' as u8);
    v.push('/' as u8);
    v.push('l' as u8);
    v.push('i' as u8);
    v.push('s' as u8);
    v.push('t' as u8);
    v.push('_' as u8);
    v.push('c' as u8);
    v.push('a' as u8);
    v.push('t' as u8);
    v.push('s' as u8);
    assert(v@ =~= lit_list_cats());
    v
}

fn make_lit_image() -> (r: Vec<u8>)
    ensures
        r@ == lit_image(),
{
    let mut v: Vec<u8> = Vec::new();
    v.push('/' as u8);
    v.push('a' as u8);
    v.push('p' as u8);
    v.push('i' as u8);
    v.push('/' as u8);
    v.push('v' as u8);
    v.push('1' as u8);
    v.push('/' as u8);
    v.push('i' as u8);
    v.push('m' as u8);
    v.push('a' as u8);
    v.push('g' as u8);
    v.push('e' as u8);
    assert(v@ =~= lit_image());
    v
}

pub(crate) fn make_lit_image_slash() -> (r: Vec<u8>)
    ensures
        r@ == lit_image_slash(),
{
    let mut v = make_lit_image();
    v.push('/' as u8);
    v
}

fn make_lit_sightings() -> (r: Vec<u8>)
    ensures
        r@ == lit_sightings(),
{
    let mut v: Vec<u8> = Vec::new();
    v.push('/' as u8);
    v.push('s' as u8);
    v.push('i' as u8);
    v.push('g' as u8);
    v.push('h' as u8);
    v.push('t' as u8);
    v.push('i' as u8);
    v.push('n' as u8);
    v.push('g' as u8);
    v.push('s' as u8);
    assert(v@ =~= lit_sightings());
    v
}

/// The one repository operation a request names, with its captures: the cat
/// id, or the image id and the extension it was addressed under.
pub enum Route {
    GetCat(u32),
    ListCats,
    GetImage(u32, Vec<u8>),
    CreateCat,
    AppendSightings(u32),
    StoreImage,
    UpdateCat(u32),
    NotFound,
    MethodRejected,
}

/// The view of a `Route`.
#[verifier::ext_equal]
pub enum RouteV {
    GetCat(u32),
    ListCats,
    GetImage(u32, Seq<u8>),
    CreateCat,
    AppendSightings(u32),
    StoreImage,
    UpdateCat(u32),
    NotFound,
    MethodRejected,
}

impl View for Route {
    type V = RouteV;

    open spec fn view(&self) -> RouteV {
        match self {
            Route::GetCat(id) => RouteV::GetCat(*id),
            Route::ListCats => RouteV::ListCats,
            Route::GetImage(id, ext) => RouteV::GetImage(*id, ext@),
            Route::CreateCat => RouteV::CreateCat,
            Route::AppendSightings(id) => RouteV::AppendSightings(*id),
            Route::StoreImage => RouteV::StoreImage,
            Route::UpdateCat(id) => RouteV::UpdateCat(*id),
            Route::NotFound => RouteV::NotFound,
            Route::MethodRejected => RouteV::MethodRejected,
        }
    }
}

/// A well-formed image file name: no `/`, a `.` splitting it, and a `u32`
/// numeral before the first `.`.
pub open spec fn image_name_ok(name: Seq<u8>) -> bool {
    &&& no_byte(name, '/' as u8)
    &&& has_byte(name, '.' as u8)
    &&& is_u32_numeral(name.take(first_at(name, '.' as u8)))
}

/// The image id an image file name carries.
pub open spec fn image_name_id(name: Seq<u8>) -> u32 {
    dec_val(digits_part(name.take(first_at(name, '.' as u8)))) as u32
}

/// The extension an image file name carries: everything after the first `.`.
pub open spec fn image_name_ext(name: Seq<u8>) -> Seq<u8> {
    name.skip(first_at(name, '.' as u8) + 1)
}

/// A well-formed `{id}/sightings` tail: a `u32` numeral up to the first `/`,
/// and exactly `/sightings` after it.
pub open spec fn sightings_tail_ok(rest: Seq<u8>) -> bool {
    &&& has_byte(rest, '/' as u8)
    &&& rest.skip(first_at(rest, '/' as u8)) == lit_sightings()
    &&& is_u32_numeral(rest.take(first_at(rest, '/' as u8)))
}

/// The cat id a `{id}/sightings` tail carries.
pub open spec fn sightings_tail_id(rest: Seq<u8>) -> u32 {
    dec_val(digits_part(rest.take(first_at(rest, '/' as u8)))) as u32
}

/// Where a GET goes: the cat listing, one cat by id, or one image by
/// `{id}.{extension}` name.
pub open spec fn spec_route_get(url: Seq<u8>) -> RouteV {
    if url == lit_list_cats() {
        RouteV::ListCats
    } else if spec_starts_with(url, lit_cat_slash()) && is_u32_numeral(url.skip(12)) {
        RouteV::GetCat(dec_val(digits_part(url.skip(12))) as u32)
    } else if spec_starts_with(url, lit_image_slash()) && image_name_ok(url.skip(14)) {
        RouteV::GetImage(image_name_id(url.skip(14)), image_name_ext(url.skip(14)))
    } else {
        RouteV::NotFound
    }
}

/// Where a POST goes: cat creation, an image upload, or appending sightings
/// to one cat.
pub open spec fn spec_route_post(url: Seq<u8>) -> RouteV {
    if url == lit_cat() {
        RouteV::CreateCat
    } else if url == lit_image() {
        RouteV::StoreImage
    } else if spec_starts_with(url, lit_cat_slash()) && sightings_tail_ok(url.skip(12)) {
        RouteV::AppendSightings(sightings_tail_id(url.skip(12)))
    } else {
        RouteV::NotFound
    }
}

/// Where a PUT goes: updating one cat.
pub open spec fn spec_route_put(url: Seq<u8>) -> RouteV {
    if spec_starts_with(url, lit_cat_slash()) && is_u32_numeral(url.skip(12)) {
        RouteV::UpdateCat(dec_val(digits_part(url.skip(12))) as u32)
    } else {
        RouteV::NotFound
    }
}

/// The whole route table.
pub open spec fn spec_route(m: Method, url: Seq<u8>) -> RouteV {
    match m {
        Method::Get => spec_route_get(url),
        Method::Post => spec_route_post(url),
        Method::Put => spec_route_put(url),
        Method::Other => RouteV::MethodRejected,
    }
}

/// A URL starting with `/api/v1/cat/` does not start with `/api/v1/image/`,
/// and the other way round.
proof fn lemma_prefixes_disjoint(url: Seq<u8>)
    ensures
        !(spec_starts_with(url, lit_cat_slash()) && spec_starts_with(
            url, lit_image_slash())),
{
    if spec_starts_with(url, lit_cat_slash()) && spec_starts_with(url, lit_image_slash()) {
        assert(url.take(12)[8] == url[8]);
        assert(url.take(14)[8] == url[8]);
        assert(lit_cat_slash()[8] == 'c' as u8);
        assert(lit_image_slash()[8] == 'i' as u8);
    }
}

/// Match a GET URL against the route table.
#[verifier::rlimit(30)]
fn route_get(url: &[u8]) -> (r: Route)
    ensures
        r@ == spec_route_get(url@),
{
    let lit_list = make_lit_list_cats();
    if bytes_eq(url, lit_list.as_slice()) {
        return Route::ListCats;
    }
    let cat_slash = make_lit_cat_slash();
    if starts_with(url, cat_slash.as_slice()) {
        let rem = copy_range(url, 12, url.len());
        proof {
            assert(rem@ =~= url@.skip(12));
            lemma_prefixes_disjoint(url@);
        }
        match parse_u32(rem.as_slice()) {
            Some(id) => {
                return Route::GetCat(id);
            },
            None => {
                return Route::NotFound;
            },
        }
    }
    let image_slash = make_lit_image_slash();
    if starts_with(url, image_slash.as_slice()) {
        let rem = copy_range(url, 14, url.len());
        proof {
            assert(rem@ =~= url@.skip(14));
        }
        if find_byte(rem.as_slice(), '/' as u8).is_some() {
            return Route::NotFound;
        }
        match find_byte(rem.as_slice(), '.' as u8) {
            None => {
                return Route::NotFound;
            },
            Some(d) => {
                proof {
                    lemma_first_at(rem@, '.' as u8, d as int);
                }
                let id_part = copy_range(rem.as_slice(), 0, d);
                proof {
                    assert(id_part@ =~= rem@.take(d as int));
                }
                match parse_u32(id_part.as_slice()) {
                    None => {
                        return Route::NotFound;
                    },
                    Some(id) => {
                        let ext = copy_range(rem.as_slice(), d + 1, rem.len());
                        proof {
                            assert(ext@ =~= image_name_ext(url@.skip(14)));
                        }
                        return Route::GetImage(id, ext);
                    },
                }
            },
        }
    }
    Route::NotFound
}

/// Match a POST URL against the route table.
#[verifier::rlimit(30)]
fn route_post(url: &[u8]) -> (r: Route)
    ensures
        r@ == spec_route_post(url@),
{
    let lit_c = make_lit_cat();
    if bytes_eq(url, lit_c.as_slice()) {
        return Route::CreateCat;
    }
    let lit_i = make_lit_image();
    if bytes_eq(url, lit_i.as_slice()) {
        return Route::StoreImage;
    }
    let cat_slash = make_lit_cat_slash();
    if starts_with(url, cat_slash.as_slice()) {
        let rem = copy_range(url, 12, url.len());
        proof {
            assert(rem@ =~= url@.skip(12));
        }
        match find_byte(rem.as_slice(), '/' as u8) {
            None => {
                return Route::NotFound;
            },
            Some(j) => {
                proof {
                    lemma_first_at(rem@, '/' as u8, j as int);
                }
                let tail = copy_range(rem.as_slice(), j, rem.len());
                let lit_s = make_lit_sightings();
                if !bytes_eq(tail.as_slice(), lit_s.as_slice()) {
                    assert(tail@ =~= rem@.skip(j as int));
                    return Route::NotFound;
                }
                let id_part = copy_range(rem.as_slice(), 0, j);
                proof {
                    assert(tail@ =~= rem@.skip(j as int));
                    assert(id_part@ =~= rem@.take(j as int));
                }
                match parse_u32(id_part.as_slice()) {
                    None => {
                        return Route::NotFound;
                    },
                    Some(id) => {
                        return Route::AppendSightings(id);
                    },
                }
            },
        }
    }
    Route::NotFound
}

/// Match a PUT URL against the route table.
fn route_put(url: &[u8]) -> (r: Route)
    ensures
        r@ == spec_route_put(url@),
{
    let cat_slash = make_lit_cat_slash();
    if starts_with(url, cat_slash.as_slice()) {
        let rem = copy_range(url, 12, url.len());
        proof {
            assert(rem@ =~= url@.skip(12));
        }
        match parse_u32(rem.as_slice()) {
            Some(id) => {
                return Route::UpdateCat(id);
            },
            None => {
                return Route::NotFound;
            },
        }
    }
    Route::NotFound
}

/// Match a method and URL against the route table.
pub fn route(m: Method, url: &[u8]) -> (r: Route)
    ensures
        r@ == spec_route(m, url@),
{
    match m {
        Method::Get => route_get(url),
        Method::Post => route_post(url),
        Method::Put => route_put(url),
        Method::Other => Route::MethodRejected,
    }
}

} // verus!
