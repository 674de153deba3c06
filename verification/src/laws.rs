//! The laws of the registry, proved once and for all over the store model:
//! creation round-trips, names never change, the audit trail is complete, and
//! an uploaded image's path routes back to that image.

use vstd::prelude::*;
use crate::bytestr::{
    dec_rep, is_u32_numeral, lemma_dec_rep_digits, lemma_dec_rep_numeral,
    lemma_first_at, no_byte, spec_starts_with,
};
use crate::model::{
    edits_for_cat, lemma_cat_index_unique, lemma_create_preserves_inv,
    lemma_update_preserves_inv, mut_fields, rows_for_cat, EditRow, SightingRow,
    StoreModel,
};
use crate::api::image_path_bytes;
use crate::records::{CatProfileV, SightingV};
use crate::router::{
    image_name_ext, image_name_id, image_name_ok, lit_cat_slash, lit_image_slash,
    lit_list_cats, spec_route, spec_route_get, Method, RouteV,
};

verus! {

/// `rows_for_cat` distributes over concatenation.
proof fn lemma_rows_for_cat_add(a: Seq<SightingRow>, b: Seq<SightingRow>, id: u32)
    ensures
        rows_for_cat(a + b, id) == rows_for_cat(a, id) + rows_for_cat(b, id),
    decreases b.len(),
{
    if b.len() == 0 {
        assert(a + b =~= a);
        assert(rows_for_cat(a, id) + rows_for_cat(b, id) =~= rows_for_cat(a, id));
    } else {
        lemma_rows_for_cat_add(a, b.drop_last(), id);
        assert((a + b).drop_last() =~= a + b.drop_last());
        assert((a + b).last() == b.last());
        if b.last().for_cat == id {
            assert(rows_for_cat(a, id) + rows_for_cat(b, id)
                =~= (rows_for_cat(a, id) + rows_for_cat(b.drop_last(), id)).push(b.last()));
        }
    }
}

/// A block of rows all owned by `id` filters to itself.
proof fn lemma_rows_for_cat_all(s: Seq<SightingRow>, id: u32)
    requires
        forall|i: int| 0 <= i < s.len() ==> (#[trigger] s[i]).for_cat == id,
    ensures
        rows_for_cat(s, id) == s,
    decreases s.len(),
{
    if s.len() > 0 {
        assert(forall|i: int|
            0 <= i < s.drop_last().len() ==> (#[trigger] s.drop_last()[i]).for_cat == id);
        lemma_rows_for_cat_all(s.drop_last(), id);
        assert(rows_for_cat(s, id) =~= s.drop_last().push(s.last()));
        assert(s.drop_last().push(s.last()) =~= s);
    }
}

/// Round trip: creating a cat with any profile and any list of sightings and
/// then fetching the assigned id returns exactly the profile and the
/// sightings that were supplied, in order. The one premise beyond
/// well-formedness is that no orphaned sighting rows already carry the id
/// about to be assigned (appends to a never-assigned id can plant such rows).
pub proof fn lemma_create_round_trip(
    m: StoreModel,
    p: CatProfileV,
    list: Seq<SightingV>,
    origin: Seq<char>,
    now_ms: u64,
)
    requires
        m.inv(),
        m.can_create(list.len()),
        rows_for_cat(m.sightings, m.next_cat as u32) == Seq::<SightingRow>::empty(),
    ensures
        ({
            let id = m.next_cat as u32;
            let m2 = m.create_cat(p, list, origin, now_ms);
            &&& m2.get_cat(id) matches Some(c)
                && c.id == id && c.profile == p && c.sightings == list
        }),
{
    let id = m.next_cat as u32;
    let m2 = m.create_cat(p, list, origin, now_ms);
    lemma_create_preserves_inv(m, p, list, origin, now_ms);
    let last = m.cats.len() as int;
    assert(m2.cats[last].id == id);
    lemma_cat_index_unique(m2, id, last);
    assert(m2.cat_row(id).profile == p);

    let fresh = StoreModel::new_sighting_rows(
        list, id, m.next_sighting as int, now_ms, origin);
    lemma_rows_for_cat_add(m.sightings, fresh, id);
    assert(forall|i: int| 0 <= i < fresh.len() ==> (#[trigger] fresh[i]).for_cat == id);
    lemma_rows_for_cat_all(fresh, id);
    assert(rows_for_cat(m2.sightings, id) =~= fresh);
    assert(rows_for_cat(m2.sightings, id).map_values(|r: SightingRow| r.data) =~= list);
}

/// Name immutability: an update may replace every mutable field, but the
/// stored name stays what it was at creation, whatever the new profile says.
pub proof fn lemma_name_immutable(
    m: StoreModel,
    id: u32,
    p: CatProfileV,
    origin: Seq<char>,
    now_ms: u64,
)
    requires
        m.inv(),
        m.has_cat(id),
    ensures
        ({
            let m2 = m.update_cat(id, p, origin, now_ms);
            &&& m2.has_cat(id)
            &&& m2.cat_row(id).profile.name == m.cat_row(id).profile.name
            &&& m2.cat_row(id).profile.colour == p.colour
        }),
{
    let m2 = m.update_cat(id, p, origin, now_ms);
    lemma_update_preserves_inv(m, id, p, origin, now_ms);
    let idx = m.cat_index(id);
    assert(0 <= idx < m.cats.len() && m.cats[idx].id == id);
    assert(m2.cats[idx].id == id);
    lemma_cat_index_unique(m2, id, idx);
}

/// `edits_for_cat` distributes over push.
proof fn lemma_edits_for_cat_push(e: Seq<EditRow>, x: EditRow, id: u32)
    ensures
        edits_for_cat(e.push(x), id) == if x.for_cat == id {
            edits_for_cat(e, id).push(x)
        } else {
            edits_for_cat(e, id)
        },
{
    assert(e.push(x).drop_last() =~= e);
    assert(e.push(x).last() == x);
}

/// Apply a sequence of profile updates to one cat, in order.
pub open spec fn apply_updates(
    m: StoreModel,
    id: u32,
    ps: Seq<CatProfileV>,
    origin: Seq<char>,
    now_ms: u64,
) -> StoreModel
    decreases ps.len(),
{
    if ps.len() == 0 {
        m
    } else {
        apply_updates(
            m.update_cat(id, ps[0], origin, now_ms),
            id,
            ps.drop_first(),
            origin,
            now_ms,
        )
    }
}

/// An update keeps the cat present and well-formed.
proof fn lemma_update_keeps_cat(
    m: StoreModel,
    id: u32,
    p: CatProfileV,
    origin: Seq<char>,
    now_ms: u64,
)
    requires
        m.inv(),
        m.has_cat(id),
    ensures
        m.update_cat(id, p, origin, now_ms).inv(),
        m.update_cat(id, p, origin, now_ms).has_cat(id),
{
    lemma_update_preserves_inv(m, id, p, origin, now_ms);
    let idx = m.cat_index(id);
    assert(0 <= idx < m.cats.len() && m.cats[idx].id == id);
    assert(m.update_cat(id, p, origin, now_ms).cats[idx].id == id);
}

/// Audit completeness: applying `K` updates to one cat appends exactly `K`
/// audit rows for it, and the `i`-th appended row snapshots the cat's mutable
/// fields exactly as they stood immediately before update `i`.
pub proof fn lemma_audit_completeness(
    m: StoreModel,
    id: u32,
    ps: Seq<CatProfileV>,
    origin: Seq<char>,
    now_ms: u64,
)
    requires
        m.inv(),
        m.has_cat(id),
    ensures
        ({
            let m2 = apply_updates(m, id, ps, origin, now_ms);
            let before = edits_for_cat(m.edits, id);
            let after = edits_for_cat(m2.edits, id);
            &&& after.len() == before.len() + ps.len()
            &&& after.take(before.len() as int) == before
            &&& forall|i: int| 0 <= i < ps.len()
                ==> #[trigger] after[before.len() + i].snapshot == mut_fields(
                    apply_updates(m, id, ps.take(i), origin, now_ms).cat_row(id).profile)
        }),
    decreases ps.len(),
{
    if ps.len() == 0 {
        let before = edits_for_cat(m.edits, id);
        assert(before.take(before.len() as int) =~= before);
    }
    if ps.len() > 0 {
        let m1 = m.update_cat(id, ps[0], origin, now_ms);
        lemma_update_keeps_cat(m, id, ps[0], origin, now_ms);
        lemma_edits_for_cat_push(m.edits, EditRow {
            for_cat: id,
            edit_ms: now_ms,
            origin,
            snapshot: mut_fields(m.cat_row(id).profile),
        }, id);
        lemma_audit_completeness(m1, id, ps.drop_first(), origin, now_ms);
        let m2 = apply_updates(m, id, ps, origin, now_ms);
        let before = edits_for_cat(m.edits, id);
        let before1 = edits_for_cat(m1.edits, id);
        let after = edits_for_cat(m2.edits, id);
        assert(before1 =~= before.push(EditRow {
            for_cat: id,
            edit_ms: now_ms,
            origin,
            snapshot: mut_fields(m.cat_row(id).profile),
        }));
        assert(m2 == apply_updates(m1, id, ps.drop_first(), origin, now_ms));
        assert(after.take(before1.len() as int) == before1);
        assert(after.take(before.len() as int) =~= before) by {
            assert(forall|k: int| 0 <= k < before.len()
                ==> after.take(before1.len() as int)[k] == #[trigger] after[k]);
        }
        assert forall|i: int| 0 <= i < ps.len()
            implies #[trigger] after[before.len() + i].snapshot == mut_fields(
                apply_updates(m, id, ps.take(i), origin, now_ms).cat_row(id).profile) by {
            if i == 0 {
                assert(apply_updates(m, id, ps.take(0), origin, now_ms) == m);
                assert(after.take(before1.len() as int)[before.len() as int]
                    == after[before.len() as int]);
                assert(after[before.len() as int] == before1[before.len() as int]);
            } else {
                let j = i - 1;
                assert(after[before1.len() + j].snapshot == mut_fields(
                    apply_updates(m1, id, ps.drop_first().take(j), origin, now_ms)
                        .cat_row(id).profile));
                assert(ps.take(i)[0] == ps[0]);
                assert(ps.take(i).drop_first() =~= ps.drop_first().take(j));
                assert(apply_updates(m, id, ps.take(i), origin, now_ms)
                    == apply_updates(m1, id, ps.drop_first().take(j), origin, now_ms));
            }
        }
    }
}

/// Storing an image makes it fetchable under the assigned id, with exactly
/// the bytes, essence and subtype it was stored with. Together with the
/// routing law below, an upload is retrievable at the one path it was
/// answered with, and at no other extension.
pub proof fn lemma_store_image_round_trip(
    m: StoreModel,
    bytes: Seq<u8>,
    essence: Seq<u8>,
    subtype: Seq<u8>,
    origin: Seq<char>,
    now_ms: u64,
)
    requires
        m.inv(),
        m.can_store_image(),
    ensures
        ({
            let id = m.next_image as u32;
            let m2 = m.store_image(bytes, essence, subtype, origin, now_ms);
            &&& m2.has_image(id)
            &&& m2.image_row(id).bytes == bytes
            &&& m2.image_row(id).essence == essence
            &&& m2.image_row(id).subtype == subtype
        }),
{
    let id = m.next_image as u32;
    let m2 = m.store_image(bytes, essence, subtype, origin, now_ms);
    crate::model::lemma_store_image_preserves_inv(
        m, bytes, essence, subtype, origin, now_ms);
    let last = m.images.len() as int;
    assert(m2.images[last].id == id);
    crate::model::lemma_image_index_unique(m2, id, last);
}

/// Image addressing: the path an upload is answered with routes straight back
/// to that image id, carrying the stored subtype as the extension; a path
/// with any other extension routes to the same id with that other extension,
/// which the dispatcher then refuses. Holds for any subtype without `/`.
#[verifier::rlimit(40)]
pub proof fn lemma_image_path_routes_back(id: u32, subtype: Seq<u8>)
    requires
        no_byte(subtype, '/' as u8),
    ensures
        spec_route(Method::Get, image_path_bytes(id, subtype))
            == RouteV::GetImage(id, subtype),
{
    let path = image_path_bytes(id, subtype);
    let digits = dec_rep(id as nat);
    let name = digits + seq!['.' as u8] + subtype;
    lemma_dec_rep_digits(id as nat);
    lemma_dec_rep_numeral(id);

    assert(path.len() == 14 + name.len());
    assert(path.skip(14) =~= name);

    // The list path differs at index 8, as does the cat prefix.
    assert(path[8] == lit_image_slash()[8]);
    assert(lit_image_slash()[8] == 'i' as u8);
    assert(lit_list_cats()[8] == 'l' as u8);
    assert(path != lit_list_cats());
    assert(lit_cat_slash()[8] == 'c' as u8);
    if spec_starts_with(path, lit_cat_slash()) {
        assert(path.take(12)[8] == path[8]);
        assert(false);
    }
    assert(spec_starts_with(path, lit_image_slash())) by {
        assert(path.take(14) =~= lit_image_slash());
    }

    // The name parses back: digits, the first dot, then the extension.
    assert(no_byte(name, '/' as u8)) by {
        assert(forall|i: int| 0 <= i < digits.len()
            ==> crate::bytestr::is_dec_digit(#[trigger] digits[i]));
        assert forall|i: int| 0 <= i < name.len()
            implies #[trigger] name[i] != '/' as u8 by {
            if i < digits.len() {
                assert(crate::bytestr::is_dec_digit(digits[i]));
            } else if i > digits.len() {
                assert(name[i] == subtype[i - digits.len() - 1]);
            }
        }
    }
    let d = digits.len() as int;
    assert(name[d] == '.' as u8);
    assert(no_byte(name.take(d), '.' as u8)) by {
        assert forall|i: int| 0 <= i < d
            implies #[trigger] name.take(d)[i] != '.' as u8 by {
            assert(name[i] == digits[i]);
            assert(crate::bytestr::is_dec_digit(digits[i]));
        }
    }
    lemma_first_at(name, '.' as u8, d);
    assert(name.take(d) =~= digits);
    assert(is_u32_numeral(name.take(d)));
    assert(image_name_ok(name));
    assert(image_name_id(name) == id);
    assert(image_name_ext(name) =~= subtype);
    assert(spec_route_get(path) == RouteV::GetImage(id, subtype));
}

} // verus!
