//! Identities as the proxy serves them: the data shape, its JSON decoding,
//! and the listing / lookup / matching operations.

use vstd::prelude::*;

use crate::agent::Client;
use crate::error::ApiError;
use crate::json::{jv_elems, lemma_jv_elems, lookup, JsonVal, JsonValue};
use vstd::string::StringSliceAdditionalSpecFns;

verus! {

/// An avatar's fallback colour.
#[derive(Debug, PartialEq, Eq)]
pub struct Color {
    pub r: u8,
    pub g: u8,
    pub b: u8,
}

/// The generated avatar shown for an identity.
#[derive(Debug, PartialEq, Eq)]
pub struct AvatarFallback {
    pub emoji: Vec<u8>,
    pub background: Color,
}

/// The user-chosen part of an identity.
#[derive(Debug, PartialEq, Eq)]
pub struct Metadata {
    pub handle: Vec<u8>,
}

/// One identity known to the proxy.
#[derive(Debug, PartialEq, Eq)]
pub struct Identity {
    pub peer_id: Vec<u8>,
    pub urn: Vec<u8>,
    pub shareable_entity_identifier: Vec<u8>,
    pub metadata: Metadata,
    pub avatar_fallback: AvatarFallback,
}

/// The mathematical shape of an identity.
pub struct IdentityV {
    pub peer_id: Seq<u8>,
    pub urn: Seq<u8>,
    pub shareable_entity_identifier: Seq<u8>,
    pub handle: Seq<u8>,
    pub emoji: Seq<u8>,
    pub background: (u8, u8, u8),
}

impl View for Identity {
    type V = IdentityV;

    open spec fn view(&self) -> IdentityV {
        IdentityV {
            peer_id: self.peer_id@,
            urn: self.urn@,
            shareable_entity_identifier: self.shareable_entity_identifier@,
            handle: self.metadata.handle@,
            emoji: self.avatar_fallback.emoji@,
            background: (
                self.avatar_fallback.background.r,
                self.avatar_fallback.background.g,
                self.avatar_fallback.background.b,
            ),
        }
    }
}

/// The string bound to `key`, if the object has it as a string.
pub open spec fn str_field(ps: Seq<(Seq<u8>, JsonVal)>, key: Seq<u8>) -> Option<Seq<u8>> {
    match lookup(ps, key) {
        Some(JsonVal::Str(s)) => Some(s),
        _ => None,
    }
}

/// The number bound to `key` as a `u8`, if the object has one in range.
pub open spec fn u8_field(ps: Seq<(Seq<u8>, JsonVal)>, key: Seq<u8>) -> Option<u8> {
    match lookup(ps, key) {
        Some(JsonVal::Num(d)) => if d.len() >= 1 && crate::json::all_digits(d) && crate::json::dec_val(d)
            <= 255 {
            Some(crate::json::dec_val(d) as u8)
        } else {
            None
        },
        _ => None,
    }
}

/// The number bound to `key` as a `u64`, if the object has one in range.
pub open spec fn u64_field(ps: Seq<(Seq<u8>, JsonVal)>, key: Seq<u8>) -> Option<u64> {
    match lookup(ps, key) {
        Some(JsonVal::Num(d)) => if d.len() >= 1 && crate::json::all_digits(d) && crate::json::dec_val(d)
            <= u64::MAX {
            Some(crate::json::dec_val(d) as u64)
        } else {
            None
        },
        _ => None,
    }
}

/// The object bound to `key`, if the object has it as an object.
pub open spec fn obj_field(ps: Seq<(Seq<u8>, JsonVal)>, key: Seq<u8>) -> Option<
    Seq<(Seq<u8>, JsonVal)>,
> {
    match lookup(ps, key) {
        Some(JsonVal::Obj(inner)) => Some(inner),
        _ => None,
    }
}

/// An identity as decoded from a proxy document, when the document has
/// the identity shape.
pub open spec fn identity_of_json(v: JsonVal) -> Option<IdentityV> {
    match v {
        JsonVal::Obj(ps) => match (
            str_field(ps, "peerId".spec_bytes()),
            str_field(ps, "urn".spec_bytes()),
            str_field(ps, "shareableEntityIdentifier".spec_bytes()),
            obj_field(ps, "metadata".spec_bytes()),
            obj_field(ps, "avatarFallback".spec_bytes()),
        ) {
            (Some(peer_id), Some(urn), Some(sei), Some(md), Some(av)) => match (
                str_field(md, "handle".spec_bytes()),
                str_field(av, "emoji".spec_bytes()),
                obj_field(av, "background".spec_bytes()),
            ) {
                (Some(handle), Some(emoji), Some(bg)) => match (
                    u8_field(bg, "r".spec_bytes()),
                    u8_field(bg, "g".spec_bytes()),
                    u8_field(bg, "b".spec_bytes()),
                ) {
                    (Some(r), Some(g), Some(b)) => Some(
                        IdentityV {
                            peer_id,
                            urn,
                            shareable_entity_identifier: sei,
                            handle,
                            emoji,
                            background: (r, g, b),
                        },
                    ),
                    _ => None,
                },
                _ => None,
            },
            _ => None,
        },
        _ => None,
    }
}

/// The string under `key`, copied out, if the document object has one.
pub fn field_str(v: &JsonValue, key: &str) -> (r: Option<Vec<u8>>)
    ensures
        match v@ {
            JsonVal::Obj(ps) => match str_field(ps, key.spec_bytes()) {
                Some(s) => r matches Some(b) && b@ == s,
                None => r is None,
            },
            _ => r is None,
        },
{
    match v.get(key.as_bytes()) {
        Some(f) => match f.as_str() {
            Some(s) => Some(crate::json::copy_bytes(s)),
            None => None,
        },
        None => None,
    }
}

/// The number under `key` as a `u8`, if the document object has one in
/// range.
pub fn field_u8(v: &JsonValue, key: &str) -> (r: Option<u8>)
    ensures
        match v@ {
            JsonVal::Obj(ps) => match u8_field(ps, key.spec_bytes()) {
                Some(n) => r == Some(n),
                None => r is None,
            },
            _ => r is None,
        },
{
    match v.get(key.as_bytes()) {
        Some(f) => match f.as_u64() {
            Some(n) => if n <= 255 {
                Some(n as u8)
            } else {
                None
            },
            None => None,
        },
        None => None,
    }
}

/// The number under `key` as a `u64`, if the document object has one in
/// range.
pub fn field_u64(v: &JsonValue, key: &str) -> (r: Option<u64>)
    ensures
        match v@ {
            JsonVal::Obj(ps) => match u64_field(ps, key.spec_bytes()) {
                Some(n) => r == Some(n),
                None => r is None,
            },
            _ => r is None,
        },
{
    match v.get(key.as_bytes()) {
        Some(f) => f.as_u64(),
        None => None,
    }
}

/// Decodes one identity document.
pub fn decode_identity(v: &JsonValue) -> (r: Option<Identity>)
    ensures
        match r {
            Some(id) => identity_of_json(v@) == Some(id@),
            None => identity_of_json(v@) is None,
        },
{
    let peer_id = match field_str(v, "peerId") {
        Some(x) => x,
        None => {
            return None;
        },
    };
    let urn = match field_str(v, "urn") {
        Some(x) => x,
        None => {
            return None;
        },
    };
    let sei = match field_str(v, "shareableEntityIdentifier") {
        Some(x) => x,
        None => {
            return None;
        },
    };
    let md = match v.get("metadata".as_bytes()) {
        Some(f) => f,
        None => {
            return None;
        },
    };
    let av = match v.get("avatarFallback".as_bytes()) {
        Some(f) => f,
        None => {
            return None;
        },
    };
    let handle = match field_str(md, "handle") {
        Some(x) => x,
        None => {
            return None;
        },
    };
    let emoji = match field_str(av, "emoji") {
        Some(x) => x,
        None => {
            return None;
        },
    };
    let bg = match av.get("background".as_bytes()) {
        Some(f) => f,
        None => {
            return None;
        },
    };
    let r = match field_u8(bg, "r") {
        Some(x) => x,
        None => {
            return None;
        },
    };
    let g = match field_u8(bg, "g") {
        Some(x) => x,
        None => {
            return None;
        },
    };
    let b = match field_u8(bg, "b") {
        Some(x) => x,
        None => {
            return None;
        },
    };
    Some(
        Identity {
            peer_id,
            urn,
            shareable_entity_identifier: sei,
            metadata: Metadata { handle },
            avatar_fallback: AvatarFallback { emoji, background: Color { r, g, b } },
        },
    )
}

/// The identities in a listing document, when every element has the
/// identity shape.
pub open spec fn identities_of_json(v: JsonVal) -> Option<Seq<IdentityV>> {
    match v {
        JsonVal::Arr(es) => identity_seq_of(es),
        _ => None,
    }
}

/// Decodes each element of a listing in order; any malformed element
/// spoils the whole listing.
pub open spec fn identity_seq_of(es: Seq<JsonVal>) -> Option<Seq<IdentityV>>
    decreases es.len(),
{
    if es.len() == 0 {
        Some(Seq::empty())
    } else {
        match (identity_of_json(es[0]), identity_seq_of(es.drop_first())) {
            (Some(id), Some(rest)) => Some(seq![id] + rest),
            _ => None,
        }
    }
}

/// The abstract identities a vector of them holds.
pub open spec fn views_of(ids: Seq<Identity>) -> Seq<IdentityV> {
    ids.map_values(|x: Identity| x@)
}

/// Decodes a listing document.
pub fn decode_identities(v: &JsonValue) -> (r: Option<Vec<Identity>>)
    ensures
        match r {
            Some(ids) => identities_of_json(v@) == Some(views_of(ids@)),
            None => identities_of_json(v@) is None,
        },
{
    let es = match v.as_arr() {
        Some(es) => es,
        None => {
            return None;
        },
    };
    let ghost evs = jv_elems(es@);
    proof {
        lemma_jv_elems(es@);
        assert(evs.skip(0) =~= evs);
        assert(views_of(Seq::<Identity>::empty()) =~= Seq::<IdentityV>::empty());
    }
    let n = es.len();
    let mut out: Vec<Identity> = Vec::new();
    let mut i: usize = 0;
    while i < n
        invariant
            i <= n,
            n == es@.len(),
            evs == jv_elems(es@),
            evs.len() == n,
            forall|k: int| 0 <= k < n ==> evs[k] == crate::json::jv(es@[k]),
            v@ == JsonVal::Arr(evs),
            match identity_seq_of(evs.skip(i as int)) {
                Some(rest) => identity_seq_of(evs) == Some(views_of(out@) + rest),
                None => identity_seq_of(evs) is None,
            },
        decreases n - i,
    {
        let ghost rest = evs.skip(i as int);
        assert(rest.len() == n - i);
        assert(rest[0] == evs[i as int]);
        assert(rest.drop_first() =~= evs.skip(i + 1));
        match decode_identity(&es[i]) {
            Some(id) => {
                let ghost before = out@;
                out.push(id);
                proof {
                    assert(identity_of_json(rest[0]) == Some(id@));
                    assert(views_of(out@) =~= views_of(before).push(id@));
                    match identity_seq_of(evs.skip(i + 1)) {
                        Some(r2) => {
                            assert(identity_seq_of(rest) == Some(seq![id@] + r2));
                            assert(views_of(before) + (seq![id@] + r2) =~= views_of(out@) + r2);
                        },
                        None => {
                            assert(identity_seq_of(rest) is None);
                        },
                    }
                }
            },
            None => {
                proof {
                    assert(identity_of_json(rest[0]) is None);
                    assert(identity_seq_of(rest) is None);
                }
                return None;
            },
        }
        i = i + 1;
    }
    proof {
        assert(evs.skip(n as int) =~= Seq::<JsonVal>::empty());
        assert(identity_seq_of(evs.skip(n as int)) == Some(Seq::<IdentityV>::empty()));
        assert(views_of(out@) + Seq::<IdentityV>::empty() =~= views_of(out@));
    }
    Some(out)
}

/// A fresh identity equal to `x`.
pub fn clone_identity(x: &Identity) -> (r: Identity)
    ensures
        r@ == x@,
{
    Identity {
        peer_id: crate::json::copy_bytes(&x.peer_id),
        urn: crate::json::copy_bytes(&x.urn),
        shareable_entity_identifier: crate::json::copy_bytes(&x.shareable_entity_identifier),
        metadata: Metadata { handle: crate::json::copy_bytes(&x.metadata.handle) },
        avatar_fallback: AvatarFallback {
            emoji: crate::json::copy_bytes(&x.avatar_fallback.emoji),
            background: Color {
                r: x.avatar_fallback.background.r,
                g: x.avatar_fallback.background.g,
                b: x.avatar_fallback.background.b,
            },
        },
    }
}

/// Whether `q` names this identity: its URN, handle or peer id equals it.
pub open spec fn matches_id(id: IdentityV, q: Seq<u8>) -> bool {
    id.urn == q || id.handle == q || id.peer_id == q
}

/// The identities of `ids` that `q` names, in order.
pub open spec fn matching(ids: Seq<IdentityV>, q: Seq<u8>) -> Seq<IdentityV>
    decreases ids.len(),
{
    if ids.len() == 0 {
        Seq::empty()
    } else {
        matching(ids.drop_last(), q) + if matches_id(ids.last(), q) {
            seq![ids.last()]
        } else {
            Seq::empty()
        }
    }
}

/// The identities that `q` names, by URN, handle or peer id, in order.
pub fn find_matching(ids: &Vec<Identity>, q: &[u8]) -> (r: Vec<Identity>)
    ensures
        views_of(r@) == matching(views_of(ids@), q@),
{
    let ghost all = views_of(ids@);
    let n = ids.len();
    let mut out: Vec<Identity> = Vec::new();
    let mut i: usize = 0;
    proof {
        assert(all.take(0) =~= Seq::<IdentityV>::empty());
        assert(views_of(out@) =~= matching(all.take(0), q@));
    }
    while i < n
        invariant
            i <= n,
            n == ids@.len(),
            all == views_of(ids@),
            all.len() == n,
            views_of(out@) == matching(all.take(i as int), q@),
        decreases n - i,
    {
        proof {
            assert(all[i as int] == ids@[i as int]@);
        }
        let hit = if crate::json::bytes_eq(ids[i].urn.as_slice(), q) {
            true
        } else if crate::json::bytes_eq(ids[i].metadata.handle.as_slice(), q) {
            true
        } else {
            crate::json::bytes_eq(ids[i].peer_id.as_slice(), q)
        };
        proof {
            assert(all.take(i + 1).drop_last() =~= all.take(i as int));
            assert(all.take(i + 1).last() == all[i as int]);
        }
        if hit {
            let ghost before = out@;
            out.push(clone_identity(&ids[i]));
            proof {
                assert(views_of(out@) =~= views_of(before).push(ids@[i as int]@));
                assert(matching(all.take(i as int), q@) + seq![all[i as int]] =~= views_of(
                    out@,
                ));
            }
        } else {
            proof {
                assert(matching(all.take(i as int), q@) + Seq::<IdentityV>::empty() =~= views_of(
                    out@,
                ));
            }
        }
        i = i + 1;
    }
    proof {
        assert(all.take(n as int) =~= all);
    }
    out
}

/// What a listing request hands back, for every answer the agent can
/// give: a well-received body yields exactly the identities it holds, or
/// a `Serialization` error when it has another shape; any failure is
/// handed back unchanged.
pub fn listing_of(r: Result<JsonValue, ApiError>) -> (out: Result<Vec<Identity>, ApiError>)
    ensures
        match r {
            Ok(doc) => match identities_of_json(doc@) {
                Some(ids) => out matches Ok(v) && views_of(v@) == ids,
                None => out matches Err(e) && e is Serialization,
            },
            Err(e) => out matches Err(e2) && e2 == e,
        },
{
    match r {
        Ok(doc) => match decode_identities(&doc) {
            Some(ids) => Ok(ids),
            None => Err(ApiError::Serialization),
        },
        Err(e) => Err(e),
    }
}

/// What a single-identity request hands back, for every answer the agent
/// can give: a missing identity stays `None`, a well-received body yields
/// exactly the identity it holds or a `Serialization` error, and any
/// failure is handed back unchanged.
pub fn lookup_of(r: Result<Option<JsonValue>, ApiError>) -> (out: Result<Option<Identity>, ApiError>)
    ensures
        match r {
            Ok(o) => match o {
                Some(doc) => match identity_of_json(doc@) {
                    Some(id) => out matches Ok(oi) && oi matches Some(i) && i@ == id,
                    None => out matches Err(e) && e is Serialization,
                },
                None => out matches Ok(oi) && oi is None,
            },
            Err(e) => out matches Err(e2) && e2 == e,
        },
{
    match r {
        Ok(Some(doc)) => match decode_identity(&doc) {
            Some(id) => Ok(Some(id)),
            None => Err(ApiError::Serialization),
        },
        Ok(None) => Ok(None),
        Err(e) => Err(e),
    }
}

/// All identities the proxy knows: one GET whose every outcome is pinned
/// by `listing_of` over `Client::get`.
pub fn list(client: &Client) -> (r: Result<Vec<Identity>, ApiError>)
    ensures
        r matches Err(e) ==> !(e is UrlConstruction),
{
    listing_of(client.get(&["v1", "identities"]))
}

/// The identity under this URN, or `None` when the proxy does not know
/// it (a 404 answer): one GET whose every outcome is pinned by
/// `lookup_of` over `Client::get_opt`.
pub fn get(client: &Client, urn: &str) -> (r: Result<Option<Identity>, ApiError>)
    ensures
        r matches Err(e) ==> !(e is UrlConstruction),
{
    lookup_of(client.get_opt(&["v1", "identities", urn]))
}

} // verus!
