//! The session resource: the signed-in identity and the session settings,
//! with the settings' JSON shape in both directions, and the seed set
//! edits that ride on it.

use vstd::prelude::*;

use crate::agent::Client;
use crate::error::ApiError;
use crate::identities::{decode_identity, identity_of_json, Identity, IdentityV};
use crate::json::{
    byte_views, copy_bytes, jv_elems, jv_pairs, lemma_jv_elems, lemma_jv_pairs, lookup, str_bytes,
    JsonVal, JsonValue,
};
use vstd::string::StringSliceAdditionalSpecFns;

verus! {

/// Hints the UI shows or hides.
#[derive(Debug, PartialEq, Eq)]
pub struct Hints {
    pub show_remote_helper: bool,
}

/// Appearance settings.
#[derive(Debug, PartialEq, Eq)]
pub struct Appearance {
    pub theme: Vec<u8>,
    pub hints: Hints,
}

/// Peer-to-peer settings: the seeds used for discovery, a set.
#[derive(Debug, PartialEq, Eq)]
pub struct Coco {
    pub seeds: Vec<Vec<u8>>,
}

/// The session settings document, replaced in full on update.
#[derive(Debug, PartialEq, Eq)]
pub struct Settings {
    pub appearance: Appearance,
    pub coco: Coco,
}

/// The mathematical shape of the settings.
pub struct SettingsV {
    pub theme: Seq<u8>,
    pub show_remote_helper: bool,
    pub seeds: Seq<Seq<u8>>,
}

impl View for Settings {
    type V = SettingsV;

    open spec fn view(&self) -> SettingsV {
        SettingsV {
            theme: self.appearance.theme@,
            show_remote_helper: self.appearance.hints.show_remote_helper,
            seeds: byte_views(self.coco.seeds@),
        }
    }
}

/// The current session: who is signed in, with which settings.
#[derive(Debug, PartialEq, Eq)]
pub struct Session {
    pub identity: Identity,
    pub settings: Settings,
}

/// The mathematical shape of a session.
pub struct SessionV {
    pub identity: IdentityV,
    pub settings: SettingsV,
}

impl View for Session {
    type V = SessionV;

    open spec fn view(&self) -> SessionV {
        SessionV { identity: self.identity@, settings: self.settings@ }
    }
}

/// True when the seed list holds `x`.
fn seeds_contain(seeds: &Vec<Vec<u8>>, x: &[u8]) -> (r: bool)
    ensures
        r == byte_views(seeds@).contains(x@),
{
    let ghost views = byte_views(seeds@);
    let n = seeds.len();
    let mut i: usize = 0;
    while i < n
        invariant
            i <= n,
            n == seeds@.len(),
            views == byte_views(seeds@),
            views.len() == n,
            forall|k: int| 0 <= k < i ==> views[k] != x@,
        decreases n - i,
    {
        if crate::json::bytes_eq(seeds[i].as_slice(), x) {
            proof {
                assert(views[i as int] == x@);
            }
            return true;
        }
        i = i + 1;
    }
    proof {
        assert(forall|k: int| 0 <= k < views.len() ==> views[k] != x@);
    }
    false
}

/// The seed set after an add: unchanged when the seed is already there,
/// else the seed appended.
pub open spec fn spec_insert_seed(seeds: Seq<Seq<u8>>, x: Seq<u8>) -> Seq<Seq<u8>> {
    if seeds.contains(x) {
        seeds
    } else {
        seeds.push(x)
    }
}

/// The seed set after a removal: every occurrence of the seed is gone,
/// the order of the rest kept.
pub open spec fn spec_remove_seed(seeds: Seq<Seq<u8>>, x: Seq<u8>) -> Seq<Seq<u8>>
    decreases seeds.len(),
{
    if seeds.len() == 0 {
        Seq::empty()
    } else {
        spec_remove_seed(seeds.drop_last(), x) + if seeds.last() == x {
            Seq::empty()
        } else {
            seq![seeds.last()]
        }
    }
}

/// Adds a seed to the settings' seed set; everything else is untouched.
/// Seeds form a set: a seed that is already present is not added again.
pub fn insert_seed(settings: &mut Settings, seed: Vec<u8>)
    ensures
        final(settings)@ == (SettingsV { seeds: spec_insert_seed(old(settings)@.seeds, seed@), ..old(settings)@ }),
{
    if !seeds_contain(&settings.coco.seeds, seed.as_slice()) {
        let ghost before = settings.coco.seeds@;
        settings.coco.seeds.push(seed);
        proof {
            assert(byte_views(settings.coco.seeds@) =~= byte_views(before).push(seed@));
        }
    }
}

/// Removes a seed from the settings' seed set; everything else is
/// untouched.
pub fn remove_seed(settings: &mut Settings, seed: &[u8])
    ensures
        final(settings)@ == (SettingsV { seeds: spec_remove_seed(old(settings)@.seeds, seed@), ..old(settings)@ }),
{
    let ghost all = byte_views(settings.coco.seeds@);
    let n = settings.coco.seeds.len();
    let mut kept: Vec<Vec<u8>> = Vec::new();
    let mut i: usize = 0;
    proof {
        assert(all.take(0) =~= Seq::<Seq<u8>>::empty());
        assert(byte_views(kept@) =~= spec_remove_seed(all.take(0), seed@));
    }
    while i < n
        invariant
            i <= n,
            n == settings.coco.seeds@.len(),
            all == byte_views(settings.coco.seeds@),
            all.len() == n,
            byte_views(kept@) == spec_remove_seed(all.take(i as int), seed@),
            *settings == *old(settings),
        decreases n - i,
    {
        proof {
            assert(all[i as int] == settings.coco.seeds@[i as int]@);
            assert(all.take(i + 1).drop_last() =~= all.take(i as int));
            assert(all.take(i + 1).last() == all[i as int]);
        }
        if !crate::json::bytes_eq(settings.coco.seeds[i].as_slice(), seed) {
            let ghost before = kept@;
            kept.push(copy_bytes(&settings.coco.seeds[i]));
            proof {
                assert(byte_views(kept@) =~= byte_views(before).push(all[i as int]));
                assert(spec_remove_seed(all.take(i as int), seed@) + seq![all[i as int]] =~=
                    byte_views(kept@));
            }
        } else {
            proof {
                assert(spec_remove_seed(all.take(i as int), seed@) + Seq::<Seq<u8>>::empty() =~=
                    byte_views(kept@));
            }
        }
        i = i + 1;
    }
    proof {
        assert(all.take(n as int) =~= all);
    }
    settings.coco.seeds = kept;
}

/// Seed adds behave as set insertion: adding a seed a second time changes
/// nothing; a new seed grows the set by exactly one element; and after an
/// add the seed is always present.
pub proof fn lemma_seed_add_idempotent(seeds: Seq<Seq<u8>>, x: Seq<u8>)
    ensures
        spec_insert_seed(spec_insert_seed(seeds, x), x) == spec_insert_seed(seeds, x),
        seeds.contains(x) ==> spec_insert_seed(seeds, x) == seeds,
        !seeds.contains(x) ==> spec_insert_seed(seeds, x).len() == seeds.len() + 1,
        spec_insert_seed(seeds, x).contains(x),
        spec_insert_seed(seeds, x).to_set() == seeds.to_set().insert(x),
{
    let once = spec_insert_seed(seeds, x);
    if seeds.contains(x) {
        assert(once == seeds);
    } else {
        assert(seeds.push(x)[seeds.len() as int] == x);
        assert(once.contains(x));
    }
    assert(spec_insert_seed(once, x) == once);
    assert(once.to_set() =~= seeds.to_set().insert(x)) by {
        if seeds.contains(x) {
            assert(seeds.to_set().contains(x));
        } else {
            assert(forall|y: Seq<u8>| #[trigger] seeds.push(x).contains(y) <==> seeds.contains(y)
                || y == x) by {
                assert(forall|k: int| 0 <= k < seeds.len() ==> seeds.push(x)[k] == seeds[k]);
                assert(seeds.push(x)[seeds.len() as int] == x);
            }
        }
    }
}

/// The settings' wire shape: the nested objects the proxy serves and
/// accepts.
pub open spec fn settings_json(s: SettingsV) -> JsonVal {
    JsonVal::Obj(
        seq![
            (
                "appearance".spec_bytes(),
                JsonVal::Obj(
                    seq![
                        ("theme".spec_bytes(), JsonVal::Str(s.theme)),
                        (
                            "hints".spec_bytes(),
                            JsonVal::Obj(
                                seq![
                                    ("showRemoteHelper".spec_bytes(), JsonVal::Bool(s.show_remote_helper)),
                                ],
                            ),
                        ),
                    ],
                ),
            ),
            (
                "coco".spec_bytes(),
                JsonVal::Obj(seq![("seeds".spec_bytes(), JsonVal::Arr(seeds_json(s.seeds)))]),
            ),
        ],
    )
}

/// The seed list's wire shape: each seed a string.
pub open spec fn seeds_json(seeds: Seq<Seq<u8>>) -> Seq<JsonVal> {
    seeds.map_values(|x: Seq<u8>| JsonVal::Str(x))
}

/// Encodes the settings for a full replace.
pub fn encode_settings(s: &Settings) -> (b: JsonValue)
    ensures
        b@ == settings_json(s@),
{
    let ghost seedvs = byte_views(s.coco.seeds@);
    let n = s.coco.seeds.len();
    let mut seed_vals: Vec<JsonValue> = Vec::new();
    let mut i: usize = 0;
    proof {
        lemma_jv_elems(seed_vals@);
        assert(jv_elems(seed_vals@) =~= seeds_json(seedvs.take(0)));
    }
    while i < n
        invariant
            i <= n,
            n == s.coco.seeds@.len(),
            seedvs == byte_views(s.coco.seeds@),
            seedvs.len() == n,
            jv_elems(seed_vals@) == seeds_json(seedvs.take(i as int)),
        decreases n - i,
    {
        let ghost before = seed_vals@;
        seed_vals.push(JsonValue::Str(copy_bytes(&s.coco.seeds[i])));
        proof {
            lemma_jv_elems(before);
            lemma_jv_elems(seed_vals@);
            assert(jv_elems(seed_vals@) =~= jv_elems(before).push(
                JsonVal::Str(seedvs[i as int]),
            ));
            assert(seeds_json(seedvs.take(i + 1)) =~= seeds_json(seedvs.take(i as int)).push(
                JsonVal::Str(seedvs[i as int]),
            ));
        }
        i = i + 1;
    }
    proof {
        assert(seedvs.take(n as int) =~= seedvs);
    }
    let ghost seeds_doc = JsonVal::Arr(seeds_json(s@.seeds));
    let mut hints: Vec<(Vec<u8>, JsonValue)> = Vec::new();
    hints.push((str_bytes("showRemoteHelper"), JsonValue::Bool(s.appearance.hints.show_remote_helper)));
    proof {
        lemma_jv_pairs(hints@);
        assert(jv_pairs(hints@) =~= seq![
            ("showRemoteHelper".spec_bytes(), JsonVal::Bool(s@.show_remote_helper)),
        ]);
    }
    let ghost hints_doc = JsonVal::Obj(jv_pairs(hints@));
    let mut appearance: Vec<(Vec<u8>, JsonValue)> = Vec::new();
    appearance.push((str_bytes("theme"), JsonValue::Str(copy_bytes(&s.appearance.theme))));
    appearance.push((str_bytes("hints"), JsonValue::Obj(hints)));
    proof {
        lemma_jv_pairs(appearance@);
        assert(jv_pairs(appearance@) =~= seq![
            ("theme".spec_bytes(), JsonVal::Str(s@.theme)),
            ("hints".spec_bytes(), hints_doc),
        ]);
    }
    let ghost appearance_doc = JsonVal::Obj(jv_pairs(appearance@));
    let mut coco: Vec<(Vec<u8>, JsonValue)> = Vec::new();
    coco.push((str_bytes("seeds"), JsonValue::Arr(seed_vals)));
    proof {
        lemma_jv_pairs(coco@);
        assert(jv_pairs(coco@) =~= seq![("seeds".spec_bytes(), seeds_doc)]);
    }
    let ghost coco_doc = JsonVal::Obj(jv_pairs(coco@));
    let mut top: Vec<(Vec<u8>, JsonValue)> = Vec::new();
    top.push((str_bytes("appearance"), JsonValue::Obj(appearance)));
    top.push((str_bytes("coco"), JsonValue::Obj(coco)));
    let b = JsonValue::Obj(top);
    proof {
        lemma_jv_pairs(top@);
        assert(b@ == JsonVal::Obj(jv_pairs(top@)));
        assert(jv_pairs(top@) =~= seq![
            ("appearance".spec_bytes(), appearance_doc),
            ("coco".spec_bytes(), coco_doc),
        ]);
        assert(b@ =~~= settings_json(s@));
    }
    b
}

/// The settings decoded from a proxy document, when the document has the
/// settings shape.
pub open spec fn settings_of_json(v: JsonVal) -> Option<SettingsV> {
    match v {
        JsonVal::Obj(ps) => match (
            lookup(ps, "appearance".spec_bytes()),
            lookup(ps, "coco".spec_bytes()),
        ) {
            (Some(JsonVal::Obj(ap)), Some(JsonVal::Obj(cp))) => match (
                lookup(ap, "theme".spec_bytes()),
                lookup(ap, "hints".spec_bytes()),
                lookup(cp, "seeds".spec_bytes()),
            ) {
                (Some(JsonVal::Str(theme)), Some(JsonVal::Obj(hp)), Some(JsonVal::Arr(sv))) => match (
                    lookup(hp, "showRemoteHelper".spec_bytes()),
                    seeds_of_json(sv),
                ) {
                    (Some(JsonVal::Bool(b)), Some(seeds)) => Some(
                        SettingsV { theme, show_remote_helper: b, seeds },
                    ),
                    _ => None,
                },
                _ => None,
            },
            _ => None,
        },
        _ => None,
    }
}

/// The seeds in a settings document, when every element is a string.
pub open spec fn seeds_of_json(es: Seq<JsonVal>) -> Option<Seq<Seq<u8>>>
    decreases es.len(),
{
    if es.len() == 0 {
        Some(Seq::empty())
    } else {
        match (es[0], seeds_of_json(es.drop_first())) {
            (JsonVal::Str(s), Some(rest)) => Some(seq![s] + rest),
            _ => None,
        }
    }
}

/// Decodes a settings document.
pub fn decode_settings(v: &JsonValue) -> (r: Option<Settings>)
    ensures
        match r {
            Some(s) => settings_of_json(v@) == Some(s@),
            None => settings_of_json(v@) is None,
        },
{
    let ap = match v.get("appearance".as_bytes()) {
        Some(f) => f,
        None => {
            return None;
        },
    };
    let cp = match v.get("coco".as_bytes()) {
        Some(f) => f,
        None => {
            return None;
        },
    };
    if !(ap.is_obj() && cp.is_obj()) {
        return None;
    }
    let theme = match crate::identities::field_str(ap, "theme") {
        Some(t) => t,
        None => {
            return None;
        },
    };
    let hp = match ap.get("hints".as_bytes()) {
        Some(f) => f,
        None => {
            return None;
        },
    };
    if !hp.is_obj() {
        return None;
    }
    let b = match hp.get("showRemoteHelper".as_bytes()) {
        Some(f) => match f.as_bool() {
            Some(b) => b,
            None => {
                return None;
            },
        },
        None => {
            return None;
        },
    };
    let sv = match cp.get("seeds".as_bytes()) {
        Some(f) => match f.as_arr() {
            Some(es) => es,
            None => {
                return None;
            },
        },
        None => {
            return None;
        },
    };
    let ghost evs = jv_elems(sv@);
    proof {
        lemma_jv_elems(sv@);
        assert(evs.skip(0) =~= evs);
        assert(byte_views(Seq::<Vec<u8>>::empty()) =~= Seq::<Seq<u8>>::empty());
    }
    let n = sv.len();
    let mut seeds: Vec<Vec<u8>> = Vec::new();
    let mut i: usize = 0;
    while i < n
        invariant
            i <= n,
            n == sv@.len(),
            evs == jv_elems(sv@),
            evs.len() == n,
            forall|k: int| 0 <= k < n ==> evs[k] == crate::json::jv(sv@[k]),
            settings_of_json(v@) == (match seeds_of_json(evs) {
                Some(sd) => Some(SettingsV { theme: theme@, show_remote_helper: b, seeds: sd }),
                None => None::<SettingsV>,
            }),
            match seeds_of_json(evs.skip(i as int)) {
                Some(rest) => seeds_of_json(evs) == Some(byte_views(seeds@) + rest),
                None => seeds_of_json(evs) is None,
            },
        decreases n - i,
    {
        let ghost rest = evs.skip(i as int);
        assert(rest.len() == n - i);
        assert(rest[0] == evs[i as int]);
        assert(rest.drop_first() =~= evs.skip(i + 1));
        match sv[i].as_str() {
            Some(s) => {
                let ghost before = seeds@;
                seeds.push(copy_bytes(s));
                proof {
                    assert(byte_views(seeds@) =~= byte_views(before).push(s@));
                    match seeds_of_json(evs.skip(i + 1)) {
                        Some(r2) => {
                            assert(seeds_of_json(rest) == Some(seq![s@] + r2));
                            assert(byte_views(before) + (seq![s@] + r2) =~= byte_views(seeds@)
                                + r2);
                        },
                        None => {
                            assert(seeds_of_json(rest) is None);
                        },
                    }
                }
            },
            None => {
                proof {
                    assert(seeds_of_json(rest) is None);
                }
                return None;
            },
        }
        i = i + 1;
    }
    proof {
        assert(evs.skip(n as int) =~= Seq::<JsonVal>::empty());
        assert(byte_views(seeds@) + Seq::<Seq<u8>>::empty() =~= byte_views(seeds@));
    }
    Some(
        Settings {
            appearance: Appearance {
                theme,
                hints: Hints { show_remote_helper: b },
            },
            coco: Coco { seeds },
        },
    )
}

/// A session decoded from a proxy document, when the document has the
/// session shape.
pub open spec fn session_of_json(v: JsonVal) -> Option<SessionV> {
    match v {
        JsonVal::Obj(ps) => match (
            lookup(ps, "identity".spec_bytes()),
            lookup(ps, "settings".spec_bytes()),
        ) {
            (Some(idv), Some(stv)) => match (identity_of_json(idv), settings_of_json(stv)) {
                (Some(identity), Some(settings)) => Some(SessionV { identity, settings }),
                _ => None,
            },
            _ => None,
        },
        _ => None,
    }
}

/// Decodes a session document.
pub fn decode_session(v: &JsonValue) -> (r: Option<Session>)
    ensures
        match r {
            Some(s) => session_of_json(v@) == Some(s@),
            None => session_of_json(v@) is None,
        },
{
    let idf = match v.get("identity".as_bytes()) {
        Some(f) => f,
        None => {
            return None;
        },
    };
    let stf = match v.get("settings".as_bytes()) {
        Some(f) => f,
        None => {
            return None;
        },
    };
    let identity = match decode_identity(idf) {
        Some(id) => id,
        None => {
            return None;
        },
    };
    let settings = match decode_settings(stf) {
        Some(s) => s,
        None => {
            return None;
        },
    };
    Some(Session { identity, settings })
}

/// What a session request hands back, for every answer the agent can
/// give: a well-received body yields exactly the session it holds, or a
/// `Serialization` error when it has another shape; any failure is handed
/// back unchanged.
pub fn session_of(r: Result<JsonValue, ApiError>) -> (out: Result<Session, ApiError>)
    ensures
        match r {
            Ok(doc) => match session_of_json(doc@) {
                Some(s) => out matches Ok(se) && se@ == s,
                None => out matches Err(e) && e is Serialization,
            },
            Err(e) => out matches Err(e2) && e2 == e,
        },
{
    match r {
        Ok(doc) => match decode_session(&doc) {
            Some(s) => Ok(s),
            None => Err(ApiError::Serialization),
        },
        Err(e) => Err(e),
    }
}

/// The current session: one GET whose every outcome is pinned by
/// `session_of` over `Client::get`.
pub fn get(client: &Client) -> (r: Result<Session, ApiError>)
    ensures
        r matches Err(e) ==> !(e is UrlConstruction),
{
    session_of(client.get(&["v1", "session"]))
}

/// Replaces the session settings in full — a whole document, not a patch.
/// The body sent is pinned by `encode_settings`; the proxy answers with an
/// empty body, which is ignored, so success tracks the server's answer
/// exactly as `interpret_response_ignoring_body` lays out.
pub fn update_settings(client: &Client, settings: &Settings) -> (r: Result<(), ApiError>)
    ensures
        r matches Err(e) ==> !(e is UrlConstruction),
{
    let body = encode_settings(settings);
    client.post_ignoring_body(&["v1", "session", "settings"], &body)
}

/// The settings keys that share an object are distinct byte strings.
proof fn settings_keys_distinct()
    ensures
        "appearance".spec_bytes() != "coco".spec_bytes(),
        "theme".spec_bytes() != "hints".spec_bytes(),
{
    broadcast use vstd::string::is_ascii_spec_bytes;

    reveal_strlit("appearance");
    reveal_strlit("coco");
    reveal_strlit("theme");
    reveal_strlit("hints");
    assert(vstd::string::is_ascii("appearance"));
    assert(vstd::string::is_ascii("coco"));
    assert(vstd::string::is_ascii("theme"));
    assert(vstd::string::is_ascii("hints"));
    assert("appearance".spec_bytes().len() == 10);
    assert("coco".spec_bytes().len() == 4);
    assert("theme".spec_bytes()[0] == 't' as u8);
    assert("hints".spec_bytes()[0] == 'h' as u8);
}

/// Each rendered seed decodes back to itself.
proof fn lemma_seeds_round_trip(seeds: Seq<Seq<u8>>)
    ensures
        seeds_of_json(seeds_json(seeds)) == Some(seeds),
    decreases seeds.len(),
{
    let es = seeds_json(seeds);
    if seeds.len() == 0 {
        assert(es =~= Seq::<JsonVal>::empty());
    } else {
        lemma_seeds_round_trip(seeds.drop_first());
        assert(es[0] == JsonVal::Str(seeds[0]));
        assert(es.drop_first() =~= seeds_json(seeds.drop_first()));
        assert(seq![seeds[0]] + seeds.drop_first() =~= seeds);
    }
}

/// Decoding what the settings encode to yields the settings unchanged:
/// writing the settings document and reading it back is the identity.
pub proof fn lemma_settings_round_trip(s: SettingsV)
    ensures
        settings_of_json(settings_json(s)) == Some(s),
{
    settings_keys_distinct();
    lemma_seeds_round_trip(s.seeds);
    let doc = settings_json(s);
    let top = doc->Obj_0;
    assert(lookup(top, "appearance".spec_bytes()) == Some(top[0].1));
    assert(top.drop_first() =~= seq![top[1]]);
    assert(lookup(top, "coco".spec_bytes()) == lookup(top.drop_first(), "coco".spec_bytes()));
    assert(lookup(seq![top[1]], "coco".spec_bytes()) == Some(top[1].1));
    assert(lookup(top, "coco".spec_bytes()) == Some(top[1].1));
    let ap = top[0].1->Obj_0;
    assert(lookup(ap, "theme".spec_bytes()) == Some(ap[0].1));
    assert(ap.drop_first() =~= seq![ap[1]]);
    assert(lookup(ap, "hints".spec_bytes()) == lookup(ap.drop_first(), "hints".spec_bytes()));
    assert(lookup(seq![ap[1]], "hints".spec_bytes()) == Some(ap[1].1));
    assert(lookup(ap, "hints".spec_bytes()) == Some(ap[1].1));
    let hp = ap[1].1->Obj_0;
    assert(lookup(hp, "showRemoteHelper".spec_bytes()) == Some(hp[0].1));
    let cp = top[1].1->Obj_0;
    assert(lookup(cp, "seeds".spec_bytes()) == Some(cp[0].1));
    assert(settings_of_json(doc) == Some(SettingsV {
        theme: s.theme,
        show_remote_helper: s.show_remote_helper,
        seeds: s.seeds,
    }));
    assert(SettingsV {
        theme: s.theme,
        show_remote_helper: s.show_remote_helper,
        seeds: s.seeds,
    } == s);
}

/// Rendered seeds are well-formed documents: each is a string.
proof fn lemma_seeds_wf(seeds: Seq<Seq<u8>>)
    ensures
        crate::json::wf_elems(seeds_json(seeds)),
    decreases seeds.len(),
{
    let es = seeds_json(seeds);
    if seeds.len() == 0 {
        assert(es =~= Seq::<JsonVal>::empty());
    } else {
        lemma_seeds_wf(seeds.drop_first());
        assert(es[0] == JsonVal::Str(seeds[0]));
        assert(crate::json::wf_val(es[0]));
        assert(es.drop_first() =~= seeds_json(seeds.drop_first()));
        assert(crate::json::wf_elems(es.drop_first()));
    }
}

/// The settings document is well-formed: it holds no numbers at all.
proof fn lemma_settings_wf(s: SettingsV)
    ensures
        crate::json::wf_val(settings_json(s)),
{
    let doc = settings_json(s);
    let top = doc->Obj_0;
    let ap = top[0].1->Obj_0;
    let hp = ap[1].1->Obj_0;
    let cp = top[1].1->Obj_0;
    lemma_seeds_wf(s.seeds);
    assert(crate::json::wf_pairs(hp)) by {
        assert(hp[0].1 == JsonVal::Bool(s.show_remote_helper));
        assert(crate::json::wf_val(hp[0].1));
        assert(hp.drop_first() =~= Seq::<(Seq<u8>, JsonVal)>::empty());
        assert(crate::json::wf_pairs(hp.drop_first()));
    }
    assert(crate::json::wf_pairs(ap)) by {
        assert(ap[0].1 == JsonVal::Str(s.theme));
        assert(crate::json::wf_val(ap[0].1));
        assert(ap[1].1 == JsonVal::Obj(hp));
        assert(crate::json::wf_val(ap[1].1));
        assert(ap.drop_first() =~= seq![ap[1]]);
        assert(crate::json::wf_pairs(seq![ap[1]])) by {
            assert(seq![ap[1]].drop_first() =~= Seq::<(Seq<u8>, JsonVal)>::empty());
            assert(crate::json::wf_pairs(Seq::<(Seq<u8>, JsonVal)>::empty()));
        }
    }
    assert(crate::json::wf_pairs(cp)) by {
        assert(cp[0].1 == JsonVal::Arr(seeds_json(s.seeds)));
        assert(crate::json::wf_val(cp[0].1));
        assert(cp.drop_first() =~= Seq::<(Seq<u8>, JsonVal)>::empty());
        assert(crate::json::wf_pairs(cp.drop_first()));
    }
    assert(crate::json::wf_pairs(top)) by {
        assert(top[0].1 == JsonVal::Obj(ap));
        assert(crate::json::wf_val(top[0].1));
        assert(top[1].1 == JsonVal::Obj(cp));
        assert(crate::json::wf_val(top[1].1));
        assert(top.drop_first() =~= seq![top[1]]);
        assert(crate::json::wf_pairs(seq![top[1]])) by {
            assert(seq![top[1]].drop_first() =~= Seq::<(Seq<u8>, JsonVal)>::empty());
            assert(crate::json::wf_pairs(Seq::<(Seq<u8>, JsonVal)>::empty()));
        }
    }
    assert(crate::json::wf_val(doc));
}

/// The settings survive the whole wire round trip: the rendered text of
/// the settings document parses back to that document, and decoding it
/// yields the settings unchanged. An update echoed by the proxy therefore
/// reads back as the settings just written, absent a concurrent writer.
pub proof fn lemma_settings_wire_round_trip(s: SettingsV)
    ensures
        crate::json::json_doc(crate::json::text_of(settings_json(s))) == Some(settings_json(s)),
        settings_of_json(settings_json(s)) == Some(s),
{
    lemma_settings_wf(s);
    crate::json::lemma_render_parse(settings_json(s));
    lemma_settings_round_trip(s);
}

} // verus!
