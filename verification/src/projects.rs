//! Projects as the proxy serves them: tracked and contributed listings,
//! single-project lookup, tracked peers, and pending requests with their
//! state machine of discovery.

use vstd::prelude::*;

use crate::agent::Client;
use crate::error::ApiError;
use crate::identities::{
    decode_identity, field_str, field_u64, identity_of_json, str_field, u64_field, Identity,
    IdentityV,
};
use crate::json::{
    byte_views, clone_value, copy_bytes, decode_strings, jv, jv_elems, jv_pairs, lemma_jv_elems,
    lemma_jv_pairs, lookup, strings_of, JsonVal, JsonValue,
};
use vstd::string::StringSliceAdditionalSpecFns;

verus! {

/// Commit-graph statistics of a project.
#[derive(Debug, PartialEq, Eq)]
pub struct Stats {
    pub commits: u64,
    pub branches: u64,
    pub contributors: u64,
}

/// The user-chosen part of a project.
#[derive(Debug, PartialEq, Eq)]
pub struct Metadata {
    pub name: Vec<u8>,
    pub description: Vec<u8>,
    pub default_branch: Vec<u8>,
    pub maintainers: Vec<Vec<u8>>,
}

/// One project known to the proxy.
#[derive(Debug, PartialEq, Eq)]
pub struct Project {
    pub urn: Vec<u8>,
    pub shareable_entity_identifier: Vec<u8>,
    pub metadata: Metadata,
    pub stats: Stats,
}

/// The mathematical shape of a project.
pub struct ProjectV {
    pub urn: Seq<u8>,
    pub shareable_entity_identifier: Seq<u8>,
    pub name: Seq<u8>,
    pub description: Seq<u8>,
    pub default_branch: Seq<u8>,
    pub maintainers: Seq<Seq<u8>>,
    pub commits: u64,
    pub branches: u64,
    pub contributors: u64,
}

impl View for Project {
    type V = ProjectV;

    open spec fn view(&self) -> ProjectV {
        ProjectV {
            urn: self.urn@,
            shareable_entity_identifier: self.shareable_entity_identifier@,
            name: self.metadata.name@,
            description: self.metadata.description@,
            default_branch: self.metadata.default_branch@,
            maintainers: byte_views(self.metadata.maintainers@),
            commits: self.stats.commits,
            branches: self.stats.branches,
            contributors: self.stats.contributors,
        }
    }
}

/// A project decoded from a proxy document, when the document has the
/// project shape.
pub open spec fn project_of_json(v: JsonVal) -> Option<ProjectV> {
    match v {
        JsonVal::Obj(ps) => match (
            str_field(ps, "urn".spec_bytes()),
            str_field(ps, "shareableEntityIdentifier".spec_bytes()),
            lookup(ps, "metadata".spec_bytes()),
            lookup(ps, "stats".spec_bytes()),
        ) {
            (Some(urn), Some(sei), Some(JsonVal::Obj(md)), Some(JsonVal::Obj(st))) => match (
                str_field(md, "name".spec_bytes()),
                str_field(md, "description".spec_bytes()),
                str_field(md, "defaultBranch".spec_bytes()),
                lookup(md, "maintainers".spec_bytes()),
            ) {
                (Some(name), Some(description), Some(default_branch), Some(JsonVal::Arr(ms))) => match (
                    strings_of(ms),
                    u64_field(st, "commits".spec_bytes()),
                    u64_field(st, "branches".spec_bytes()),
                    u64_field(st, "contributors".spec_bytes()),
                ) {
                    (Some(maintainers), Some(commits), Some(branches), Some(contributors)) => Some(
                        ProjectV {
                            urn,
                            shareable_entity_identifier: sei,
                            name,
                            description,
                            default_branch,
                            maintainers,
                            commits,
                            branches,
                            contributors,
                        },
                    ),
                    _ => None,
                },
                _ => None,
            },
            _ => None,
        },
        _ => None,
    }
}

/// Decodes one project document.
pub fn decode_project(v: &JsonValue) -> (r: Option<Project>)
    ensures
        match r {
            Some(p) => project_of_json(v@) == Some(p@),
            None => project_of_json(v@) is None,
        },
{
    let urn = match field_str(v, "urn") {
        Some(x) => x,
        None => {
            return None;
        },
    };
    let sei = match field_str(v, "shareableEntityIdentifier") {
        Some(x) => x,
        None => {
            return None;
        },
    };
    let md = match v.get("metadata".as_bytes()) {
        Some(f) => f,
        None => {
            return None;
        },
    };
    let st = match v.get("stats".as_bytes()) {
        Some(f) => f,
        None => {
            return None;
        },
    };
    if !(md.is_obj() && st.is_obj()) {
        return None;
    }
    let name = match field_str(md, "name") {
        Some(x) => x,
        None => {
            return None;
        },
    };
    let description = match field_str(md, "description") {
        Some(x) => x,
        None => {
            return None;
        },
    };
    let default_branch = match field_str(md, "defaultBranch") {
        Some(x) => x,
        None => {
            return None;
        },
    };
    let ms = match md.get("maintainers".as_bytes()) {
        Some(f) => match f.as_arr() {
            Some(es) => es,
            None => {
                return None;
            },
        },
        None => {
            return None;
        },
    };
    let maintainers = match decode_strings(ms) {
        Some(x) => x,
        None => {
            return None;
        },
    };
    let commits = match field_u64(st, "commits") {
        Some(x) => x,
        None => {
            return None;
        },
    };
    let branches = match field_u64(st, "branches") {
        Some(x) => x,
        None => {
            return None;
        },
    };
    let contributors = match field_u64(st, "contributors") {
        Some(x) => x,
        None => {
            return None;
        },
    };
    Some(
        Project {
            urn,
            shareable_entity_identifier: sei,
            metadata: Metadata { name, description, default_branch, maintainers },
            stats: Stats { commits, branches, contributors },
        },
    )
}

/// The abstract projects a vector of them holds.
pub open spec fn project_views(ps: Seq<Project>) -> Seq<ProjectV> {
    ps.map_values(|x: Project| x@)
}

/// Decodes each element of a listing in order; any malformed element
/// spoils the whole listing.
pub open spec fn project_seq_of(es: Seq<JsonVal>) -> Option<Seq<ProjectV>>
    decreases es.len(),
{
    if es.len() == 0 {
        Some(Seq::empty())
    } else {
        match (project_of_json(es[0]), project_seq_of(es.drop_first())) {
            (Some(p), Some(rest)) => Some(seq![p] + rest),
            _ => None,
        }
    }
}

/// The projects in a listing document, when every element has the project
/// shape.
pub open spec fn projects_of_json(v: JsonVal) -> Option<Seq<ProjectV>> {
    match v {
        JsonVal::Arr(es) => project_seq_of(es),
        _ => None,
    }
}

/// Decodes a listing document.
pub fn decode_projects(v: &JsonValue) -> (r: Option<Vec<Project>>)
    ensures
        match r {
            Some(ps) => projects_of_json(v@) == Some(project_views(ps@)),
            None => projects_of_json(v@) is None,
        },
{
    let es = match v.as_arr() {
        Some(es) => es,
        None => {
            return None;
        },
    };
    let ghost evs = jv_elems(es@);
    proof {
        lemma_jv_elems(es@);
        assert(evs.skip(0) =~= evs);
        assert(project_views(Seq::<Project>::empty()) =~= Seq::<ProjectV>::empty());
    }
    let n = es.len();
    let mut out: Vec<Project> = Vec::new();
    let mut i: usize = 0;
    while i < n
        invariant
            i <= n,
            n == es@.len(),
            evs == jv_elems(es@),
            evs.len() == n,
            forall|k: int| 0 <= k < n ==> evs[k] == jv(es@[k]),
            v@ == JsonVal::Arr(evs),
            match project_seq_of(evs.skip(i as int)) {
                Some(rest) => project_seq_of(evs) == Some(project_views(out@) + rest),
                None => project_seq_of(evs) is None,
            },
        decreases n - i,
    {
        let ghost rest = evs.skip(i as int);
        assert(rest.len() == n - i);
        assert(rest[0] == evs[i as int]);
        assert(rest.drop_first() =~= evs.skip(i + 1));
        match decode_project(&es[i]) {
            Some(p) => {
                let ghost before = out@;
                out.push(p);
                proof {
                    assert(project_of_json(rest[0]) == Some(p@));
                    assert(project_views(out@) =~= project_views(before).push(p@));
                    match project_seq_of(evs.skip(i + 1)) {
                        Some(r2) => {
                            assert(project_seq_of(rest) == Some(seq![p@] + r2));
                            assert(project_views(before) + (seq![p@] + r2) =~= project_views(out@)
                                + r2);
                        },
                        None => {
                            assert(project_seq_of(rest) is None);
                        },
                    }
                }
            },
            None => {
                proof {
                    assert(project_of_json(rest[0]) is None);
                    assert(project_seq_of(rest) is None);
                }
                return None;
            },
        }
        i = i + 1;
    }
    proof {
        assert(evs.skip(n as int) =~= Seq::<JsonVal>::empty());
        assert(project_views(out@) + Seq::<ProjectV>::empty() =~= project_views(out@));
    }
    Some(out)
}

/// How a tracked peer relates to a project.
#[derive(Debug, PartialEq, Eq)]
pub struct PeerStatus {
    pub role: Vec<u8>,
    pub type_: Vec<u8>,
    pub user: Identity,
}

/// One tracked peer of a project.
#[derive(Debug, PartialEq, Eq)]
pub struct Peer {
    pub peer_id: Vec<u8>,
    pub status: PeerStatus,
    pub type_: Vec<u8>,
}

/// The mathematical shape of a tracked peer.
pub struct PeerV {
    pub peer_id: Seq<u8>,
    pub role: Seq<u8>,
    pub status_type: Seq<u8>,
    pub user: IdentityV,
    pub type_: Seq<u8>,
}

impl View for Peer {
    type V = PeerV;

    open spec fn view(&self) -> PeerV {
        PeerV {
            peer_id: self.peer_id@,
            role: self.status.role@,
            status_type: self.status.type_@,
            user: self.status.user@,
            type_: self.type_@,
        }
    }
}

/// A peer decoded from a proxy document, when the document has the peer
/// shape.
pub open spec fn peer_of_json(v: JsonVal) -> Option<PeerV> {
    match v {
        JsonVal::Obj(ps) => match (
            str_field(ps, "peerId".spec_bytes()),
            str_field(ps, "type".spec_bytes()),
            lookup(ps, "status".spec_bytes()),
        ) {
            (Some(peer_id), Some(type_), Some(JsonVal::Obj(st))) => match (
                str_field(st, "role".spec_bytes()),
                str_field(st, "type".spec_bytes()),
                lookup(st, "user".spec_bytes()),
            ) {
                (Some(role), Some(status_type), Some(uv)) => match identity_of_json(uv) {
                    Some(user) => Some(PeerV { peer_id, role, status_type, user, type_ }),
                    None => None,
                },
                _ => None,
            },
            _ => None,
        },
        _ => None,
    }
}

/// Decodes one peer document.
pub fn decode_peer(v: &JsonValue) -> (r: Option<Peer>)
    ensures
        match r {
            Some(p) => peer_of_json(v@) == Some(p@),
            None => peer_of_json(v@) is None,
        },
{
    let peer_id = match field_str(v, "peerId") {
        Some(x) => x,
        None => {
            return None;
        },
    };
    let type_ = match field_str(v, "type") {
        Some(x) => x,
        None => {
            return None;
        },
    };
    let st = match v.get("status".as_bytes()) {
        Some(f) => f,
        None => {
            return None;
        },
    };
    if !st.is_obj() {
        return None;
    }
    let role = match field_str(st, "role") {
        Some(x) => x,
        None => {
            return None;
        },
    };
    let status_type = match field_str(st, "type") {
        Some(x) => x,
        None => {
            return None;
        },
    };
    let uv = match st.get("user".as_bytes()) {
        Some(f) => f,
        None => {
            return None;
        },
    };
    let user = match decode_identity(uv) {
        Some(id) => id,
        None => {
            return None;
        },
    };
    Some(Peer { peer_id, status: PeerStatus { role, type_: status_type, user }, type_ })
}

/// The abstract peers a vector of them holds.
pub open spec fn peer_views(ps: Seq<Peer>) -> Seq<PeerV> {
    ps.map_values(|x: Peer| x@)
}

/// Decodes each element of a peer listing in order.
pub open spec fn peer_seq_of(es: Seq<JsonVal>) -> Option<Seq<PeerV>>
    decreases es.len(),
{
    if es.len() == 0 {
        Some(Seq::empty())
    } else {
        match (peer_of_json(es[0]), peer_seq_of(es.drop_first())) {
            (Some(p), Some(rest)) => Some(seq![p] + rest),
            _ => None,
        }
    }
}

/// The peers in a listing document, when every element has the peer shape.
pub open spec fn peers_of_json(v: JsonVal) -> Option<Seq<PeerV>> {
    match v {
        JsonVal::Arr(es) => peer_seq_of(es),
        _ => None,
    }
}

/// Decodes a peer listing document.
pub fn decode_peers(v: &JsonValue) -> (r: Option<Vec<Peer>>)
    ensures
        match r {
            Some(ps) => peers_of_json(v@) == Some(peer_views(ps@)),
            None => peers_of_json(v@) is None,
        },
{
    let es = match v.as_arr() {
        Some(es) => es,
        None => {
            return None;
        },
    };
    let ghost evs = jv_elems(es@);
    proof {
        lemma_jv_elems(es@);
        assert(evs.skip(0) =~= evs);
        assert(peer_views(Seq::<Peer>::empty()) =~= Seq::<PeerV>::empty());
    }
    let n = es.len();
    let mut out: Vec<Peer> = Vec::new();
    let mut i: usize = 0;
    while i < n
        invariant
            i <= n,
            n == es@.len(),
            evs == jv_elems(es@),
            evs.len() == n,
            forall|k: int| 0 <= k < n ==> evs[k] == jv(es@[k]),
            v@ == JsonVal::Arr(evs),
            match peer_seq_of(evs.skip(i as int)) {
                Some(rest) => peer_seq_of(evs) == Some(peer_views(out@) + rest),
                None => peer_seq_of(evs) is None,
            },
        decreases n - i,
    {
        let ghost rest = evs.skip(i as int);
        assert(rest.len() == n - i);
        assert(rest[0] == evs[i as int]);
        assert(rest.drop_first() =~= evs.skip(i + 1));
        match decode_peer(&es[i]) {
            Some(p) => {
                let ghost before = out@;
                out.push(p);
                proof {
                    assert(peer_of_json(rest[0]) == Some(p@));
                    assert(peer_views(out@) =~= peer_views(before).push(p@));
                    match peer_seq_of(evs.skip(i + 1)) {
                        Some(r2) => {
                            assert(peer_seq_of(rest) == Some(seq![p@] + r2));
                            assert(peer_views(before) + (seq![p@] + r2) =~= peer_views(out@)
                                + r2);
                        },
                        None => {
                            assert(peer_seq_of(rest) is None);
                        },
                    }
                }
            },
            None => {
                proof {
                    assert(peer_of_json(rest[0]) is None);
                    assert(peer_seq_of(rest) is None);
                }
                return None;
            },
        }
        i = i + 1;
    }
    proof {
        assert(evs.skip(n as int) =~= Seq::<JsonVal>::empty());
        assert(peer_views(out@) + Seq::<PeerV>::empty() =~= peer_views(out@));
    }
    Some(out)
}

/// Whether a peer can serve a requested project.
#[derive(Clone, Copy, Debug, PartialEq, Eq, Structural)]
pub enum RequestStatus {
    Available,
    InProgress,
    Failed,
}

/// Which phase a request timed out in.
#[derive(Clone, Copy, Debug, PartialEq, Eq, Structural)]
pub enum TimedOut {
    Query,
    Clone,
}

/// Where a project request stands.
#[derive(Debug, PartialEq, Eq)]
pub enum RequestState {
    Created,
    Requested(Vec<(Vec<u8>, RequestStatus)>),
    Found(Vec<(Vec<u8>, RequestStatus)>),
    Cloning(Vec<(Vec<u8>, RequestStatus)>),
    Cloned(Vec<u8>),
    Cancelled,
    TimedOut(TimedOut),
}

/// The mathematical shape of a request's state.
#[verifier::ext_equal]
pub enum RequestStateV {
    Created,
    Requested(Seq<(Seq<u8>, RequestStatus)>),
    Found(Seq<(Seq<u8>, RequestStatus)>),
    Cloning(Seq<(Seq<u8>, RequestStatus)>),
    Cloned(Seq<u8>),
    Cancelled,
    TimedOut(TimedOut),
}

/// The abstract peer/status pairs a vector of them holds.
pub open spec fn status_views(ps: Seq<(Vec<u8>, RequestStatus)>) -> Seq<(Seq<u8>, RequestStatus)> {
    ps.map_values(|p: (Vec<u8>, RequestStatus)| (p.0@, p.1))
}

impl View for RequestState {
    type V = RequestStateV;

    open spec fn view(&self) -> RequestStateV {
        match self {
            RequestState::Created => RequestStateV::Created,
            RequestState::Requested(ps) => RequestStateV::Requested(status_views(ps@)),
            RequestState::Found(ps) => RequestStateV::Found(status_views(ps@)),
            RequestState::Cloning(ps) => RequestStateV::Cloning(status_views(ps@)),
            RequestState::Cloned(url) => RequestStateV::Cloned(url@),
            RequestState::Cancelled => RequestStateV::Cancelled,
            RequestState::TimedOut(t) => RequestStateV::TimedOut(*t),
        }
    }
}

/// One pending request for a project not yet replicated. `attempts` is
/// kept as the document the proxy sent, uninterpreted; like every field,
/// it must lie inside the wire codec's language (`json_doc`), so an
/// attempts document holding a signed or fractional number would fail the
/// listing's decoding.
#[derive(Debug, PartialEq, Eq)]
pub struct Request {
    pub urn: Vec<u8>,
    pub attempts: JsonValue,
    pub timestamp: u64,
    pub state: RequestState,
}

/// The mathematical shape of a request.
#[verifier::ext_equal]
pub struct RequestV {
    pub urn: Seq<u8>,
    pub attempts: JsonVal,
    pub timestamp: u64,
    pub state: RequestStateV,
}

impl View for Request {
    type V = RequestV;

    open spec fn view(&self) -> RequestV {
        RequestV {
            urn: self.urn@,
            attempts: jv(self.attempts),
            timestamp: self.timestamp,
            state: self.state@,
        }
    }
}

/// The status a peer-status string denotes.
pub open spec fn status_of(s: Seq<u8>) -> Option<RequestStatus> {
    if s == "available".spec_bytes() {
        Some(RequestStatus::Available)
    } else if s == "inProgress".spec_bytes() {
        Some(RequestStatus::InProgress)
    } else if s == "failed".spec_bytes() {
        Some(RequestStatus::Failed)
    } else {
        None
    }
}

/// The peer/status pairs an object's members denote, when every value is
/// a known status string.
pub open spec fn status_pairs_of(ps: Seq<(Seq<u8>, JsonVal)>) -> Option<
    Seq<(Seq<u8>, RequestStatus)>,
>
    decreases ps.len(),
{
    if ps.len() == 0 {
        Some(Seq::empty())
    } else {
        match ps[0].1 {
            JsonVal::Str(s) => match (status_of(s), status_pairs_of(ps.drop_first())) {
                (Some(st), Some(rest)) => Some(seq![(ps[0].0, st)] + rest),
                _ => None,
            },
            _ => None,
        }
    }
}

/// The status a peer-status string denotes.
fn decode_status(s: &Vec<u8>) -> (r: Option<RequestStatus>)
    ensures
        r == status_of(s@),
{
    if crate::json::bytes_eq(s.as_slice(), "available".as_bytes()) {
        Some(RequestStatus::Available)
    } else if crate::json::bytes_eq(s.as_slice(), "inProgress".as_bytes()) {
        Some(RequestStatus::InProgress)
    } else if crate::json::bytes_eq(s.as_slice(), "failed".as_bytes()) {
        Some(RequestStatus::Failed)
    } else {
        None
    }
}

/// Decodes an object's members as a peer/status map.
fn decode_status_pairs(ps: &Vec<(Vec<u8>, JsonValue)>) -> (r: Option<
    Vec<(Vec<u8>, RequestStatus)>,
>)
    ensures
        match r {
            Some(out) => status_pairs_of(jv_pairs(ps@)) == Some(status_views(out@)),
            None => status_pairs_of(jv_pairs(ps@)) is None,
        },
{
    let ghost pvs = jv_pairs(ps@);
    proof {
        lemma_jv_pairs(ps@);
        assert(pvs.skip(0) =~= pvs);
        assert(status_views(Seq::<(Vec<u8>, RequestStatus)>::empty()) =~= Seq::<
            (Seq<u8>, RequestStatus),
        >::empty());
    }
    let n = ps.len();
    let mut out: Vec<(Vec<u8>, RequestStatus)> = Vec::new();
    let mut i: usize = 0;
    while i < n
        invariant
            i <= n,
            n == ps@.len(),
            pvs == jv_pairs(ps@),
            pvs.len() == n,
            forall|k: int| 0 <= k < n ==> pvs[k] == (ps@[k].0@, jv(ps@[k].1)),
            match status_pairs_of(pvs.skip(i as int)) {
                Some(rest) => status_pairs_of(pvs) == Some(status_views(out@) + rest),
                None => status_pairs_of(pvs) is None,
            },
        decreases n - i,
    {
        let ghost rest = pvs.skip(i as int);
        assert(rest.len() == n - i);
        assert(rest[0] == pvs[i as int]);
        assert(rest.drop_first() =~= pvs.skip(i + 1));
        let sv = match ps[i].1.as_str() {
            Some(s) => s,
            None => {
                proof {
                    assert(status_pairs_of(rest) is None);
                }
                return None;
            },
        };
        match decode_status(sv) {
            Some(st) => {
                let ghost before = out@;
                out.push((copy_bytes(&ps[i].0), st));
                proof {
                    assert(status_views(out@) =~= status_views(before).push(
                        (ps@[i as int].0@, st),
                    ));
                    match status_pairs_of(pvs.skip(i + 1)) {
                        Some(r2) => {
                            assert(status_pairs_of(rest) == Some(
                                seq![(ps@[i as int].0@, st)] + r2,
                            ));
                            assert(status_views(before) + (seq![(ps@[i as int].0@, st)] + r2)
                                =~= status_views(out@) + r2);
                        },
                        None => {
                            assert(status_pairs_of(rest) is None);
                        },
                    }
                }
            },
            None => {
                proof {
                    assert(status_pairs_of(rest) is None);
                }
                return None;
            },
        }
        i = i + 1;
    }
    proof {
        assert(pvs.skip(n as int) =~= Seq::<(Seq<u8>, JsonVal)>::empty());
        assert(status_views(out@) + Seq::<(Seq<u8>, RequestStatus)>::empty() =~= status_views(
            out@,
        ));
    }
    Some(out)
}

/// The state a request's tag and `state` document denote.
pub open spec fn state_of_json(tag: Seq<u8>, state: Option<JsonVal>) -> Option<RequestStateV> {
    if tag == "created".spec_bytes() {
        Some(RequestStateV::Created)
    } else if tag == "cancelled".spec_bytes() {
        Some(RequestStateV::Cancelled)
    } else if tag == "requested".spec_bytes() {
        match peers_member(state) {
            Some(m) => Some(RequestStateV::Requested(m)),
            None => None,
        }
    } else if tag == "found".spec_bytes() {
        match peers_member(state) {
            Some(m) => Some(RequestStateV::Found(m)),
            None => None,
        }
    } else if tag == "cloning".spec_bytes() {
        match peers_member(state) {
            Some(m) => Some(RequestStateV::Cloning(m)),
            None => None,
        }
    } else if tag == "cloned".spec_bytes() {
        match state {
            Some(JsonVal::Obj(sp)) => match str_field(sp, "url".spec_bytes()) {
                Some(url) => Some(RequestStateV::Cloned(url)),
                None => None,
            },
            _ => None,
        }
    } else if tag == "timedOut".spec_bytes() {
        match state {
            Some(JsonVal::Str(s)) => if s == "query".spec_bytes() {
                Some(RequestStateV::TimedOut(TimedOut::Query))
            } else if s == "clone".spec_bytes() {
                Some(RequestStateV::TimedOut(TimedOut::Clone))
            } else {
                None
            },
            _ => None,
        }
    } else {
        None
    }
}

/// The peer/status map under `peers` in a request's state document.
pub open spec fn peers_member(state: Option<JsonVal>) -> Option<Seq<(Seq<u8>, RequestStatus)>> {
    match state {
        Some(JsonVal::Obj(sp)) => match lookup(sp, "peers".spec_bytes()) {
            Some(JsonVal::Obj(pm)) => status_pairs_of(pm),
            _ => None,
        },
        _ => None,
    }
}

/// Decodes the peer/status map of a request state document.
fn decode_peers_member(state: Option<&JsonValue>) -> (r: Option<Vec<(Vec<u8>, RequestStatus)>>)
    ensures
        match r {
            Some(out) => peers_member(match state {
                Some(v) => Some(v@),
                None => None,
            }) == Some(status_views(out@)),
            None => peers_member(match state {
                Some(v) => Some(v@),
                None => None,
            }) is None,
        },
{
    let sv = match state {
        Some(v) => v,
        None => {
            return None;
        },
    };
    let pm = match sv.get("peers".as_bytes()) {
        Some(f) => match f.as_obj() {
            Some(ps) => ps,
            None => {
                return None;
            },
        },
        None => {
            return None;
        },
    };
    decode_status_pairs(pm)
}

/// A request decoded from a proxy document, when the document has the
/// request shape.
pub open spec fn request_of_json(v: JsonVal) -> Option<RequestV> {
    match v {
        JsonVal::Obj(ps) => match (
            str_field(ps, "urn".spec_bytes()),
            u64_field(ps, "timestamp".spec_bytes()),
            lookup(ps, "attempts".spec_bytes()),
            str_field(ps, "type".spec_bytes()),
        ) {
            (Some(urn), Some(timestamp), Some(attempts), Some(tag)) => match state_of_json(
                tag,
                lookup(ps, "state".spec_bytes()),
            ) {
                Some(state) => Some(RequestV { urn, attempts, timestamp, state }),
                None => None,
            },
            _ => None,
        },
        _ => None,
    }
}

/// Decodes one request document.
pub fn decode_request(v: &JsonValue) -> (r: Option<Request>)
    ensures
        match r {
            Some(rq) => request_of_json(v@) == Some(rq@),
            None => request_of_json(v@) is None,
        },
{
    let urn = match field_str(v, "urn") {
        Some(x) => x,
        None => {
            return None;
        },
    };
    let timestamp = match field_u64(v, "timestamp") {
        Some(x) => x,
        None => {
            return None;
        },
    };
    let attempts = match v.get("attempts".as_bytes()) {
        Some(f) => clone_value(f),
        None => {
            return None;
        },
    };
    let tag = match field_str(v, "type") {
        Some(x) => x,
        None => {
            return None;
        },
    };
    let state_f = v.get("state".as_bytes());
    let ghost state_doc = (match state_f {
        Some(f) => Some(f@),
        None => None::<JsonVal>,
    });
    let state: RequestState = if crate::json::bytes_eq(tag.as_slice(), "created".as_bytes()) {
        RequestState::Created
    } else if crate::json::bytes_eq(tag.as_slice(), "cancelled".as_bytes()) {
        RequestState::Cancelled
    } else if crate::json::bytes_eq(tag.as_slice(), "requested".as_bytes()) {
        match decode_peers_member(state_f) {
            Some(m) => RequestState::Requested(m),
            None => {
                return None;
            },
        }
    } else if crate::json::bytes_eq(tag.as_slice(), "found".as_bytes()) {
        match decode_peers_member(state_f) {
            Some(m) => RequestState::Found(m),
            None => {
                return None;
            },
        }
    } else if crate::json::bytes_eq(tag.as_slice(), "cloning".as_bytes()) {
        match decode_peers_member(state_f) {
            Some(m) => RequestState::Cloning(m),
            None => {
                return None;
            },
        }
    } else if crate::json::bytes_eq(tag.as_slice(), "cloned".as_bytes()) {
        match state_f {
            Some(f) => {
                if !f.is_obj() {
                    return None;
                }
                match field_str(f, "url") {
                    Some(url) => RequestState::Cloned(url),
                    None => {
                        return None;
                    },
                }
            },
            None => {
                return None;
            },
        }
    } else if crate::json::bytes_eq(tag.as_slice(), "timedOut".as_bytes()) {
        match state_f {
            Some(f) => match f.as_str() {
                Some(s) => {
                    if crate::json::bytes_eq(s.as_slice(), "query".as_bytes()) {
                        RequestState::TimedOut(TimedOut::Query)
                    } else if crate::json::bytes_eq(s.as_slice(), "clone".as_bytes()) {
                        RequestState::TimedOut(TimedOut::Clone)
                    } else {
                        return None;
                    }
                },
                None => {
                    return None;
                },
            },
            None => {
                return None;
            },
        }
    } else {
        return None;
    };
    Some(Request { urn, attempts, timestamp, state })
}

/// The abstract requests a vector of them holds.
pub open spec fn request_views(rs: Seq<Request>) -> Seq<RequestV> {
    rs.map_values(|x: Request| x@)
}

/// Decodes each element of a request listing in order.
pub open spec fn request_seq_of(es: Seq<JsonVal>) -> Option<Seq<RequestV>>
    decreases es.len(),
{
    if es.len() == 0 {
        Some(Seq::empty())
    } else {
        match (request_of_json(es[0]), request_seq_of(es.drop_first())) {
            (Some(rq), Some(rest)) => Some(seq![rq] + rest),
            _ => None,
        }
    }
}

/// The requests in a listing document, when every element has the request
/// shape.
pub open spec fn requests_of_json(v: JsonVal) -> Option<Seq<RequestV>> {
    match v {
        JsonVal::Arr(es) => request_seq_of(es),
        _ => None,
    }
}

/// Decodes a request listing document.
pub fn decode_requests(v: &JsonValue) -> (r: Option<Vec<Request>>)
    ensures
        match r {
            Some(rs) => requests_of_json(v@) == Some(request_views(rs@)),
            None => requests_of_json(v@) is None,
        },
{
    let es = match v.as_arr() {
        Some(es) => es,
        None => {
            return None;
        },
    };
    let ghost evs = jv_elems(es@);
    proof {
        lemma_jv_elems(es@);
        assert(evs.skip(0) =~= evs);
        assert(request_views(Seq::<Request>::empty()) =~= Seq::<RequestV>::empty());
    }
    let n = es.len();
    let mut out: Vec<Request> = Vec::new();
    let mut i: usize = 0;
    while i < n
        invariant
            i <= n,
            n == es@.len(),
            evs == jv_elems(es@),
            evs.len() == n,
            forall|k: int| 0 <= k < n ==> evs[k] == jv(es@[k]),
            v@ == JsonVal::Arr(evs),
            match request_seq_of(evs.skip(i as int)) {
                Some(rest) => request_seq_of(evs) == Some(request_views(out@) + rest),
                None => request_seq_of(evs) is None,
            },
        decreases n - i,
    {
        let ghost rest = evs.skip(i as int);
        assert(rest.len() == n - i);
        assert(rest[0] == evs[i as int]);
        assert(rest.drop_first() =~= evs.skip(i + 1));
        match decode_request(&es[i]) {
            Some(rq) => {
                let ghost before = out@;
                let ghost rqv = rq@;
                out.push(rq);
                proof {
                    assert(request_of_json(rest[0]) == Some(rqv));
                    assert(request_views(out@) =~= request_views(before).push(rqv));
                    match request_seq_of(evs.skip(i + 1)) {
                        Some(r2) => {
                            assert(request_seq_of(rest) == Some(seq![rqv] + r2));
                            assert(request_views(before) + (seq![rqv] + r2) =~= request_views(
                                out@,
                            ) + r2);
                        },
                        None => {
                            assert(request_seq_of(rest) is None);
                        },
                    }
                }
            },
            None => {
                proof {
                    assert(request_of_json(rest[0]) is None);
                    assert(request_seq_of(rest) is None);
                }
                return None;
            },
        }
        i = i + 1;
    }
    proof {
        assert(evs.skip(n as int) =~= Seq::<JsonVal>::empty());
        assert(request_views(out@) + Seq::<RequestV>::empty() =~= request_views(out@));
    }
    Some(out)
}

/// What a project-listing request hands back, for every answer the agent
/// can give: a well-received body yields exactly the projects it holds,
/// or a `Serialization` error when it has another shape; any failure is
/// handed back unchanged.
pub fn listing_of(r: Result<JsonValue, ApiError>) -> (out: Result<Vec<Project>, ApiError>)
    ensures
        match r {
            Ok(doc) => match projects_of_json(doc@) {
                Some(ps) => out matches Ok(v) && project_views(v@) == ps,
                None => out matches Err(e) && e is Serialization,
            },
            Err(e) => out matches Err(e2) && e2 == e,
        },
{
    match r {
        Ok(doc) => match decode_projects(&doc) {
            Some(ps) => Ok(ps),
            None => Err(ApiError::Serialization),
        },
        Err(e) => Err(e),
    }
}

/// What a request-listing request hands back, for every answer the agent
/// can give, in the same way.
pub fn request_listing_of(r: Result<JsonValue, ApiError>) -> (out: Result<Vec<Request>, ApiError>)
    ensures
        match r {
            Ok(doc) => match requests_of_json(doc@) {
                Some(rs) => out matches Ok(v) && request_views(v@) == rs,
                None => out matches Err(e) && e is Serialization,
            },
            Err(e) => out matches Err(e2) && e2 == e,
        },
{
    match r {
        Ok(doc) => match decode_requests(&doc) {
            Some(rs) => Ok(rs),
            None => Err(ApiError::Serialization),
        },
        Err(e) => Err(e),
    }
}

/// What a single-project request hands back, for every answer the agent
/// can give: a missing project stays `None`, a well-received body yields
/// exactly the project it holds or a `Serialization` error, and any
/// failure is handed back unchanged.
pub fn lookup_of(r: Result<Option<JsonValue>, ApiError>) -> (out: Result<Option<Project>, ApiError>)
    ensures
        match r {
            Ok(o) => match o {
                Some(doc) => match project_of_json(doc@) {
                    Some(p) => out matches Ok(op) && op matches Some(pr) && pr@ == p,
                    None => out matches Err(e) && e is Serialization,
                },
                None => out matches Ok(op) && op is None,
            },
            Err(e) => out matches Err(e2) && e2 == e,
        },
{
    match r {
        Ok(Some(doc)) => match decode_project(&doc) {
            Some(p) => Ok(Some(p)),
            None => Err(ApiError::Serialization),
        },
        Ok(None) => Ok(None),
        Err(e) => Err(e),
    }
}

/// What a peer-listing request hands back, for every answer the agent can
/// give, in the same way.
pub fn peer_listing_of(r: Result<JsonValue, ApiError>) -> (out: Result<Vec<Peer>, ApiError>)
    ensures
        match r {
            Ok(doc) => match peers_of_json(doc@) {
                Some(ps) => out matches Ok(v) && peer_views(v@) == ps,
                None => out matches Err(e) && e is Serialization,
            },
            Err(e) => out matches Err(e2) && e2 == e,
        },
{
    match r {
        Ok(doc) => match decode_peers(&doc) {
            Some(ps) => Ok(ps),
            None => Err(ApiError::Serialization),
        },
        Err(e) => Err(e),
    }
}

/// The projects this node tracks: one GET whose every outcome is pinned
/// by `listing_of` over `Client::get`.
pub fn tracked_projects(client: &Client) -> (r: Result<Vec<Project>, ApiError>)
    ensures
        r matches Err(e) ==> !(e is UrlConstruction),
{
    listing_of(client.get(&["v1", "projects", "tracked"]))
}

/// The projects this node contributed to: one GET whose every outcome is
/// pinned by `listing_of` over `Client::get`.
pub fn contributed(client: &Client) -> (r: Result<Vec<Project>, ApiError>)
    ensures
        r matches Err(e) ==> !(e is UrlConstruction),
{
    listing_of(client.get(&["v1", "projects", "contributed"]))
}

/// The pending project requests: one GET whose every outcome is pinned by
/// `request_listing_of` over `Client::get`.
pub fn requested(client: &Client) -> (r: Result<Vec<Request>, ApiError>)
    ensures
        r matches Err(e) ==> !(e is UrlConstruction),
{
    request_listing_of(client.get(&["v1", "projects", "requests"]))
}

/// The project under this URN, or `None` when the proxy does not know it
/// (a 404 answer): one GET whose every outcome is pinned by `lookup_of`
/// over `Client::get_opt`.
pub fn get(client: &Client, urn: &str) -> (r: Result<Option<Project>, ApiError>)
    ensures
        r matches Err(e) ==> !(e is UrlConstruction),
{
    lookup_of(client.get_opt(&["v1", "projects", urn]))
}

/// The tracked peers of the project under this URN: one GET whose every
/// outcome is pinned by `peer_listing_of` over `Client::get`.
pub fn peers(client: &Client, urn: &str) -> (r: Result<Vec<Peer>, ApiError>)
    ensures
        r matches Err(e) ==> !(e is UrlConstruction),
{
    peer_listing_of(client.get(&["v1", "projects", urn, "peers"]))
}

} // verus!
