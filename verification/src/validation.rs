//! Structural validation of the models, the trace and the test records.
use vstd::prelude::*;
use crate::markers::{
    ElementV, HostKind, MarkerV, SecMarker, UiElementContract, active_stereotype, element_of, extract_sec_markers,
    extract_ui_elements, extract_ui_route, has_param, has_param_exec, host_kind_spec, is_active_stereotype, sec_of,
    ui_route_spec,
};
use crate::model::{
    ApprovalStatus, GapTest, ModelRegistry, MddConfig, SourceLink, TestEvidence, TestPhaseResult, Trace, ValidationReport, GeneratedTest, GeneratedUiTest, ModelElement, ModelFile, ModelKind, ModelSide, ParityMode, TestLayer, TestLayerConfig, TestLink,
    TraceLink, layer_name, links_view, opt_view,
};
use crate::order::{insert_sorted, sorted_contains, strictly_sorted};
use crate::patterns::{Pat, captures};
use crate::strings::{KeyMap, keys_sorted, pairs_insert};
use crate::strings::{ParamMap, pairs_get, parse_u32_spec};
use crate::text::starts_with;
use crate::text::{cat, cat3, chars_of, owned, push_str, str_eq, strs};

verus! {

/// The stereotypes a marker may use, as listed in messages.
pub const ACTIVE_STEREOTYPES_TEXT: &'static str = "ByPassing, Encrypt, BufferOverflow, SqlInjection, Flooding, Expiration";

pub const ENCRYPT_SCOPES_TEXT: &'static str = "at_rest, in_transit, both";

pub const SQLI_SANITIZERS_TEXT: &'static str = "parameterized, prepared-statement, orm, escape, stored-procedure";

pub open spec fn encrypt_scope(s: Seq<char>) -> bool {
    s == "at_rest"@ || s == "in_transit"@ || s == "both"@
}

pub open spec fn sqli_sanitizer(s: Seq<char>) -> bool {
    s == "parameterized"@ || s == "prepared-statement"@ || s == "orm"@ || s == "escape"@ || s
        == "stored-procedure"@
}

/// `@sec(stereotype=<st>, host=<h>, ...) <rest> in <path>`.
pub open spec fn sec_msg(st: Seq<char>, host: Seq<char>, rest: Seq<char>, path: Seq<char>) -> Seq<char> {
    "@sec(stereotype="@ + st + ", host="@ + host + ", ...) "@ + rest + " in "@ + path
}

/// The value of a parameter is a positive `u32`.
pub open spec fn positive_u32(v: Seq<char>) -> bool {
    match parse_u32_spec(v) {
        Some(n) => n > 0,
        None => false,
    }
}

/// Errors of a missing parameter.
pub open spec fn require(
    ok: bool,
    st: Seq<char>,
    host: Seq<char>,
    rest: Seq<char>,
    path: Seq<char>,
) -> Seq<Seq<char>> {
    if ok {
        seq![]
    } else {
        seq![sec_msg(st, host, rest, path)]
    }
}

pub open spec fn bypass_errors(st: Seq<char>, host: Seq<char>, params: Seq<(Seq<char>, Seq<char>)>, kind: HostKind, path: Seq<char>) -> Seq<Seq<char>> {
    match kind {
        HostKind::Actor => require(has_param(params, "role"@), st, host, "on actor host requires `role=`"@, path),
        HostKind::UseCase => require(
            has_param(params, "allowed"@) || has_param(params, "denied"@),
            st,
            host,
            "on use-case host requires `allowed=` or `denied=`"@,
            path,
        ),
        _ => require(
            has_param(params, "role"@) || has_param(params, "allowed"@) || has_param(params, "denied"@),
            st,
            host,
            "requires `role=`, `allowed=`, or `denied=`"@,
            path,
        ),
    }
}

pub open spec fn encrypt_errors(st: Seq<char>, host: Seq<char>, params: Seq<(Seq<char>, Seq<char>)>, kind: HostKind, path: Seq<char>) -> Seq<Seq<char>> {
    require(
        kind == HostKind::Class || kind == HostKind::SequenceParticipant,
        st,
        host,
        "requires host to be a class or sequence participant"@,
        path,
    ) + require(has_param(params, "algorithm"@), st, host, "is missing required `algorithm=` key"@, path)
        + match pairs_get(params, "scope"@) {
        None => seq![sec_msg(st, host, "is missing required `scope=` key"@, path)],
        Some(v) => if encrypt_scope(v) {
            seq![]
        } else {
            seq![
                sec_msg(st, host, "has invalid `scope="@ + v + "`"@, path) + "; must be one of "@
                    + ENCRYPT_SCOPES_TEXT@,
            ]
        },
    }
}

pub open spec fn overflow_errors(st: Seq<char>, host: Seq<char>, params: Seq<(Seq<char>, Seq<char>)>, kind: HostKind, path: Seq<char>) -> Seq<Seq<char>> {
    require(kind == HostKind::Class, st, host, "requires host to be a class"@, path) + require(
        has_param(params, "field"@),
        st,
        host,
        "is missing required `field=` key"@,
        path,
    ) + match pairs_get(params, "max_length"@) {
        None => seq![sec_msg(st, host, "is missing required `max_length=` key"@, path)],
        Some(v) => if positive_u32(v) {
            seq![]
        } else {
            seq![
                sec_msg(st, host, "has invalid `max_length="@ + v + "`"@, path)
                    + "; must be a positive integer"@,
            ]
        },
    }
}

pub open spec fn sqli_errors(st: Seq<char>, host: Seq<char>, params: Seq<(Seq<char>, Seq<char>)>, kind: HostKind, path: Seq<char>) -> Seq<Seq<char>> {
    require(kind == HostKind::Class, st, host, "requires host to be a class"@, path) + require(
        has_param(params, "field"@),
        st,
        host,
        "is missing required `field=` key"@,
        path,
    ) + require(has_param(params, "sink"@), st, host, "is missing required `sink=` key"@, path)
        + match pairs_get(params, "sanitizer"@) {
        None => seq![sec_msg(st, host, "is missing required `sanitizer=` key"@, path)],
        Some(v) => if sqli_sanitizer(v) {
            seq![]
        } else {
            seq![
                sec_msg(st, host, "has invalid `sanitizer="@ + v + "`"@, path) + "; must be one of "@
                    + SQLI_SANITIZERS_TEXT@,
            ]
        },
    }
}

pub open spec fn flooding_errors(st: Seq<char>, host: Seq<char>, params: Seq<(Seq<char>, Seq<char>)>, kind: HostKind, path: Seq<char>) -> Seq<Seq<char>> {
    require(
        kind == HostKind::UseCase || kind == HostKind::Component,
        st,
        host,
        "requires host to be a use case or component"@,
        path,
    ) + require(
        has_param(params, "max_rate"@) || has_param(params, "max_concurrent"@),
        st,
        host,
        "requires at least one of `max_rate=` or `max_concurrent=`"@,
        path,
    ) + flooding_value_error(st, host, params, "max_rate"@, path) + flooding_value_error(
        st,
        host,
        params,
        "max_concurrent"@,
        path,
    )
}

pub open spec fn expiration_errors(st: Seq<char>, host: Seq<char>, params: Seq<(Seq<char>, Seq<char>)>, kind: HostKind, path: Seq<char>) -> Seq<Seq<char>> {
    require(kind == HostKind::Class, st, host, "requires host to be a class"@, path) + require(
        has_param(params, "field"@),
        st,
        host,
        "is missing required `field=` key"@,
        path,
    ) + require(has_param(params, "ttl"@), st, host, "is missing required `ttl=` key"@, path)
}

/// The checks of a well-formed marker's tagged values against its
/// stereotype and its host's kind.
pub open spec fn stereotype_errors(
    st: Seq<char>,
    host: Seq<char>,
    params: Seq<(Seq<char>, Seq<char>)>,
    kind: HostKind,
    path: Seq<char>,
) -> Seq<Seq<char>> {
    if st == "ByPassing"@ {
        bypass_errors(st, host, params, kind, path)
    } else if st == "Encrypt"@ {
        encrypt_errors(st, host, params, kind, path)
    } else if st == "BufferOverflow"@ {
        overflow_errors(st, host, params, kind, path)
    } else if st == "SqlInjection"@ {
        sqli_errors(st, host, params, kind, path)
    } else if st == "Flooding"@ {
        flooding_errors(st, host, params, kind, path)
    } else if st == "Expiration"@ {
        expiration_errors(st, host, params, kind, path)
    } else {
        seq![]
    }
}

/// A present rate limit must be a positive integer.
pub open spec fn flooding_value_error(
    st: Seq<char>,
    host: Seq<char>,
    params: Seq<(Seq<char>, Seq<char>)>,
    key: Seq<char>,
    path: Seq<char>,
) -> Seq<Seq<char>> {
    match pairs_get(params, key) {
        Some(v) => if positive_u32(v) {
            seq![]
        } else {
            seq![
                sec_msg(st, host, "has invalid `"@ + key + "="@ + v + "`"@, path)
                    + "; must be a positive integer"@,
            ]
        },
        None => seq![],
    }
}

fn push_msg(errors: &mut Vec<String>, m: String)
    ensures
        strs(final(errors)@) == strs(old(errors)@).push(m@),
{
    let ghost e0 = strs(errors@);
    errors.push(m);
    assert(strs(errors@) =~= e0.push(m@));
}

fn sec_msg_exec(st: &str, host: &str, rest: &str, path: &str) -> (r: String)
    ensures
        r@ == sec_msg(st@, host@, rest@, path@),
{
    let mut r = owned("@sec(stereotype=");
    push_str(&mut r, st);
    push_str(&mut r, ", host=");
    push_str(&mut r, host);
    push_str(&mut r, ", ...) ");
    push_str(&mut r, rest);
    push_str(&mut r, " in ");
    push_str(&mut r, path);
    r
}

fn require_exec(errors: &mut Vec<String>, ok: bool, st: &str, host: &str, rest: &str, path: &str)
    ensures
        strs(final(errors)@) == strs(old(errors)@) + require(ok, st@, host@, rest@, path@),
{
    if !ok {
        push_msg(errors, sec_msg_exec(st, host, rest, path));
    } else {
        assert(strs(errors@) + Seq::<Seq<char>>::empty() =~= strs(errors@));
    }
}

fn is_positive_u32(v: &str) -> (b: bool)
    ensures
        b == positive_u32(v@),
{
    match crate::strings::parse_u32(v) {
        Some(n) => n > 0,
        None => false,
    }
}

fn flooding_value_exec(errors: &mut Vec<String>, st: &str, host: &str, params: &ParamMap, key: &str, path: &str)
    ensures
        strs(final(errors)@) == strs(old(errors)@) + flooding_value_error(st@, host@, params@, key@, path@),
{
    match params.get(key) {
        Some(v) => {
            if !is_positive_u32(v.as_str()) {
                let mut rest = cat3("has invalid `", key, "=");
                push_str(&mut rest, v.as_str());
                push_str(&mut rest, "`");
                let mut m = sec_msg_exec(st, host, rest.as_str(), path);
                push_str(&mut m, "; must be a positive integer");
                push_msg(errors, m);
            } else {
                assert(strs(errors@) + Seq::<Seq<char>>::empty() =~= strs(errors@));
            }
        },
        None => {
            assert(strs(errors@) + Seq::<Seq<char>>::empty() =~= strs(errors@));
        },
    }
}

fn check_bypass(errors: &mut Vec<String>, st: &str, host: &str, params: &ParamMap, kind: HostKind, path: &str)
    ensures
        strs(final(errors)@) == strs(old(errors)@) + bypass_errors(st@, host@, params@, kind, path@),
{
    match kind {
        HostKind::Actor => {
            let ok = has_param_exec(params, "role");
            require_exec(errors, ok, st, host, "on actor host requires `role=`", path)
        },
        HostKind::UseCase => {
            let ok = has_param_exec(params, "allowed") || has_param_exec(params, "denied");
            require_exec(errors, ok, st, host, "on use-case host requires `allowed=` or `denied=`", path)
        },
        _ => {
            let ok = has_param_exec(params, "role") || has_param_exec(params, "allowed") || has_param_exec(params, "denied");
            require_exec(errors, ok, st, host, "requires `role=`, `allowed=`, or `denied=`", path)
        },
    }
}

fn check_encrypt(errors: &mut Vec<String>, st: &str, host: &str, params: &ParamMap, kind: HostKind, path: &str)
    ensures
        strs(final(errors)@) == strs(old(errors)@) + encrypt_errors(st@, host@, params@, kind, path@),
{
    let ghost e0 = strs(errors@);
    let k_ok = kind == HostKind::Class || kind == HostKind::SequenceParticipant;
    require_exec(errors, k_ok, st, host, "requires host to be a class or sequence participant", path);
    let ok = has_param_exec(params, "algorithm");
    require_exec(errors, ok, st, host, "is missing required `algorithm=` key", path);
    let ghost e2 = strs(errors@);
    match params.get("scope") {
        None => push_msg(errors, sec_msg_exec(st, host, "is missing required `scope=` key", path)),
        Some(v) => {
            let vs = v.as_str();
            if !(str_eq(vs, "at_rest") || str_eq(vs, "in_transit") || str_eq(vs, "both")) {
                let rest = cat3("has invalid `scope=", vs, "`");
                let mut m = sec_msg_exec(st, host, rest.as_str(), path);
                push_str(&mut m, "; must be one of ");
                push_str(&mut m, ENCRYPT_SCOPES_TEXT);
                push_msg(errors, m);
            } else {
                assert(e2 + Seq::<Seq<char>>::empty() =~= e2);
            }
        },
    }
    assert(strs(errors@) =~= e0 + encrypt_errors(st@, host@, params@, kind, path@));
}

fn check_overflow(errors: &mut Vec<String>, st: &str, host: &str, params: &ParamMap, kind: HostKind, path: &str)
    ensures
        strs(final(errors)@) == strs(old(errors)@) + overflow_errors(st@, host@, params@, kind, path@),
{
    let ghost e0 = strs(errors@);
    require_exec(errors, kind == HostKind::Class, st, host, "requires host to be a class", path);
    let ok = has_param_exec(params, "field");
    require_exec(errors, ok, st, host, "is missing required `field=` key", path);
    let ghost e2 = strs(errors@);
    match params.get("max_length") {
        None => push_msg(errors, sec_msg_exec(st, host, "is missing required `max_length=` key", path)),
        Some(v) => {
            if !is_positive_u32(v.as_str()) {
                let rest = cat3("has invalid `max_length=", v.as_str(), "`");
                let mut m = sec_msg_exec(st, host, rest.as_str(), path);
                push_str(&mut m, "; must be a positive integer");
                push_msg(errors, m);
            } else {
                assert(e2 + Seq::<Seq<char>>::empty() =~= e2);
            }
        },
    }
    assert(strs(errors@) =~= e0 + overflow_errors(st@, host@, params@, kind, path@));
}

fn check_sqli(errors: &mut Vec<String>, st: &str, host: &str, params: &ParamMap, kind: HostKind, path: &str)
    ensures
        strs(final(errors)@) == strs(old(errors)@) + sqli_errors(st@, host@, params@, kind, path@),
{
    let ghost e0 = strs(errors@);
    require_exec(errors, kind == HostKind::Class, st, host, "requires host to be a class", path);
    let ok = has_param_exec(params, "field");
    require_exec(errors, ok, st, host, "is missing required `field=` key", path);
    let ok = has_param_exec(params, "sink");
    require_exec(errors, ok, st, host, "is missing required `sink=` key", path);
    let ghost e2 = strs(errors@);
    match params.get("sanitizer") {
        None => push_msg(errors, sec_msg_exec(st, host, "is missing required `sanitizer=` key", path)),
        Some(v) => {
            let vs = v.as_str();
            if !(str_eq(vs, "parameterized") || str_eq(vs, "prepared-statement") || str_eq(vs, "orm")
                || str_eq(vs, "escape") || str_eq(vs, "stored-procedure")) {
                let rest = cat3("has invalid `sanitizer=", vs, "`");
                let mut m = sec_msg_exec(st, host, rest.as_str(), path);
                push_str(&mut m, "; must be one of ");
                push_str(&mut m, SQLI_SANITIZERS_TEXT);
                push_msg(errors, m);
            } else {
                assert(e2 + Seq::<Seq<char>>::empty() =~= e2);
            }
        },
    }
    assert(strs(errors@) =~= e0 + sqli_errors(st@, host@, params@, kind, path@));
}

fn check_flooding(errors: &mut Vec<String>, st: &str, host: &str, params: &ParamMap, kind: HostKind, path: &str)
    ensures
        strs(final(errors)@) == strs(old(errors)@) + flooding_errors(st@, host@, params@, kind, path@),
{
    let ghost e0 = strs(errors@);
    let k_ok = kind == HostKind::UseCase || kind == HostKind::Component;
    require_exec(errors, k_ok, st, host, "requires host to be a use case or component", path);
    let ok = has_param_exec(params, "max_rate") || has_param_exec(params, "max_concurrent");
    require_exec(errors, ok, st, host, "requires at least one of `max_rate=` or `max_concurrent=`", path);
    flooding_value_exec(errors, st, host, params, "max_rate", path);
    flooding_value_exec(errors, st, host, params, "max_concurrent", path);
    assert(strs(errors@) =~= e0 + flooding_errors(st@, host@, params@, kind, path@));
}

fn check_expiration(errors: &mut Vec<String>, st: &str, host: &str, params: &ParamMap, kind: HostKind, path: &str)
    ensures
        strs(final(errors)@) == strs(old(errors)@) + expiration_errors(st@, host@, params@, kind, path@),
{
    let ghost e0 = strs(errors@);
    require_exec(errors, kind == HostKind::Class, st, host, "requires host to be a class", path);
    let ok = has_param_exec(params, "field");
    require_exec(errors, ok, st, host, "is missing required `field=` key", path);
    let ok = has_param_exec(params, "ttl");
    require_exec(errors, ok, st, host, "is missing required `ttl=` key", path);
    assert(strs(errors@) =~= e0 + expiration_errors(st@, host@, params@, kind, path@));
}

/// The stereotype-specific errors of a marker, appended to `errors`.
pub fn check_stereotype(
    errors: &mut Vec<String>,
    st: &str,
    host: &str,
    params: &ParamMap,
    kind: HostKind,
    path: &str,
)
    ensures
        strs(final(errors)@) == strs(old(errors)@) + stereotype_errors(st@, host@, params@, kind, path@),
{
    if str_eq(st, "ByPassing") {
        check_bypass(errors, st, host, params, kind, path);
    } else if str_eq(st, "Encrypt") {
        check_encrypt(errors, st, host, params, kind, path);
    } else if str_eq(st, "BufferOverflow") {
        check_overflow(errors, st, host, params, kind, path);
    } else if str_eq(st, "SqlInjection") {
        check_sqli(errors, st, host, params, kind, path);
    } else if str_eq(st, "Flooding") {
        check_flooding(errors, st, host, params, kind, path);
    } else if str_eq(st, "Expiration") {
        check_expiration(errors, st, host, params, kind, path);
    } else {
        assert(strs(errors@) + Seq::<Seq<char>>::empty() =~= strs(errors@));
    }
}

// ---------------------------------------------------------------------------
// Id sets of the registry

/// The element matches the optional kind and side.
pub open spec fn element_in(e: ModelElement, kind: Option<ModelKind>, side: Option<ModelSide>) -> bool {
    (match kind {
        Some(k) => e.kind == k,
        None => true,
    }) && (match side {
        Some(sd) => e.side == sd,
        None => true,
    })
}

/// The ids of the registry elements of the given kind and side.
pub open spec fn ids_where(ids: Seq<ModelElement>, kind: Option<ModelKind>, side: Option<ModelSide>) -> Set<Seq<char>> {
    Set::new(|x: Seq<char>| exists|i: int| 0 <= i < ids.len() && element_in(ids[i], kind, side) && #[trigger] ids[i].id@ == x)
}

/// The distinct ids of the registry elements of the given kind and side,
/// sorted.
pub fn collect_ids(ids: &Vec<ModelElement>, kind: Option<ModelKind>, side: Option<ModelSide>) -> (r: Vec<String>)
    ensures
        strictly_sorted(strs(r@)),
        strs(r@).to_set() == ids_where(ids@, kind, side),
{
    let mut r: Vec<String> = Vec::new();
    let mut i: usize = 0;
    assert(strs(r@).to_set() =~= ids_where(ids@.take(0), kind, side));
    while i < ids.len()
        invariant
            i <= ids.len(),
            strictly_sorted(strs(r@)),
            strs(r@).to_set() == ids_where(ids@.take(i as int), kind, side),
        decreases ids.len() - i,
    {
        let e = &ids[i];
        let m = match kind {
            Some(k) => e.kind == k,
            None => true,
        } && match side {
            Some(sd) => e.side == sd,
            None => true,
        };
        let ghost before = ids_where(ids@.take(i as int), kind, side);
        let ghost after = ids_where(ids@.take(i + 1), kind, side);
        proof {
            assert forall|x: Seq<char>| before.contains(x) implies after.contains(x) by {
                let w = choose|w: int| 0 <= w < i && element_in(ids@.take(i as int)[w], kind, side) && #[trigger] ids@.take(i as int)[w].id@ == x;
                assert(ids@.take(i + 1)[w] == ids@.take(i as int)[w]);
            }
        }
        if m {
            insert_sorted(&mut r, e.id.clone());
            proof {
                assert(ids@.take(i + 1)[i as int] == e);
                assert forall|x: Seq<char>| after.contains(x) implies before.insert(e.id@).contains(x) by {
                    let w = choose|w: int| 0 <= w < i + 1 && element_in(ids@.take(i + 1)[w], kind, side) && #[trigger] ids@.take(i + 1)[w].id@ == x;
                    if w < i {
                        assert(ids@.take(i as int)[w] == ids@.take(i + 1)[w]);
                        assert(before.contains(x));
                    } else {
                        assert(ids@.take(i + 1)[w] == e);
                        assert(x == e.id@);
                    }
                }
                assert(strs(r@).to_set() =~= after);
            }
        } else {
            proof {
                assert forall|x: Seq<char>| after.contains(x) implies before.contains(x) by {
                    let w = choose|w: int| 0 <= w < i + 1 && element_in(ids@.take(i + 1)[w], kind, side) && #[trigger] ids@.take(i + 1)[w].id@ == x;
                    if w < i {
                        assert(ids@.take(i as int)[w] == ids@.take(i + 1)[w]);
                    } else {
                        assert(ids@.take(i + 1)[w] == e);
                    }
                }
                assert(strs(r@).to_set() =~= after);
            }
        }
        i = i + 1;
    }
    assert(ids@.take(ids.len() as int) == ids@);
    r
}

// ---------------------------------------------------------------------------
// Per-file checks

pub type PairV = (Seq<char>, Seq<char>);

/// A registered `@sec` id: (id, side, file).
pub type RegV = (Seq<char>, ModelSide, Seq<char>);

/// What the file checks accumulate: errors; per side, the file where each
/// UI contract id was last seen; the implementation-ready mockup ids; the
/// registered `@sec` ids; the `@sec` ids with a `link`.
pub type ScanV = (Seq<Seq<char>>, Seq<PairV>, Seq<PairV>, Seq<PairV>, Set<Seq<char>>, Seq<RegV>, Set<Seq<char>>);

pub open spec fn uic_of(st: ScanV, side: ModelSide) -> Seq<PairV> {
    match side {
        ModelSide::Current => st.1,
        ModelSide::Objective => st.2,
        ModelSide::Shared => st.3,
    }
}

pub open spec fn with_uic(st: ScanV, side: ModelSide, m: Seq<PairV>) -> ScanV {
    match side {
        ModelSide::Current => (st.0, m, st.2, st.3, st.4, st.5, st.6),
        ModelSide::Objective => (st.0, st.1, m, st.3, st.4, st.5, st.6),
        ModelSide::Shared => (st.0, st.1, st.2, m, st.4, st.5, st.6),
    }
}

pub open spec fn with_errors(st: ScanV, e: Seq<Seq<char>>) -> ScanV {
    (e, st.1, st.2, st.3, st.4, st.5, st.6)
}

/// One UI element contract of a mockup: its id must be a `UIC-` id, unique
/// per side.
pub open spec fn element_step(st: ScanV, e: ElementV, side: ModelSide, path: Seq<char>) -> ScanV {
    let id = e.0;
    let e1 = if starts_with(id, "UIC-"@) {
        st.0
    } else {
        st.0.push("ui element contract has invalid ID "@ + id + " in "@ + path)
    };
    let m = uic_of(st, side);
    let e2 = match pairs_get(m, id) {
        Some(first) => e1.push("duplicate UI contract ID "@ + id + " in "@ + first + " and "@ + path + " (same side)"@),
        None => e1,
    };
    with_errors(with_uic(st, side, pairs_insert(m, id, path)), e2)
}

pub open spec fn elements_fold(st: ScanV, es: Seq<ElementV>, side: ModelSide, path: Seq<char>) -> ScanV
    decreases es.len(),
{
    if es.len() == 0 {
        st
    } else {
        element_step(elements_fold(st, es.drop_last(), side, path), es.last(), side, path)
    }
}

/// One `@sec` marker of a model file.
pub open spec fn marker_step(
    st: ScanV,
    m: MarkerV,
    file_ids: Seq<Seq<char>>,
    content: Seq<char>,
    side: ModelSide,
    path: Seq<char>,
) -> ScanV {
    let (stereo, host, id, params) = m;
    if stereo.len() == 0 {
        with_errors(st, st.0.push("@sec(...) is missing required `stereotype=` key in "@ + path))
    } else if !active_stereotype(stereo) {
        with_errors(
            st,
            st.0.push(
                "@sec(stereotype="@ + stereo + ", ...) uses unknown stereotype in "@ + path
                    + "; Phase 1 supports: "@ + ACTIVE_STEREOTYPES_TEXT@,
            ),
        )
    } else if host.len() == 0 {
        with_errors(
            st,
            st.0.push("@sec(stereotype="@ + stereo + ", ...) is missing required `host=` key in "@ + path),
        )
    } else if !file_ids.contains(host) {
        with_errors(
            st,
            st.0.push(
                "@sec(host="@ + host + ", ...) host does not resolve to an @id(...) in the same file ("@
                    + path + ")"@,
            ),
        )
    } else {
        let e = st.0 + stereotype_errors(stereo, host, params, host_kind_spec(content, host), path);
        match id {
            Some(i) => (
                e,
                st.1,
                st.2,
                st.3,
                st.4,
                st.5.push((i, side, path)),
                if has_param(params, "link"@) {
                    st.6.insert(i)
                } else {
                    st.6
                },
            ),
            None => with_errors(st, e),
        }
    }
}

pub open spec fn markers_fold(
    st: ScanV,
    ms: Seq<MarkerV>,
    file_ids: Seq<Seq<char>>,
    content: Seq<char>,
    side: ModelSide,
    path: Seq<char>,
) -> ScanV
    decreases ms.len(),
{
    if ms.len() == 0 {
        st
    } else {
        marker_step(markers_fold(st, ms.drop_last(), file_ids, content, side, path), ms.last(), file_ids, content, side, path)
    }
}

/// The `MCK-` ids among a file's ids.
pub open spec fn mockup_ids_of(ids: Seq<Seq<char>>) -> Seq<Seq<char>>
    decreases ids.len(),
{
    if ids.len() == 0 {
        seq![]
    } else {
        let r = mockup_ids_of(ids.drop_last());
        if starts_with(ids.last(), "MCK-"@) {
            r.push(ids.last())
        } else {
            r
        }
    }
}

/// The checks of a mockup file.
pub open spec fn mockup_part(st: ScanV, f: ModelFile, content: Seq<char>) -> ScanV {
    let path = f.path@;
    let mck = mockup_ids_of(strs(f.ids@));
    let e1 = if mck.len() == 0 {
        st.0.push("mockup file has no MCK-... @id(...) marker: "@ + path)
    } else {
        st.0
    };
    let es = captures(Pat::Body("@ui-element("@), content).map_values(|b: Seq<char>| element_of(b));
    let st2 = elements_fold(with_errors(st, e1), es, f.side, path);
    if ui_route_spec(content) is Some && es.len() > 0 {
        (st2.0, st2.1, st2.2, st2.3, st2.4.union(mck.to_set()), st2.5, st2.6)
    } else {
        st2
    }
}

/// A reference resolves against the ids its file may see.
pub open spec fn ref_valid(
    r: Seq<char>,
    kind: ModelKind,
    side: ModelSide,
    ids: Seq<ModelElement>,
) -> bool {
    if kind == ModelKind::Constraint {
        ids_where(ids, Some(ModelKind::Domain), None).contains(r)
    } else {
        match side {
            ModelSide::Current => ids_where(ids, None, Some(ModelSide::Current)).contains(r),
            ModelSide::Objective => ids_where(ids, None, Some(ModelSide::Objective)).contains(r),
            ModelSide::Shared => ids_where(ids, None, None).contains(r),
        }
    }
}

pub open spec fn ref_errors(refs: Seq<Seq<char>>, f: ModelFile, ids: Seq<ModelElement>) -> Seq<Seq<char>>
    decreases refs.len(),
{
    if refs.len() == 0 {
        seq![]
    } else {
        ref_errors(refs.drop_last(), f, ids) + if ref_valid(refs.last(), f.kind, f.side, ids) {
            seq![]
        } else {
            seq!["unresolved @ref("@ + refs.last() + ") in "@ + f.path@]
        }
    }
}

/// A model file's references raise no error exactly when each resolves,
/// and a reference in a current (objective) diagram resolves exactly when an
/// element of the current (objective) side carries that id: the other
/// side's ids never resolve it.
pub proof fn lemma_refs_resolve_within_side(refs: Seq<Seq<char>>, f: ModelFile, ids: Seq<ModelElement>)
    ensures
        ref_errors(refs, f, ids).len() == 0 <==> forall|i: int| 0 <= i < refs.len() ==> ref_valid(#[trigger] refs[i], f.kind, f.side, ids),
        f.kind != ModelKind::Constraint && f.side != ModelSide::Shared ==> forall|r: Seq<char>| #[trigger] ref_valid(r, f.kind, f.side, ids)
            <==> exists|k: int| 0 <= k < ids.len() && ids[k].side == f.side && #[trigger] ids[k].id@ == r,
    decreases refs.len(),
{
    if refs.len() > 0 {
        lemma_refs_resolve_within_side(refs.drop_last(), f, ids);
        if forall|i: int| 0 <= i < refs.len() ==> ref_valid(#[trigger] refs[i], f.kind, f.side, ids) {
            assert forall|i: int| 0 <= i < refs.drop_last().len() implies ref_valid(#[trigger] refs.drop_last()[i], f.kind, f.side, ids) by {
                assert(refs.drop_last()[i] == refs[i]);
            }
            assert(ref_valid(refs[refs.len() - 1], f.kind, f.side, ids));
        }
        if ref_errors(refs, f, ids).len() == 0 {
            assert forall|i: int| 0 <= i < refs.len() implies ref_valid(#[trigger] refs[i], f.kind, f.side, ids) by {
                if i < refs.len() - 1 {
                    assert(refs.drop_last()[i] == refs[i]);
                }
            }
        }
    }
    if f.kind != ModelKind::Constraint && f.side != ModelSide::Shared {
        assert forall|r: Seq<char>|
            (exists|k: int| 0 <= k < ids.len() && ids[k].side == f.side && #[trigger] ids[k].id@ == r) implies #[trigger] ref_valid(
            r,
            f.kind,
            f.side,
            ids,
        ) by {
            let k = choose|k: int| 0 <= k < ids.len() && ids[k].side == f.side && #[trigger] ids[k].id@ == r;
            assert(element_in(ids[k], None, Some(f.side)));
            assert(ids_where(ids, None, Some(f.side)).contains(r));
        }
    }
}

/// All checks of one registry file (with its content, read for every file
/// but a constraint).
pub open spec fn file_step(st: ScanV, f: ModelFile, content: Option<Seq<char>>, ids: Seq<ModelElement>) -> ScanV {
    let path = f.path@;
    let st1 = if f.ids@.len() == 0 && f.kind != ModelKind::Constraint {
        with_errors(st, st.0.push("model file has no @id(...) marker: "@ + path))
    } else {
        st
    };
    let st2 = match content {
        Some(c) => if f.kind == ModelKind::Mockup {
            mockup_part(st1, f, c)
        } else {
            st1
        },
        None => st1,
    };
    let st3 = match content {
        Some(c) => markers_fold(
            st2,
            captures(Pat::Body("@sec("@), c).map_values(|b: Seq<char>| sec_of(b)),
            strs(f.ids@),
            c,
            f.side,
            path,
        ),
        None => st2,
    };
    with_errors(st3, st3.0 + ref_errors(strs(f.refs@), f, ids))
}

pub open spec fn files_fold(
    st: ScanV,
    fs: Seq<ModelFile>,
    contents: Seq<Option<Seq<char>>>,
    ids: Seq<ModelElement>,
) -> ScanV
    decreases fs.len(),
{
    if fs.len() == 0 {
        st
    } else {
        let n = fs.len() - 1;
        file_step(files_fold(st, fs.drop_last(), contents, ids), fs[n], contents[n], ids)
    }
}

/// The accumulated state of the file checks.
pub struct Scan {
    pub errors: Vec<String>,
    pub uic_current: KeyMap<String>,
    pub uic_objective: KeyMap<String>,
    pub uic_shared: KeyMap<String>,
    pub ready_mockups: Vec<String>,
    pub sec_regs: Vec<(String, ModelSide, String)>,
    pub sec_ready: Vec<String>,
}

pub open spec fn regs_view(v: Seq<(String, ModelSide, String)>) -> Seq<RegV> {
    v.map_values(|r: (String, ModelSide, String)| (r.0@, r.1, r.2@))
}

impl Scan {
    pub open spec fn view(&self) -> ScanV {
        (
            strs(self.errors@),
            self.uic_current@,
            self.uic_objective@,
            self.uic_shared@,
            strs(self.ready_mockups@).to_set(),
            regs_view(self.sec_regs@),
            strs(self.sec_ready@).to_set(),
        )
    }

    pub open spec fn wf(&self) -> bool {
        &&& self.uic_current.wf()
        &&& self.uic_objective.wf()
        &&& self.uic_shared.wf()
        &&& strictly_sorted(strs(self.ready_mockups@))
        &&& strictly_sorted(strs(self.sec_ready@))
    }

    pub fn new() -> (s: Scan)
        ensures
            s.wf(),
            s.view() == (
                Seq::<Seq<char>>::empty(),
                Seq::<PairV>::empty(),
                Seq::<PairV>::empty(),
                Seq::<PairV>::empty(),
                Set::<Seq<char>>::empty(),
                Seq::<RegV>::empty(),
                Set::<Seq<char>>::empty(),
            ),
    {
        let s = Scan {
            errors: Vec::new(),
            uic_current: KeyMap::new(),
            uic_objective: KeyMap::new(),
            uic_shared: KeyMap::new(),
            ready_mockups: Vec::new(),
            sec_regs: Vec::new(),
            sec_ready: Vec::new(),
        };
        assert(strs(s.errors@) =~= Seq::<Seq<char>>::empty());
        assert(strs(s.ready_mockups@).to_set() =~= Set::<Seq<char>>::empty());
        assert(regs_view(s.sec_regs@) =~= Seq::<RegV>::empty());
        assert(strs(s.sec_ready@).to_set() =~= Set::<Seq<char>>::empty());
        s
    }

    fn uic_get(&self, side: ModelSide, id: &str) -> (r: Option<String>)
        ensures
            match r {
                Some(f) => pairs_get(uic_of(self.view(), side), id@) == Some(f@),
                None => pairs_get(uic_of(self.view(), side), id@) is None,
            },
    {
        let m = match side {
            ModelSide::Current => &self.uic_current,
            ModelSide::Objective => &self.uic_objective,
            ModelSide::Shared => &self.uic_shared,
        };
        match m.get(id) {
            Some(f) => Some(f.clone()),
            None => None,
        }
    }

    fn uic_insert(&mut self, side: ModelSide, id: String, path: String)
        requires
            old(self).wf(),
        ensures
            final(self).wf(),
            final(self).view() == with_uic(old(self).view(), side, pairs_insert(uic_of(old(self).view(), side), id@, path@)),
    {
        match side {
            ModelSide::Current => self.uic_current.insert(id, path),
            ModelSide::Objective => self.uic_objective.insert(id, path),
            ModelSide::Shared => self.uic_shared.insert(id, path),
        }
    }

    fn error(&mut self, m: String)
        ensures
            final(self).view() == with_errors(old(self).view(), old(self).view().0.push(m@)),
            final(self).wf() == old(self).wf(),
    {
        push_msg(&mut self.errors, m);
    }
}

fn scan_element(scan: &mut Scan, e: &UiElementContract, side: ModelSide, path: &str)
    requires
        old(scan).wf(),
    ensures
        final(scan).wf(),
        final(scan).view() == element_step(old(scan).view(), e@, side, path@),
{
    if !crate::text::str_starts_with(e.id.as_str(), "UIC-") {
        let mut m = cat3("ui element contract has invalid ID ", e.id.as_str(), " in ");
        push_str(&mut m, path);
        scan.error(m);
    }
    let prev = scan.uic_get(side, e.id.as_str());
    scan.uic_insert(side, e.id.clone(), owned(path));
    match prev {
        Some(first) => {
            let mut m = cat3("duplicate UI contract ID ", e.id.as_str(), " in ");
            push_str(&mut m, first.as_str());
            push_str(&mut m, " and ");
            push_str(&mut m, path);
            push_str(&mut m, " (same side)");
            scan.error(m);
        },
        None => {},
    }
}

fn scan_marker(scan: &mut Scan, m: &SecMarker, file_ids: &Vec<String>, content: &str, side: ModelSide, path: &str)
    requires
        old(scan).wf(),
    ensures
        final(scan).wf(),
        final(scan).view() == marker_step(old(scan).view(), m@, strs(file_ids@), content@, side, path@),
{
    let st = m.stereotype.as_str();
    let host = m.host.as_str();
    if chars_of(st).len() == 0 {
        scan.error(cat("@sec(...) is missing required `stereotype=` key in ", path));
        return;
    }
    if !is_active_stereotype(st) {
        let mut msg = cat3("@sec(stereotype=", st, ", ...) uses unknown stereotype in ");
        push_str(&mut msg, path);
        push_str(&mut msg, "; Phase 1 supports: ");
        push_str(&mut msg, ACTIVE_STEREOTYPES_TEXT);
        scan.error(msg);
        return;
    }
    if chars_of(host).len() == 0 {
        let mut msg = cat3("@sec(stereotype=", st, ", ...) is missing required `host=` key in ");
        push_str(&mut msg, path);
        scan.error(msg);
        return;
    }
    if !sorted_contains(file_ids, host) {
        let mut msg = cat3("@sec(host=", host, ", ...) host does not resolve to an @id(...) in the same file (");
        push_str(&mut msg, path);
        push_str(&mut msg, ")");
        scan.error(msg);
        return;
    }
    let kind = crate::markers::detect_host_kind(content, host);
    check_stereotype(&mut scan.errors, st, host, &m.params, kind, path);
    match &m.id {
        Some(i) => {
            let ghost r0 = regs_view(scan.sec_regs@);
            scan.sec_regs.push((i.clone(), side, owned(path)));
            assert(regs_view(scan.sec_regs@) =~= r0.push((i@, side, path@)));
            if has_param_exec(&m.params, "link") {
                insert_sorted(&mut scan.sec_ready, i.clone());
            }
        },
        None => {},
    }
}

fn mockup_ids_exec(ids: &Vec<String>) -> (r: Vec<String>)
    ensures
        strs(r@) == mockup_ids_of(strs(ids@)),
{
    let mut r: Vec<String> = Vec::new();
    let mut i: usize = 0;
    assert(strs(ids@).take(0) =~= Seq::<Seq<char>>::empty());
    assert(strs(r@) =~= Seq::<Seq<char>>::empty());
    while i < ids.len()
        invariant
            i <= ids.len(),
            strs(r@) == mockup_ids_of(strs(ids@).take(i as int)),
        decreases ids.len() - i,
    {
        proof {
            let t = strs(ids@).take(i + 1);
            assert(t.drop_last() == strs(ids@).take(i as int));
            assert(t.last() == ids@[i as int]@);
        }
        if crate::text::str_starts_with(ids[i].as_str(), "MCK-") {
            let ghost r0 = strs(r@);
            r.push(ids[i].clone());
            assert(strs(r@) =~= r0.push(ids@[i as int]@));
        }
        i = i + 1;
    }
    assert(strs(ids@).take(ids.len() as int) == strs(ids@));
    r
}

fn scan_mockup(scan: &mut Scan, f: &ModelFile, content: &str)
    requires
        old(scan).wf(),
    ensures
        final(scan).wf(),
        final(scan).view() == mockup_part(old(scan).view(), *f, content@),
{
    let path = f.path.as_str();
    let mck = mockup_ids_exec(&f.ids);
    if mck.len() == 0 {
        scan.error(cat("mockup file has no MCK-... @id(...) marker: ", path));
    }
    let ghost st1 = scan.view();
    let elements = extract_ui_elements(content);
    let ghost ev = crate::markers::elements_view(elements@);
    let mut k: usize = 0;
    assert(ev.take(0) =~= Seq::<ElementV>::empty());
    while k < elements.len()
        invariant
            k <= elements.len(),
            ev == crate::markers::elements_view(elements@),
            scan.wf(),
            scan.view() == elements_fold(st1, ev.take(k as int), f.side, path@),
        decreases elements.len() - k,
    {
        proof {
            assert(ev.take(k + 1).drop_last() == ev.take(k as int));
            assert(ev.take(k + 1).last() == elements@[k as int]@);
        }
        scan_element(scan, &elements[k], f.side, path);
        k = k + 1;
    }
    assert(ev.take(elements.len() as int) == ev);
    let route = extract_ui_route(content);
    if route.is_some() && elements.len() > 0 {
        let ghost r0 = strs(scan.ready_mockups@).to_set();
        let ghost st2 = scan.view();
        let mut i: usize = 0;
        assert(strs(mck@).take(0).to_set() =~= Set::<Seq<char>>::empty());
        assert(r0.union(Set::<Seq<char>>::empty()) =~= r0);
        while i < mck.len()
            invariant
                i <= mck.len(),
                scan.wf(),
                r0 == st2.4,
                scan.view() == (st2.0, st2.1, st2.2, st2.3, strs(scan.ready_mockups@).to_set(), st2.5, st2.6),
                strs(scan.ready_mockups@).to_set() == r0.union(strs(mck@).take(i as int).to_set()),
            decreases mck.len() - i,
        {
            proof {
                let t = strs(mck@).take(i + 1);
                assert(t == strs(mck@).take(i as int).push(mck@[i as int]@));
                strs(mck@).take(i as int).lemma_push_to_set_commute(mck@[i as int]@);
            }
            insert_sorted(&mut scan.ready_mockups, mck[i].clone());
            proof {
                assert(strs(scan.ready_mockups@).to_set() =~= r0.union(strs(mck@).take(i + 1).to_set()));
            }
            i = i + 1;
        }
        assert(strs(mck@).take(mck.len() as int) == strs(mck@));
    }
}

/// The id sets a reference resolves against.
pub struct IdSets {
    pub domain: Vec<String>,
    pub current: Vec<String>,
    pub objective: Vec<String>,
    pub all: Vec<String>,
}

impl IdSets {
    pub open spec fn of(&self, ids: Seq<ModelElement>) -> bool {
        &&& strs(self.domain@).to_set() == ids_where(ids, Some(ModelKind::Domain), None)
        &&& strs(self.current@).to_set() == ids_where(ids, None, Some(ModelSide::Current))
        &&& strs(self.objective@).to_set() == ids_where(ids, None, Some(ModelSide::Objective))
        &&& strs(self.all@).to_set() == ids_where(ids, None, None)
        &&& strictly_sorted(strs(self.domain@))
        &&& strictly_sorted(strs(self.current@))
        &&& strictly_sorted(strs(self.objective@))
        &&& strictly_sorted(strs(self.all@))
    }

    pub fn build(ids: &Vec<ModelElement>) -> (r: IdSets)
        ensures
            r.of(ids@),
    {
        IdSets {
            domain: collect_ids(ids, Some(ModelKind::Domain), None),
            current: collect_ids(ids, None, Some(ModelSide::Current)),
            objective: collect_ids(ids, None, Some(ModelSide::Objective)),
            all: collect_ids(ids, None, None),
        }
    }
}

proof fn lemma_contains_to_set(s: Seq<Seq<char>>, x: Seq<char>)
    ensures
        s.contains(x) == s.to_set().contains(x),
{
}

fn scan_refs(scan: &mut Scan, f: &ModelFile, ids: &Vec<ModelElement>, sets: &IdSets)
    requires
        old(scan).wf(),
        sets.of(ids@),
    ensures
        final(scan).wf(),
        final(scan).view() == with_errors(old(scan).view(), old(scan).view().0 + ref_errors(strs(f.refs@), *f, ids@)),
{
    let ghost st0 = scan.view();
    let ghost rs = strs(f.refs@);
    let mut i: usize = 0;
    assert(rs.take(0) =~= Seq::<Seq<char>>::empty());
    assert(st0.0 + Seq::<Seq<char>>::empty() =~= st0.0);
    while i < f.refs.len()
        invariant
            i <= f.refs.len(),
            rs == strs(f.refs@),
            sets.of(ids@),
            scan.wf(),
            scan.view() == with_errors(st0, st0.0 + ref_errors(rs.take(i as int), *f, ids@)),
        decreases f.refs.len() - i,
    {
        let r = f.refs[i].as_str();
        proof {
            assert(rs.take(i + 1).drop_last() == rs.take(i as int));
            assert(rs.take(i + 1).last() == r@);
        }
        let set = if f.kind == ModelKind::Constraint {
            &sets.domain
        } else {
            match f.side {
                ModelSide::Current => &sets.current,
                ModelSide::Objective => &sets.objective,
                ModelSide::Shared => &sets.all,
            }
        };
        let valid = sorted_contains(set, r);
        proof {
            lemma_contains_to_set(strs(set@), r@);
            assert(valid == ref_valid(r@, f.kind, f.side, ids@));
        }
        let ghost e0 = scan.view().0;
        if !valid {
            let mut m = cat3("unresolved @ref(", r, ") in ");
            push_str(&mut m, f.path.as_str());
            scan.error(m);
        }
        proof {
            assert(scan.view().0 =~= st0.0 + ref_errors(rs.take(i + 1), *f, ids@));
        }
        i = i + 1;
    }
    assert(rs.take(f.refs.len() as int) == rs);
}

pub open spec fn opt_str(o: Option<&str>) -> Option<Seq<char>> {
    match o {
        Some(s) => Some(s@),
        None => None,
    }
}

/// All checks of one registry file.
fn scan_file(scan: &mut Scan, f: &ModelFile, content: Option<&str>, ids: &Vec<ModelElement>, sets: &IdSets)
    requires
        old(scan).wf(),
        sets.of(ids@),
    ensures
        final(scan).wf(),
        final(scan).view() == file_step(old(scan).view(), *f, opt_str(content), ids@),
{
    let path = f.path.as_str();
    if f.ids.len() == 0 && f.kind != ModelKind::Constraint {
        scan.error(cat("model file has no @id(...) marker: ", path));
    }
    match content {
        Some(c) => {
            if f.kind == ModelKind::Mockup {
                scan_mockup(scan, f, c);
            }
            let ghost st2 = scan.view();
            let markers = extract_sec_markers(c);
            let ghost mv = crate::markers::markers_view(markers@);
            let mut k: usize = 0;
            assert(mv.take(0) =~= Seq::<MarkerV>::empty());
            while k < markers.len()
                invariant
                    k <= markers.len(),
                    mv == crate::markers::markers_view(markers@),
                    scan.wf(),
                    scan.view() == markers_fold(st2, mv.take(k as int), strs(f.ids@), c@, f.side, path@),
                decreases markers.len() - k,
            {
                proof {
                    assert(mv.take(k + 1).drop_last() == mv.take(k as int));
                    assert(mv.take(k + 1).last() == markers@[k as int]@);
                }
                scan_marker(scan, &markers[k], &f.ids, c, f.side, path);
                k = k + 1;
            }
            assert(mv.take(markers.len() as int) == mv);
        },
        None => {},
    }
    scan_refs(scan, f, ids, sets);
}

/// The checks of every registry file, in order, with the contents read
/// (none for constraint files).
pub fn scan_files(files: &Vec<ModelFile>, contents: &Vec<Option<String>>, ids: &Vec<ModelElement>, sets: &IdSets) -> (r: Scan)
    requires
        contents@.len() == files@.len(),
        sets.of(ids@),
    ensures
        r.wf(),
        r.view() == files_fold(Scan::new_view(), files@, contents_view(contents@), ids@),
{
    let mut scan = Scan::new();
    let mut i: usize = 0;
    let ghost cv = contents_view(contents@);
    assert(files@.take(0) =~= Seq::<ModelFile>::empty());
    while i < files.len()
        invariant
            i <= files.len(),
            contents@.len() == files@.len(),
            cv == contents_view(contents@),
            sets.of(ids@),
            scan.wf(),
            scan.view() == files_fold(Scan::new_view(), files@.take(i as int), cv, ids@),
        decreases files.len() - i,
    {
        proof {
            let t = files@.take(i + 1);
            assert(t.drop_last() == files@.take(i as int));
            assert(t[i as int] == files@[i as int]);
        }
        let content: Option<&str> = match &contents[i] {
            Some(c) => Some(c.as_str()),
            None => None,
        };
        assert(opt_str(content) == cv[i as int]);
        scan_file(&mut scan, &files[i], content, ids, sets);
        i = i + 1;
    }
    assert(files@.take(files.len() as int) == files@);
    scan
}

pub open spec fn contents_view(c: Seq<Option<String>>) -> Seq<Option<Seq<char>>> {
    c.map_values(|o: Option<String>| match o {
        Some(s) => Some(s@),
        None => None,
    })
}

impl Scan {
    pub open spec fn new_view() -> ScanV {
        (
            Seq::<Seq<char>>::empty(),
            Seq::<PairV>::empty(),
            Seq::<PairV>::empty(),
            Seq::<PairV>::empty(),
            Set::<Seq<char>>::empty(),
            Seq::<RegV>::empty(),
            Set::<Seq<char>>::empty(),
        )
    }
}

// ---------------------------------------------------------------------------
// Duplicate ids per side

/// (errors, per side the file where each id was last seen).
pub type DupV = (Seq<Seq<char>>, Seq<PairV>, Seq<PairV>, Seq<PairV>);

pub open spec fn seen_of(d: DupV, side: ModelSide) -> Seq<PairV> {
    match side {
        ModelSide::Current => d.1,
        ModelSide::Objective => d.2,
        ModelSide::Shared => d.3,
    }
}

pub open spec fn dup_step(d: DupV, id: Seq<char>, side: ModelSide, file: Seq<char>) -> DupV {
    let m = seen_of(d, side);
    let e = match pairs_get(m, id) {
        Some(first) => d.0.push("duplicate model ID "@ + id + " in "@ + first + " and "@ + file + " (same side)"@),
        None => d.0,
    };
    let m2 = pairs_insert(m, id, file);
    match side {
        ModelSide::Current => (e, m2, d.2, d.3),
        ModelSide::Objective => (e, d.1, m2, d.3),
        ModelSide::Shared => (e, d.1, d.2, m2),
    }
}

pub open spec fn dup_fold(d: DupV, rs: Seq<RegV>) -> DupV
    decreases rs.len(),
{
    if rs.len() == 0 {
        d
    } else {
        let r = rs.last();
        dup_step(dup_fold(d, rs.drop_last()), r.0, r.1, r.2)
    }
}

pub open spec fn element_regs(ids: Seq<ModelElement>) -> Seq<RegV> {
    ids.map_values(|e: ModelElement| (e.id@, e.side, e.file@))
}

/// The duplicate-id errors: registry ids, then the `@sec` ids, each unique
/// per side.
pub open spec fn duplicate_errors(ids: Seq<ModelElement>, regs: Seq<RegV>) -> Seq<Seq<char>> {
    dup_fold((seq![], seq![], seq![], seq![]), element_regs(ids) + regs).0
}

struct Seen {
    errors: Vec<String>,
    current: KeyMap<String>,
    objective: KeyMap<String>,
    shared: KeyMap<String>,
}

impl Seen {
    spec fn view(&self) -> DupV {
        (strs(self.errors@), self.current@, self.objective@, self.shared@)
    }

    spec fn wf(&self) -> bool {
        self.current.wf() && self.objective.wf() && self.shared.wf()
    }

    fn step(&mut self, id: &String, side: ModelSide, file: &String)
        requires
            old(self).wf(),
        ensures
            final(self).wf(),
            final(self).view() == dup_step(old(self).view(), id@, side, file@),
    {
        let prev = match side {
            ModelSide::Current => self.current.get(id.as_str()),
            ModelSide::Objective => self.objective.get(id.as_str()),
            ModelSide::Shared => self.shared.get(id.as_str()),
        };
        let prev: Option<String> = match prev {
            Some(f) => Some(f.clone()),
            None => None,
        };
        match prev {
            Some(first) => {
                let mut m = cat3("duplicate model ID ", id.as_str(), " in ");
                push_str(&mut m, first.as_str());
                push_str(&mut m, " and ");
                push_str(&mut m, file.as_str());
                push_str(&mut m, " (same side)");
                push_msg(&mut self.errors, m);
            },
            None => {},
        }
        match side {
            ModelSide::Current => self.current.insert(id.clone(), file.clone()),
            ModelSide::Objective => self.objective.insert(id.clone(), file.clone()),
            ModelSide::Shared => self.shared.insert(id.clone(), file.clone()),
        }
    }
}

pub fn duplicate_id_errors(ids: &Vec<ModelElement>, regs: &Vec<(String, ModelSide, String)>) -> (r: Vec<String>)
    ensures
        strs(r@) == duplicate_errors(ids@, regs_view(regs@)),
{
    let mut seen = Seen { errors: Vec::new(), current: KeyMap::new(), objective: KeyMap::new(), shared: KeyMap::new() };
    let ghost all = element_regs(ids@) + regs_view(regs@);
    let ghost d0: DupV = (seq![], seq![], seq![], seq![]);
    assert(seen.view() == d0) by {
        assert(strs(seen.errors@) =~= Seq::<Seq<char>>::empty());
    }
    let mut i: usize = 0;
    assert(all.take(0) =~= Seq::<RegV>::empty());
    while i < ids.len()
        invariant
            i <= ids.len(),
            all == element_regs(ids@) + regs_view(regs@),
            seen.wf(),
            seen.view() == dup_fold(d0, all.take(i as int)),
        decreases ids.len() - i,
    {
        proof {
            assert(all.take(i + 1).drop_last() == all.take(i as int));
            assert(all.take(i + 1).last() == (ids@[i as int].id@, ids@[i as int].side, ids@[i as int].file@));
        }
        seen.step(&ids[i].id, ids[i].side, &ids[i].file);
        i = i + 1;
    }
    let mut k: usize = 0;
    while k < regs.len()
        invariant
            k <= regs.len(),
            all == element_regs(ids@) + regs_view(regs@),
            seen.wf(),
            seen.view() == dup_fold(d0, all.take(ids@.len() + k)),
        decreases regs.len() - k,
    {
        proof {
            let n = ids@.len() + k;
            assert(all.take(n + 1).drop_last() == all.take(n));
            assert(all.take(n + 1).last() == (regs@[k as int].0@, regs@[k as int].1, regs@[k as int].2@));
        }
        seen.step(&regs[k].0, regs[k].1, &regs[k].2);
        k = k + 1;
    }
    assert(all.take((ids@.len() + regs@.len()) as int) == all);
    seen.errors
}

// ---------------------------------------------------------------------------
// Trace links and generated tests

/// Links whose ends are unknown ids.
pub open spec fn link_errors(links: Seq<TraceLink>, all: Set<Seq<char>>) -> Seq<Seq<char>>
    decreases links.len(),
{
    if links.len() == 0 {
        seq![]
    } else {
        let l = links.last();
        link_errors(links.drop_last(), all) + (if all.contains(l.from@) {
            seq![]
        } else {
            seq!["trace link references unknown source ID: "@ + l.from@]
        }) + (if all.contains(l.to@) {
            seq![]
        } else {
            seq!["trace link references unknown target ID: "@ + l.to@]
        })
    }
}

/// A use case is linked to a sequence diagram.
pub open spec fn has_sequence_link(links: Seq<TraceLink>, uc: Seq<char>, seqs: Set<Seq<char>>) -> bool {
    exists|i: int| 0 <= i < links.len() && links[i].from@ == uc && seqs.contains(#[trigger] links[i].to@)
}

/// Use cases (in order) that no link ties to a sequence diagram.
pub open spec fn use_case_errors(ucs: Seq<Seq<char>>, links: Seq<TraceLink>, seqs: Set<Seq<char>>) -> Seq<Seq<char>>
    decreases ucs.len(),
{
    if ucs.len() == 0 {
        seq![]
    } else {
        use_case_errors(ucs.drop_last(), links, seqs) + if has_sequence_link(links, ucs.last(), seqs) {
            seq![]
        } else {
            seq!["use case "@ + ucs.last() + " is not linked to a sequence diagram in .mdd/trace.yml"@]
        }
    }
}

pub open spec fn gen_test_errors(ts: Seq<GeneratedTest>, all: Set<Seq<char>>, existing: Set<Seq<char>>) -> Seq<Seq<char>>
    decreases ts.len(),
{
    if ts.len() == 0 {
        seq![]
    } else {
        let t = ts.last();
        gen_test_errors(ts.drop_last(), all, existing) + (if all.contains(t.model_id@) {
            seq![]
        } else {
            seq!["generated test "@ + t.id@ + " references unknown model ID "@ + t.model_id@]
        }) + (if existing.contains(t.path@) {
            seq![]
        } else {
            seq!["generated test file is missing: "@ + t.path@]
        })
    }
}

pub open spec fn gen_ui_errors(
    ts: Seq<GeneratedUiTest>,
    all: Set<Seq<char>>,
    mockups: Set<Seq<char>>,
    existing: Set<Seq<char>>,
) -> Seq<Seq<char>>
    decreases ts.len(),
{
    if ts.len() == 0 {
        seq![]
    } else {
        let t = ts.last();
        gen_ui_errors(ts.drop_last(), all, mockups, existing) + (if !all.contains(t.model_id@) {
            seq!["generated UI test "@ + t.id@ + " references unknown model ID "@ + t.model_id@]
        } else if !mockups.contains(t.model_id@) {
            seq!["generated UI test "@ + t.id@ + " references non-mockup model ID "@ + t.model_id@]
        } else {
            seq![]
        }) + (if existing.contains(t.path@) {
            seq![]
        } else {
            seq!["generated UI test file is missing: "@ + t.path@]
        })
    }
}

fn has_exec(v: &Vec<String>, x: &str) -> (b: bool)
    ensures
        b == strs(v@).to_set().contains(x@),
{
    sorted_contains(v, x)
}

/// The errors of the trace links, appended to `errors`.
pub fn check_links(errors: &mut Vec<String>, links: &Vec<TraceLink>, all: &Vec<String>)
    ensures
        strs(final(errors)@) == strs(old(errors)@) + link_errors(links@, strs(all@).to_set()),
{
    let ghost e0 = strs(errors@);
    let ghost a = strs(all@).to_set();
    let mut i: usize = 0;
    assert(links@.take(0) =~= Seq::<TraceLink>::empty());
    assert(e0 + Seq::<Seq<char>>::empty() =~= e0);
    while i < links.len()
        invariant
            i <= links.len(),
            a == strs(all@).to_set(),
            strs(errors@) == e0 + link_errors(links@.take(i as int), a),
        decreases links.len() - i,
    {
        proof {
            assert(links@.take(i + 1).drop_last() == links@.take(i as int));
            assert(links@.take(i + 1).last() == links@[i as int]);
        }
        let l = &links[i];
        let ghost e1 = strs(errors@);
        if !has_exec(all, l.from.as_str()) {
            push_msg(errors, cat("trace link references unknown source ID: ", l.from.as_str()));
        }
        let ghost e2 = strs(errors@);
        if !has_exec(all, l.to.as_str()) {
            push_msg(errors, cat("trace link references unknown target ID: ", l.to.as_str()));
        }
        assert(strs(errors@) =~= e0 + link_errors(links@.take(i + 1), a));
        i = i + 1;
    }
    assert(links@.take(links.len() as int) == links@);
}

/// The use cases not linked to a sequence diagram, appended to `errors`.
pub fn check_use_case_links(errors: &mut Vec<String>, ucs: &Vec<String>, links: &Vec<TraceLink>, seqs: &Vec<String>)
    ensures
        strs(final(errors)@) == strs(old(errors)@) + use_case_errors(strs(ucs@), links@, strs(seqs@).to_set()),
{
    let ghost e0 = strs(errors@);
    let ghost sq = strs(seqs@).to_set();
    let ghost us = strs(ucs@);
    let mut i: usize = 0;
    assert(us.take(0) =~= Seq::<Seq<char>>::empty());
    assert(e0 + Seq::<Seq<char>>::empty() =~= e0);
    while i < ucs.len()
        invariant
            i <= ucs.len(),
            sq == strs(seqs@).to_set(),
            us == strs(ucs@),
            strs(errors@) == e0 + use_case_errors(us.take(i as int), links@, sq),
        decreases ucs.len() - i,
    {
        let uc = ucs[i].as_str();
        proof {
            assert(us.take(i + 1).drop_last() == us.take(i as int));
            assert(us.take(i + 1).last() == uc@);
        }
        let mut found = false;
        let mut k: usize = 0;
        while k < links.len() && !found
            invariant
                k <= links.len(),
                sq == strs(seqs@).to_set(),
                found == exists|w: int| 0 <= w < k && links@[w].from@ == uc@ && sq.contains(#[trigger] links@[w].to@),
            decreases links.len() - k,
        {
            if str_eq(links[k].from.as_str(), uc) && has_exec(seqs, links[k].to.as_str()) {
                found = true;
            }
            k = k + 1;
        }
        proof {
            if !found {
                assert forall|w: int| 0 <= w < links@.len() implies !(links@[w].from@ == uc@ && sq.contains(#[trigger] links@[w].to@)) by {
                    assert(w < k);
                }
            }
            assert(found == has_sequence_link(links@, uc@, sq));
        }
        if !found {
            let mut m = cat("use case ", uc);
            push_str(&mut m, " is not linked to a sequence diagram in .mdd/trace.yml");
            push_msg(errors, m);
        } else {
            assert(strs(errors@) + Seq::<Seq<char>>::empty() =~= strs(errors@));
        }
        assert(strs(errors@) =~= e0 + use_case_errors(us.take(i + 1), links@, sq));
        i = i + 1;
    }
    assert(us.take(ucs.len() as int) == us);
}

pub fn check_generated_tests(errors: &mut Vec<String>, ts: &Vec<GeneratedTest>, all: &Vec<String>, existing: &Vec<String>)
    ensures
        strs(final(errors)@) == strs(old(errors)@) + gen_test_errors(ts@, strs(all@).to_set(), strs(existing@).to_set()),
{
    let ghost e0 = strs(errors@);
    let mut i: usize = 0;
    assert(ts@.take(0) =~= Seq::<GeneratedTest>::empty());
    assert(e0 + Seq::<Seq<char>>::empty() =~= e0);
    while i < ts.len()
        invariant
            i <= ts.len(),
            strs(errors@) == e0 + gen_test_errors(ts@.take(i as int), strs(all@).to_set(), strs(existing@).to_set()),
        decreases ts.len() - i,
    {
        proof {
            assert(ts@.take(i + 1).drop_last() == ts@.take(i as int));
            assert(ts@.take(i + 1).last() == ts@[i as int]);
        }
        let t = &ts[i];
        if !has_exec(all, t.model_id.as_str()) {
            let mut m = cat3("generated test ", t.id.as_str(), " references unknown model ID ");
            push_str(&mut m, t.model_id.as_str());
            push_msg(errors, m);
        }
        if !has_exec(existing, t.path.as_str()) {
            push_msg(errors, cat("generated test file is missing: ", t.path.as_str()));
        }
        assert(strs(errors@) =~= e0 + gen_test_errors(ts@.take(i + 1), strs(all@).to_set(), strs(existing@).to_set()));
        i = i + 1;
    }
    assert(ts@.take(ts.len() as int) == ts@);
}

pub fn check_generated_ui_tests(
    errors: &mut Vec<String>,
    ts: &Vec<GeneratedUiTest>,
    all: &Vec<String>,
    mockups: &Vec<String>,
    existing: &Vec<String>,
)
    ensures
        strs(final(errors)@) == strs(old(errors)@) + gen_ui_errors(
            ts@,
            strs(all@).to_set(),
            strs(mockups@).to_set(),
            strs(existing@).to_set(),
        ),
{
    let ghost e0 = strs(errors@);
    let mut i: usize = 0;
    assert(ts@.take(0) =~= Seq::<GeneratedUiTest>::empty());
    assert(e0 + Seq::<Seq<char>>::empty() =~= e0);
    while i < ts.len()
        invariant
            i <= ts.len(),
            strs(errors@) == e0 + gen_ui_errors(
                ts@.take(i as int),
                strs(all@).to_set(),
                strs(mockups@).to_set(),
                strs(existing@).to_set(),
            ),
        decreases ts.len() - i,
    {
        proof {
            assert(ts@.take(i + 1).drop_last() == ts@.take(i as int));
            assert(ts@.take(i + 1).last() == ts@[i as int]);
        }
        let t = &ts[i];
        if !has_exec(all, t.model_id.as_str()) {
            let mut m = cat3("generated UI test ", t.id.as_str(), " references unknown model ID ");
            push_str(&mut m, t.model_id.as_str());
            push_msg(errors, m);
        } else if !has_exec(mockups, t.model_id.as_str()) {
            let mut m = cat3("generated UI test ", t.id.as_str(), " references non-mockup model ID ");
            push_str(&mut m, t.model_id.as_str());
            push_msg(errors, m);
        }
        if !has_exec(existing, t.path.as_str()) {
            push_msg(errors, cat("generated UI test file is missing: ", t.path.as_str()));
        }
        assert(strs(errors@) =~= e0 + gen_ui_errors(
            ts@.take(i + 1),
            strs(all@).to_set(),
            strs(mockups@).to_set(),
            strs(existing@).to_set(),
        ));
        i = i + 1;
    }
    assert(ts@.take(ts.len() as int) == ts@);
}

// ---------------------------------------------------------------------------
// Generated tests for ready mockups and security markers

pub open spec fn playwright_for(uis: Seq<GeneratedUiTest>, id: Seq<char>) -> bool {
    exists|i: int| 0 <= i < uis.len() && uis[i].framework@ == "playwright"@ && #[trigger] uis[i].model_id@ == id
}

pub open spec fn security_test_for(ts: Seq<GeneratedTest>, id: Seq<char>) -> bool {
    exists|i: int| 0 <= i < ts.len() && opt_view(ts[i].category) == Some("security"@) && #[trigger] ts[i].model_id@ == id
}

pub open spec fn missing_playwright(ready: Seq<Seq<char>>, uis: Seq<GeneratedUiTest>) -> Seq<Seq<char>>
    decreases ready.len(),
{
    if ready.len() == 0 {
        seq![]
    } else {
        missing_playwright(ready.drop_last(), uis) + if playwright_for(uis, ready.last()) {
            seq![]
        } else {
            seq![
                "implementation-ready mockup "@ + ready.last()
                    + " has no generated Playwright UI test in .mdd/trace.yml"@,
            ]
        }
    }
}

pub open spec fn missing_security_tests(ready: Seq<Seq<char>>, ts: Seq<GeneratedTest>) -> Seq<Seq<char>>
    decreases ready.len(),
{
    if ready.len() == 0 {
        seq![]
    } else {
        missing_security_tests(ready.drop_last(), ts) + if security_test_for(ts, ready.last()) {
            seq![]
        } else {
            seq![
                "implementation-ready security marker "@ + ready.last()
                    + " has no generated security test in .mdd/tests/acceptance/ (run `/mdd-generate-security-tests` or supply the scaffold manually)"@,
            ]
        }
    }
}

fn has_playwright(uis: &Vec<GeneratedUiTest>, id: &str) -> (b: bool)
    ensures
        b == playwright_for(uis@, id@),
{
    let mut i: usize = 0;
    while i < uis.len()
        invariant
            i <= uis.len(),
            forall|k: int| 0 <= k < i ==> !(uis@[k].framework@ == "playwright"@ && #[trigger] uis@[k].model_id@ == id@),
        decreases uis.len() - i,
    {
        if str_eq(uis[i].framework.as_str(), "playwright") && str_eq(uis[i].model_id.as_str(), id) {
            return true;
        }
        i = i + 1;
    }
    false
}

fn has_security_test(ts: &Vec<GeneratedTest>, id: &str) -> (b: bool)
    ensures
        b == security_test_for(ts@, id@),
{
    let mut i: usize = 0;
    while i < ts.len()
        invariant
            i <= ts.len(),
            forall|k: int| 0 <= k < i ==> !(opt_view(ts@[k].category) == Some("security"@) && #[trigger] ts@[k].model_id@ == id@),
        decreases ts.len() - i,
    {
        let sec = match &ts[i].category {
            Some(c) => str_eq(c.as_str(), "security"),
            None => false,
        };
        if sec && str_eq(ts[i].model_id.as_str(), id) {
            return true;
        }
        i = i + 1;
    }
    false
}

pub fn check_ready_mockups(errors: &mut Vec<String>, ready: &Vec<String>, uis: &Vec<GeneratedUiTest>)
    ensures
        strs(final(errors)@) == strs(old(errors)@) + missing_playwright(strs(ready@), uis@),
{
    let ghost e0 = strs(errors@);
    let ghost rs = strs(ready@);
    let mut i: usize = 0;
    assert(rs.take(0) =~= Seq::<Seq<char>>::empty());
    assert(e0 + Seq::<Seq<char>>::empty() =~= e0);
    while i < ready.len()
        invariant
            i <= ready.len(),
            rs == strs(ready@),
            strs(errors@) == e0 + missing_playwright(rs.take(i as int), uis@),
        decreases ready.len() - i,
    {
        proof {
            assert(rs.take(i + 1).drop_last() == rs.take(i as int));
            assert(rs.take(i + 1).last() == ready@[i as int]@);
        }
        if !has_playwright(uis, ready[i].as_str()) {
            let mut m = cat("implementation-ready mockup ", ready[i].as_str());
            push_str(&mut m, " has no generated Playwright UI test in .mdd/trace.yml");
            push_msg(errors, m);
        } else {
            assert(strs(errors@) + Seq::<Seq<char>>::empty() =~= strs(errors@));
        }
        assert(strs(errors@) =~= e0 + missing_playwright(rs.take(i + 1), uis@));
        i = i + 1;
    }
    assert(rs.take(ready.len() as int) == rs);
}

pub fn check_ready_security(warnings: &mut Vec<String>, ready: &Vec<String>, ts: &Vec<GeneratedTest>)
    ensures
        strs(final(warnings)@) == strs(old(warnings)@) + missing_security_tests(strs(ready@), ts@),
{
    let ghost e0 = strs(warnings@);
    let ghost rs = strs(ready@);
    let mut i: usize = 0;
    assert(rs.take(0) =~= Seq::<Seq<char>>::empty());
    assert(e0 + Seq::<Seq<char>>::empty() =~= e0);
    while i < ready.len()
        invariant
            i <= ready.len(),
            rs == strs(ready@),
            strs(warnings@) == e0 + missing_security_tests(rs.take(i as int), ts@),
        decreases ready.len() - i,
    {
        proof {
            assert(rs.take(i + 1).drop_last() == rs.take(i as int));
            assert(rs.take(i + 1).last() == ready@[i as int]@);
        }
        if !has_security_test(ts, ready[i].as_str()) {
            let mut m = cat("implementation-ready security marker ", ready[i].as_str());
            push_str(
                &mut m,
                " has no generated security test in .mdd/tests/acceptance/ (run `/mdd-generate-security-tests` or supply the scaffold manually)",
            );
            push_msg(warnings, m);
        } else {
            assert(strs(warnings@) + Seq::<Seq<char>>::empty() =~= strs(warnings@));
        }
        assert(strs(warnings@) =~= e0 + missing_security_tests(rs.take(i + 1), ts@));
        i = i + 1;
    }
    assert(rs.take(ready.len() as int) == rs);
}

// ---------------------------------------------------------------------------
// Test links, layers and coverage

pub type LinkV = (Seq<char>, Seq<char>, Seq<char>, TestLayer, Option<Seq<char>>, crate::model::TestExpect);

pub open spec fn test_link_errors(ts: Seq<TestLink>, all: Set<Seq<char>>, existing: Set<Seq<char>>) -> Seq<Seq<char>>
    decreases ts.len(),
{
    if ts.len() == 0 {
        seq![]
    } else {
        let t = ts.last();
        test_link_errors(ts.drop_last(), all, existing) + (if all.contains(t.model_id@) {
            seq![]
        } else {
            seq!["test "@ + t.id@ + " references unknown model ID "@ + t.model_id@]
        }) + (if existing.contains(t.path@) {
            seq![]
        } else {
            seq!["test file is missing: "@ + t.path@]
        })
    }
}

pub fn check_test_links(errors: &mut Vec<String>, ts: &Vec<TestLink>, all: &Vec<String>, existing: &Vec<String>)
    ensures
        strs(final(errors)@) == strs(old(errors)@) + test_link_errors(ts@, strs(all@).to_set(), strs(existing@).to_set()),
{
    let ghost e0 = strs(errors@);
    let mut i: usize = 0;
    assert(ts@.take(0) =~= Seq::<TestLink>::empty());
    assert(e0 + Seq::<Seq<char>>::empty() =~= e0);
    while i < ts.len()
        invariant
            i <= ts.len(),
            strs(errors@) == e0 + test_link_errors(ts@.take(i as int), strs(all@).to_set(), strs(existing@).to_set()),
        decreases ts.len() - i,
    {
        proof {
            assert(ts@.take(i + 1).drop_last() == ts@.take(i as int));
            assert(ts@.take(i + 1).last() == ts@[i as int]);
        }
        let t = &ts[i];
        if !has_exec(all, t.model_id.as_str()) {
            let mut m = cat3("test ", t.id.as_str(), " references unknown model ID ");
            push_str(&mut m, t.model_id.as_str());
            push_msg(errors, m);
        }
        if !has_exec(existing, t.path.as_str()) {
            push_msg(errors, cat("test file is missing: ", t.path.as_str()));
        }
        assert(strs(errors@) =~= e0 + test_link_errors(ts@.take(i + 1), strs(all@).to_set(), strs(existing@).to_set()));
        i = i + 1;
    }
    assert(ts@.take(ts.len() as int) == ts@);
}

/// A unified test's layer must be configured, and a framework it names must
/// agree with the profile's (when the profile names one).
pub open spec fn membership_errors(ts: Seq<LinkV>, layers: Seq<(Seq<char>, (Seq<char>, Seq<char>))>) -> Seq<Seq<char>>
    decreases ts.len(),
{
    if ts.len() == 0 {
        seq![]
    } else {
        let t = ts.last();
        let l = layer_name(t.3);
        membership_errors(ts.drop_last(), layers) + match pairs_get(layers, l) {
            None => seq![
                "test "@ + t.0 + " declares layer `"@ + l
                    + "`, which is not in the configured test profile (config.test.layers)"@,
            ],
            Some(cfg) => match t.4 {
                Some(fw) => if cfg.0.len() > 0 && cfg.0 != fw {
                    seq![
                        "test "@ + t.0 + " declares framework `"@ + fw + "` for layer `"@ + l
                            + "`, but the profile configures `"@ + cfg.0 + "`"@,
                    ]
                } else {
                    seq![]
                },
                None => seq![],
            },
        }
    }
}

pub fn check_membership(errors: &mut Vec<String>, ts: &Vec<TestLink>, layers: &KeyMap<TestLayerConfig>)
    ensures
        strs(final(errors)@) == strs(old(errors)@) + membership_errors(links_view(ts@), layers@),
{
    let ghost e0 = strs(errors@);
    let ghost tv = links_view(ts@);
    let mut i: usize = 0;
    assert(tv.take(0) =~= Seq::<LinkV>::empty());
    assert(e0 + Seq::<Seq<char>>::empty() =~= e0);
    while i < ts.len()
        invariant
            i <= ts.len(),
            tv == links_view(ts@),
            strs(errors@) == e0 + membership_errors(tv.take(i as int), layers@),
        decreases ts.len() - i,
    {
        let t = &ts[i];
        proof {
            assert(tv.take(i + 1).drop_last() == tv.take(i as int));
            assert(tv.take(i + 1).last() == t@);
        }
        let l = t.layer.as_str();
        let ghost e1 = strs(errors@);
        match layers.get(l) {
            None => {
                let mut m = cat3("test ", t.id.as_str(), " declares layer `");
                push_str(&mut m, l);
                push_str(&mut m, "`, which is not in the configured test profile (config.test.layers)");
                push_msg(errors, m);
            },
            Some(cfg) => {
                match &t.framework {
                    Some(fw) => {
                        if chars_of(cfg.framework.as_str()).len() > 0 && !str_eq(cfg.framework.as_str(), fw.as_str()) {
                            let mut m = cat3("test ", t.id.as_str(), " declares framework `");
                            push_str(&mut m, fw.as_str());
                            push_str(&mut m, "` for layer `");
                            push_str(&mut m, l);
                            push_str(&mut m, "`, but the profile configures `");
                            push_str(&mut m, cfg.framework.as_str());
                            push_str(&mut m, "`");
                            push_msg(errors, m);
                        } else {
                            assert(e1 + Seq::<Seq<char>>::empty() =~= e1);
                        }
                    },
                    None => {
                        assert(e1 + Seq::<Seq<char>>::empty() =~= e1);
                    },
                }
            },
        }
        assert(strs(errors@) =~= e0 + membership_errors(tv.take(i + 1), layers@));
        i = i + 1;
    }
    assert(tv.take(ts.len() as int) == tv);
}

/// Some unified test of one of the layers links the id.
pub open spec fn covered(ts: Seq<LinkV>, id: Seq<char>, l1: TestLayer, l2: TestLayer) -> bool {
    exists|i: int| 0 <= i < ts.len() && (ts[i].3 == l1 || ts[i].3 == l2) && #[trigger] ts[i].2 == id
}

/// The uncovered ids of one expectation, in order.
pub open spec fn coverage_gaps(
    ids: Seq<Seq<char>>,
    ts: Seq<LinkV>,
    l1: TestLayer,
    l2: TestLayer,
    label: Seq<char>,
) -> Seq<Seq<char>>
    decreases ids.len(),
{
    if ids.len() == 0 {
        seq![]
    } else {
        coverage_gaps(ids.drop_last(), ts, l1, l2, label) + if covered(ts, ids.last(), l1, l2) {
            seq![]
        } else {
            seq![
                "implementation-bearing "@ + ids.last() + " has no linked "@ + label
                    + " test in .mdd/trace.yml"@,
            ]
        }
    }
}

fn is_covered(ts: &Vec<TestLink>, id: &str, l1: TestLayer, l2: TestLayer) -> (b: bool)
    ensures
        b == covered(links_view(ts@), id@, l1, l2),
{
    let mut i: usize = 0;
    while i < ts.len()
        invariant
            i <= ts.len(),
            forall|k: int| 0 <= k < i ==> !((links_view(ts@)[k].3 == l1 || links_view(ts@)[k].3 == l2) && #[trigger] links_view(ts@)[k].2 == id@),
        decreases ts.len() - i,
    {
        if (ts[i].layer == l1 || ts[i].layer == l2) && str_eq(ts[i].model_id.as_str(), id) {
            assert(links_view(ts@)[i as int] == ts@[i as int]@);
            assert(links_view(ts@)[i as int].2 == id@);
            assert(links_view(ts@)[i as int].3 == l1 || links_view(ts@)[i as int].3 == l2);
            return true;
        }
        assert(links_view(ts@)[i as int] == ts@[i as int]@);
        i = i + 1;
    }
    false
}

pub fn coverage_gap_messages(
    ids: &Vec<String>,
    ts: &Vec<TestLink>,
    l1: TestLayer,
    l2: TestLayer,
    label: &str,
) -> (r: Vec<String>)
    ensures
        strs(r@) == coverage_gaps(strs(ids@), links_view(ts@), l1, l2, label@),
{
    let mut r: Vec<String> = Vec::new();
    let ghost is = strs(ids@);
    let mut i: usize = 0;
    assert(is.take(0) =~= Seq::<Seq<char>>::empty());
    assert(strs(r@) =~= Seq::<Seq<char>>::empty());
    while i < ids.len()
        invariant
            i <= ids.len(),
            is == strs(ids@),
            strs(r@) == coverage_gaps(is.take(i as int), links_view(ts@), l1, l2, label@),
        decreases ids.len() - i,
    {
        proof {
            assert(is.take(i + 1).drop_last() == is.take(i as int));
            assert(is.take(i + 1).last() == ids@[i as int]@);
        }
        if !is_covered(ts, ids[i].as_str(), l1, l2) {
            let mut m = cat("implementation-bearing ", ids[i].as_str());
            push_str(&mut m, " has no linked ");
            push_str(&mut m, label);
            push_str(&mut m, " test in .mdd/trace.yml");
            push_msg(&mut r, m);
        } else {
            assert(strs(r@) + Seq::<Seq<char>>::empty() =~= strs(r@));
        }
        assert(strs(r@) =~= coverage_gaps(is.take(i + 1), links_view(ts@), l1, l2, label@));
        i = i + 1;
    }
    assert(is.take(ids.len() as int) == is);
    r
}

/// The `CMP-` ids among `ids`, in order.
pub open spec fn component_ids_of(ids: Seq<Seq<char>>) -> Seq<Seq<char>>
    decreases ids.len(),
{
    if ids.len() == 0 {
        seq![]
    } else {
        let r = component_ids_of(ids.drop_last());
        if starts_with(ids.last(), "CMP-"@) {
            r.push(ids.last())
        } else {
            r
        }
    }
}

pub fn component_ids(ids: &Vec<String>) -> (r: Vec<String>)
    ensures
        strs(r@) == component_ids_of(strs(ids@)),
{
    let mut r: Vec<String> = Vec::new();
    let mut i: usize = 0;
    assert(strs(ids@).take(0) =~= Seq::<Seq<char>>::empty());
    assert(strs(r@) =~= Seq::<Seq<char>>::empty());
    while i < ids.len()
        invariant
            i <= ids.len(),
            strs(r@) == component_ids_of(strs(ids@).take(i as int)),
        decreases ids.len() - i,
    {
        proof {
            let t = strs(ids@).take(i + 1);
            assert(t.drop_last() == strs(ids@).take(i as int));
            assert(t.last() == ids@[i as int]@);
        }
        if crate::text::str_starts_with(ids[i].as_str(), "CMP-") {
            push_msg(&mut r, ids[i].clone());
        }
        i = i + 1;
    }
    assert(strs(ids@).take(ids.len() as int) == strs(ids@));
    r
}

// ---------------------------------------------------------------------------
// Evidence, source links, approval, plan scope

pub open spec fn gap_errors(gs: Seq<GapTest>, name: Seq<char>, all: Set<Seq<char>>) -> Seq<Seq<char>>
    decreases gs.len(),
{
    if gs.len() == 0 {
        seq![]
    } else {
        let g = gs.last();
        let pre = "test-evidence.yml (cycle "@ + name + ") gap test "@ + g.id@;
        gap_errors(gs.drop_last(), name, all) + (if all.contains(g.model_id@) {
            seq![]
        } else {
            seq![pre + " references unknown model ID "@ + g.model_id@]
        }) + (match g.red {
            Some(r) => if r.result != TestPhaseResult::Fail || r.exit_code == 0 {
                seq![pre + ": red phase must be a failure (result=fail, exit_code != 0)"@]
            } else {
                seq![]
            },
            None => seq![],
        }) + (match g.green {
            Some(r) => if r.result != TestPhaseResult::Pass || r.exit_code != 0 {
                seq![pre + ": green phase must be a pass (result=pass, exit_code == 0)"@]
            } else {
                seq![]
            },
            None => seq![],
        })
    }
}

/// The shape errors of each cycle's evidence file (by cycle name, in
/// order): unparseable, or a gap test naming an unknown id, a red phase that
/// is not a failure, or a green phase that is not a pass.
pub open spec fn evidence_errors(evs: Seq<(String, Result<TestEvidence, String>)>, all: Set<Seq<char>>) -> Seq<Seq<char>>
    decreases evs.len(),
{
    if evs.len() == 0 {
        seq![]
    } else {
        let (name, r) = evs.last();
        evidence_errors(evs.drop_last(), all) + match r {
            Err(e) => seq!["test-evidence.yml in cycle "@ + name@ + " is malformed: "@ + e@],
            Ok(ev) => gap_errors(ev.gap_tests@, name@, all),
        }
    }
}

fn check_gaps(errors: &mut Vec<String>, gs: &Vec<GapTest>, name: &str, all: &Vec<String>)
    ensures
        strs(final(errors)@) == strs(old(errors)@) + gap_errors(gs@, name@, strs(all@).to_set()),
{
    let ghost e0 = strs(errors@);
    let mut i: usize = 0;
    assert(gs@.take(0) =~= Seq::<GapTest>::empty());
    assert(e0 + Seq::<Seq<char>>::empty() =~= e0);
    while i < gs.len()
        invariant
            i <= gs.len(),
            strs(errors@) == e0 + gap_errors(gs@.take(i as int), name@, strs(all@).to_set()),
        decreases gs.len() - i,
    {
        proof {
            assert(gs@.take(i + 1).drop_last() == gs@.take(i as int));
            assert(gs@.take(i + 1).last() == gs@[i as int]);
        }
        let g = &gs[i];
        let mut pre = cat3("test-evidence.yml (cycle ", name, ") gap test ");
        push_str(&mut pre, g.id.as_str());
        if !has_exec(all, g.model_id.as_str()) {
            let mut m = cat(pre.as_str(), " references unknown model ID ");
            push_str(&mut m, g.model_id.as_str());
            push_msg(errors, m);
        }
        match &g.red {
            Some(r) => {
                if r.result != TestPhaseResult::Fail || r.exit_code == 0 {
                    push_msg(errors, cat(pre.as_str(), ": red phase must be a failure (result=fail, exit_code != 0)"));
                }
            },
            None => {},
        }
        match &g.green {
            Some(r) => {
                if r.result != TestPhaseResult::Pass || r.exit_code != 0 {
                    push_msg(errors, cat(pre.as_str(), ": green phase must be a pass (result=pass, exit_code == 0)"));
                }
            },
            None => {},
        }
        assert(strs(errors@) =~= e0 + gap_errors(gs@.take(i + 1), name@, strs(all@).to_set()));
        i = i + 1;
    }
    assert(gs@.take(gs.len() as int) == gs@);
}

pub fn check_evidence(errors: &mut Vec<String>, evs: &Vec<(String, Result<TestEvidence, String>)>, all: &Vec<String>)
    ensures
        strs(final(errors)@) == strs(old(errors)@) + evidence_errors(evs@, strs(all@).to_set()),
{
    let ghost e0 = strs(errors@);
    let mut i: usize = 0;
    assert(evs@.take(0) =~= Seq::<(String, Result<TestEvidence, String>)>::empty());
    assert(e0 + Seq::<Seq<char>>::empty() =~= e0);
    while i < evs.len()
        invariant
            i <= evs.len(),
            strs(errors@) == e0 + evidence_errors(evs@.take(i as int), strs(all@).to_set()),
        decreases evs.len() - i,
    {
        proof {
            assert(evs@.take(i + 1).drop_last() == evs@.take(i as int));
            assert(evs@.take(i + 1).last() == evs@[i as int]);
        }
        let name = evs[i].0.as_str();
        let ghost e1 = strs(errors@);
        match &evs[i].1 {
            Err(e) => {
                let mut m = cat3("test-evidence.yml in cycle ", name, " is malformed: ");
                push_str(&mut m, e.as_str());
                push_msg(errors, m);
            },
            Ok(ev) => {
                check_gaps(errors, &ev.gap_tests, name, all);
            },
        }
        assert(strs(errors@) =~= e0 + evidence_errors(evs@.take(i + 1), strs(all@).to_set()));
        i = i + 1;
    }
    assert(evs@.take(evs.len() as int) == evs@);
}

/// Source links must name known ids and resolve (`resolved[i]` is the
/// resolution error of link `i`, if any).
pub open spec fn source_link_errors(links: Seq<SourceLink>, resolved: Seq<Option<String>>, all: Set<Seq<char>>) -> Seq<Seq<char>>
    decreases links.len(),
{
    if links.len() == 0 {
        seq![]
    } else {
        let n = links.len() - 1;
        source_link_errors(links.drop_last(), resolved, all) + (if all.contains(links[n].model_id@) {
            seq![]
        } else {
            seq!["source_link references unknown model ID "@ + links[n].model_id@]
        }) + match resolved[n] {
            Some(e) => seq![e@],
            None => seq![],
        }
    }
}

pub fn check_source_links(errors: &mut Vec<String>, links: &Vec<SourceLink>, resolved: &Vec<Option<String>>, all: &Vec<String>)
    requires
        resolved@.len() == links@.len(),
    ensures
        strs(final(errors)@) == strs(old(errors)@) + source_link_errors(links@, resolved@, strs(all@).to_set()),
{
    let ghost e0 = strs(errors@);
    let mut i: usize = 0;
    assert(links@.take(0) =~= Seq::<SourceLink>::empty());
    assert(e0 + Seq::<Seq<char>>::empty() =~= e0);
    while i < links.len()
        invariant
            i <= links.len(),
            resolved@.len() == links@.len(),
            strs(errors@) == e0 + source_link_errors(links@.take(i as int), resolved@, strs(all@).to_set()),
        decreases links.len() - i,
    {
        proof {
            assert(links@.take(i + 1).drop_last() == links@.take(i as int));
            assert(links@.take(i + 1)[i as int] == links@[i as int]);
        }
        let ghost e1 = strs(errors@);
        if !has_exec(all, links[i].model_id.as_str()) {
            push_msg(errors, cat("source_link references unknown model ID ", links[i].model_id.as_str()));
        }
        match &resolved[i] {
            Some(e) => push_msg(errors, e.clone()),
            None => {},
        }
        assert(strs(errors@) =~= e0 + source_link_errors(links@.take(i + 1), resolved@, strs(all@).to_set()));
        i = i + 1;
    }
    assert(links@.take(links.len() as int) == links@);
}

/// An objective id a PLAN item must realize.
pub open spec fn implementation_bearing(id: Seq<char>) -> bool {
    starts_with(id, "USE-"@) || starts_with(id, "SEQ-"@) || starts_with(id, "DOM-"@) || starts_with(id, "CMP-"@)
        || starts_with(id, "STM-"@) || starts_with(id, "MCK-"@)
}

pub open spec fn unknown_scope_warnings(scopes: Seq<Seq<char>>, objective: Set<Seq<char>>) -> Seq<Seq<char>>
    decreases scopes.len(),
{
    if scopes.len() == 0 {
        seq![]
    } else {
        unknown_scope_warnings(scopes.drop_last(), objective) + if objective.contains(scopes.last()) {
            seq![]
        } else {
            seq!["PLAN.md @scope references unknown objective @id "@ + scopes.last()]
        }
    }
}

pub open spec fn uncovered_scope_warnings(ids: Seq<ModelElement>, scope: Set<Seq<char>>) -> Seq<Seq<char>>
    decreases ids.len(),
{
    if ids.len() == 0 {
        seq![]
    } else {
        let e = ids.last();
        uncovered_scope_warnings(ids.drop_last(), scope) + if e.side == ModelSide::Objective
            && implementation_bearing(e.id@) && !scope.contains(e.id@) {
            seq![
                "PLAN.md @scope union does not cover objective @id "@ + e.id@
                    + " (no PLAN item realizes it)"@,
            ]
        } else {
            seq![]
        }
    }
}

fn is_implementation_bearing(id: &str) -> (b: bool)
    ensures
        b == implementation_bearing(id@),
{
    crate::text::str_starts_with(id, "USE-") || crate::text::str_starts_with(id, "SEQ-")
        || crate::text::str_starts_with(id, "DOM-") || crate::text::str_starts_with(id, "CMP-")
        || crate::text::str_starts_with(id, "STM-") || crate::text::str_starts_with(id, "MCK-")
}

/// The PLAN scope warnings: scope ids that name no objective id, then
/// implementation-bearing objective ids no scope covers.
pub fn check_plan_scopes(warnings: &mut Vec<String>, scopes: &Vec<String>, ids: &Vec<ModelElement>, objective: &Vec<String>)
    ensures
        strs(final(warnings)@) == strs(old(warnings)@) + unknown_scope_warnings(strs(scopes@), strs(objective@).to_set())
            + uncovered_scope_warnings(ids@, strs(scopes@).to_set()),
{
    let ghost e0 = strs(warnings@);
    let ghost ss = strs(scopes@);
    let mut i: usize = 0;
    assert(ss.take(0) =~= Seq::<Seq<char>>::empty());
    assert(e0 + Seq::<Seq<char>>::empty() =~= e0);
    while i < scopes.len()
        invariant
            i <= scopes.len(),
            ss == strs(scopes@),
            strs(warnings@) == e0 + unknown_scope_warnings(ss.take(i as int), strs(objective@).to_set()),
        decreases scopes.len() - i,
    {
        proof {
            assert(ss.take(i + 1).drop_last() == ss.take(i as int));
            assert(ss.take(i + 1).last() == scopes@[i as int]@);
        }
        if !has_exec(objective, scopes[i].as_str()) {
            push_msg(warnings, cat("PLAN.md @scope references unknown objective @id ", scopes[i].as_str()));
        } else {
            assert(strs(warnings@) + Seq::<Seq<char>>::empty() =~= strs(warnings@));
        }
        assert(strs(warnings@) =~= e0 + unknown_scope_warnings(ss.take(i + 1), strs(objective@).to_set()));
        i = i + 1;
    }
    assert(ss.take(scopes.len() as int) == ss);
    let ghost e1 = strs(warnings@);
    let mut k: usize = 0;
    assert(ids@.take(0) =~= Seq::<ModelElement>::empty());
    assert(e1 + Seq::<Seq<char>>::empty() =~= e1);
    while k < ids.len()
        invariant
            k <= ids.len(),
            ss == strs(scopes@),
            strs(warnings@) == e1 + uncovered_scope_warnings(ids@.take(k as int), ss.to_set()),
        decreases ids.len() - k,
    {
        proof {
            assert(ids@.take(k + 1).drop_last() == ids@.take(k as int));
            assert(ids@.take(k + 1).last() == ids@[k as int]);
        }
        let e = &ids[k];
        if e.side == ModelSide::Objective && is_implementation_bearing(e.id.as_str()) && !has_exec(scopes, e.id.as_str()) {
            let mut m = cat("PLAN.md @scope union does not cover objective @id ", e.id.as_str());
            push_str(&mut m, " (no PLAN item realizes it)");
            push_msg(warnings, m);
        } else {
            assert(strs(warnings@) + Seq::<Seq<char>>::empty() =~= strs(warnings@));
        }
        assert(strs(warnings@) =~= e1 + uncovered_scope_warnings(ids@.take(k + 1), ss.to_set()));
        k = k + 1;
    }
    assert(ids@.take(ids.len() as int) == ids@);
}

// ---------------------------------------------------------------------------
// The whole validation

/// What validation reads: the registry and each registry file's content
/// (none for constraint files), the trace and configuration, which of the
/// paths named by tests exist, each cycle's evidence file (parsed, or the
/// parse error) in cycle order, each source link's resolution error, the
/// approval status when approval is checked, and the Ralph plan's text.
pub struct ValidationInput {
    pub registry: ModelRegistry,
    pub contents: Vec<Option<String>>,
    pub trace: Trace,
    pub config: MddConfig,
    pub existing_paths: Vec<String>,
    pub evidence: Vec<(String, Result<TestEvidence, String>)>,
    pub source_link_errors: Vec<Option<String>>,
    pub approval: Option<ApprovalStatus>,
    pub plan: Option<String>,
}

pub open spec fn sorted_ids(ids: Seq<ModelElement>, kind: Option<ModelKind>, side: Option<ModelSide>) -> Seq<Seq<char>> {
    crate::cycle::sorted_of(ids_where(ids, kind, side))
}

pub open spec fn scan_of(inp: ValidationInput) -> ScanV {
    files_fold(Scan::new_view(), inp.registry.files@, contents_view(inp.contents@), inp.registry.ids@)
}

pub open spec fn head_errors(ids: Seq<ModelElement>, nfiles: nat) -> Seq<Seq<char>> {
    (if nfiles == 0 {
        seq!["no model or constraint files found"@]
    } else {
        seq![]
    }) + (if ids_where(ids, Some(ModelKind::UseCase), None) == Set::<Seq<char>>::empty() {
        seq!["no use case model IDs found under .mdd/models/(current|objective)/use-cases"@]
    } else {
        seq![]
    }) + (if ids_where(ids, Some(ModelKind::Sequence), None) == Set::<Seq<char>>::empty() {
        seq!["no sequence model IDs found under .mdd/models/(current|objective)/sequences"@]
    } else {
        seq![]
    }) + (if ids_where(ids, Some(ModelKind::Domain), None) == Set::<Seq<char>>::empty() {
        seq!["no domain model IDs found under .mdd/models/(current|objective)/domain"@]
    } else {
        seq![]
    })
}

/// The coverage gaps of every expectation, in order.
pub open spec fn coverage_all(ids: Seq<ModelElement>, ts: Seq<LinkV>) -> Seq<Seq<char>> {
    coverage_gaps(sorted_ids(ids, Some(ModelKind::Domain), None), ts, TestLayer::Unit, TestLayer::Unit, "unit"@)
        + coverage_gaps(sorted_ids(ids, Some(ModelKind::Sequence), None), ts, TestLayer::Integration, TestLayer::Integration, "integration"@)
        + coverage_gaps(component_ids_of(sorted_ids(ids, None, None)), ts, TestLayer::Integration, TestLayer::Integration, "integration"@)
        + coverage_gaps(sorted_ids(ids, Some(ModelKind::UseCase), None), ts, TestLayer::E2e, TestLayer::Acceptance, "e2e/acceptance"@)
        + coverage_gaps(sorted_ids(ids, Some(ModelKind::Mockup), None), ts, TestLayer::Ui, TestLayer::Ui, "ui"@)
}

pub open spec fn plan_scope_spec(plan: Option<String>) -> Seq<Seq<char>> {
    match plan {
        Some(c) => crate::cycle::sorted_of(crate::markers::all_scope_ids(captures(Pat::Body("@scope("@), c@)).to_set()),
        None => seq![],
    }
}

pub open spec fn errors_a(inp: ValidationInput) -> Seq<Seq<char>> {
    let ids = inp.registry.ids@;
    let all = ids_where(ids, None, None);
    let scan = scan_of(inp);
    head_errors(ids, inp.registry.files@.len()) + scan.0 + duplicate_errors(ids, scan.5) + link_errors(inp.trace.links@, all)
        + use_case_errors(sorted_ids(ids, Some(ModelKind::UseCase), None), inp.trace.links@, ids_where(ids, Some(ModelKind::Sequence), None))
}

pub open spec fn errors_b(inp: ValidationInput) -> Seq<Seq<char>> {
    let ids = inp.registry.ids@;
    let all = ids_where(ids, None, None);
    let existing = strs(inp.existing_paths@).to_set();
    let scan = scan_of(inp);
    gen_test_errors(inp.trace.generated_tests@, all, existing)
        + gen_ui_errors(inp.trace.generated_ui_tests@, all, ids_where(ids, Some(ModelKind::Mockup), None), existing)
        + missing_playwright(crate::cycle::sorted_of(scan.4), inp.trace.generated_ui_tests@)
        + test_link_errors(inp.trace.tests@, all, existing)
}

pub open spec fn errors_c(inp: ValidationInput) -> Seq<Seq<char>> {
    let ids = inp.registry.ids@;
    let layers = inp.config.test.layers@;
    let unified = crate::model::unified_spec(inp.trace);
    if layers.len() > 0 {
        membership_errors(unified, layers) + if inp.config.test.gate == ParityMode::Error {
            coverage_all(ids, unified)
        } else {
            seq![]
        }
    } else {
        seq![]
    }
}

pub open spec fn errors_d(inp: ValidationInput) -> Seq<Seq<char>> {
    let all = ids_where(inp.registry.ids@, None, None);
    evidence_errors(inp.evidence@, all) + source_link_errors(inp.trace.source_links@, inp.source_link_errors@, all)
}

/// Every validation error, in the order the checks run.
pub open spec fn validation_errors(inp: ValidationInput) -> Seq<Seq<char>> {
    errors_a(inp) + errors_b(inp) + errors_c(inp) + errors_d(inp)
}

/// Every validation warning, in order.
pub open spec fn validation_warnings(inp: ValidationInput) -> Seq<Seq<char>> {
    let ids = inp.registry.ids@;
    let scan = scan_of(inp);
    let layers = inp.config.test.layers@;
    let unified = crate::model::unified_spec(inp.trace);
    let scopes = plan_scope_spec(inp.plan);
    missing_security_tests(crate::cycle::sorted_of(scan.6), inp.trace.generated_tests@)
        + (if layers.len() > 0 && inp.config.test.gate != ParityMode::Error {
            coverage_all(ids, unified)
        } else {
            seq![]
        })
        + (match inp.approval {
            Some(a) => if a.approved && !a.current {
                strs(a.errors@)
            } else {
                seq![]
            },
            None => seq![],
        })
        + (if inp.trace.links@.len() == 0 {
            seq!["trace.yml has no model-to-model links yet"@]
        } else {
            seq![]
        })
        + (if scopes.len() > 0 {
            unknown_scope_warnings(scopes, ids_where(ids, None, Some(ModelSide::Objective)))
                + uncovered_scope_warnings(ids, scopes.to_set())
        } else {
            seq![]
        })
}

proof fn lemma_link_errors_report(links: Seq<TraceLink>, all: Set<Seq<char>>, k: int)
    requires
        0 <= k < links.len(),
    ensures
        !all.contains(links[k].from@) ==> link_errors(links, all).contains(
            "trace link references unknown source ID: "@ + links[k].from@,
        ),
        !all.contains(links[k].to@) ==> link_errors(links, all).contains(
            "trace link references unknown target ID: "@ + links[k].to@,
        ),
    decreases links.len(),
{
    let l = links.last();
    let rest = link_errors(links.drop_last(), all);
    let a = if all.contains(l.from@) {
        Seq::<Seq<char>>::empty()
    } else {
        seq!["trace link references unknown source ID: "@ + l.from@]
    };
    let b = if all.contains(l.to@) {
        Seq::<Seq<char>>::empty()
    } else {
        seq!["trace link references unknown target ID: "@ + l.to@]
    };
    assert(link_errors(links, all) == rest + a + b);
    if k < links.len() - 1 {
        lemma_link_errors_report(links.drop_last(), all, k);
        assert(links.drop_last()[k] == links[k]);
        if !all.contains(links[k].from@) {
            let m = "trace link references unknown source ID: "@ + links[k].from@;
            let j = choose|j: int| 0 <= j < rest.len() && rest[j] == m;
            assert((rest + a + b)[j] == m);
        }
        if !all.contains(links[k].to@) {
            let m = "trace link references unknown target ID: "@ + links[k].to@;
            let j = choose|j: int| 0 <= j < rest.len() && rest[j] == m;
            assert((rest + a + b)[j] == m);
        }
    } else {
        if !all.contains(l.from@) {
            assert((rest + a + b)[rest.len() as int] == a[0]);
        }
        if !all.contains(l.to@) {
            assert((rest + a + b)[(rest.len() + a.len()) as int] == b[0]);
        }
    }
}

/// A trace link whose source or target is the id of no model element is
/// reported: validation's errors name the unknown end, so such a project
/// never validates.
pub proof fn lemma_unknown_link_ends_reported(inp: ValidationInput, k: int)
    requires
        0 <= k < inp.trace.links@.len(),
    ensures
        (forall|i: int| 0 <= i < inp.registry.ids@.len() ==> #[trigger] inp.registry.ids@[i].id@
            != inp.trace.links@[k].to@) ==> validation_errors(inp).contains(
            "trace link references unknown target ID: "@ + inp.trace.links@[k].to@,
        ),
        (forall|i: int| 0 <= i < inp.registry.ids@.len() ==> #[trigger] inp.registry.ids@[i].id@
            != inp.trace.links@[k].from@) ==> validation_errors(inp).contains(
            "trace link references unknown source ID: "@ + inp.trace.links@[k].from@,
        ),
{
    let ids = inp.registry.ids@;
    let all = ids_where(ids, None, None);
    let links = inp.trace.links@;
    lemma_link_errors_report(links, all, k);
    let le = link_errors(links, all);
    let ea = errors_a(inp);
    let ids_ = inp.registry.ids@;
    let scan = scan_of(inp);
    let pre = head_errors(ids_, inp.registry.files@.len()) + scan.0 + duplicate_errors(ids_, scan.5);
    let post = use_case_errors(sorted_ids(ids_, Some(ModelKind::UseCase), None), links, ids_where(ids_, Some(ModelKind::Sequence), None));
    assert(ea == pre + le + post);
    let whole = validation_errors(inp);
    assert(whole == ea + errors_b(inp) + errors_c(inp) + errors_d(inp));
    let msgs = seq![
        "trace link references unknown target ID: "@ + links[k].to@,
        "trace link references unknown source ID: "@ + links[k].from@,
    ];
    assert forall|t: int| 0 <= t < 2 && le.contains(#[trigger] msgs[t]) implies whole.contains(msgs[t]) by {
        let j = choose|j: int| 0 <= j < le.len() && le[j] == msgs[t];
        assert(ea[pre.len() + j] == msgs[t]);
        assert(whole[pre.len() + j] == msgs[t]);
    }
    if forall|i: int| 0 <= i < ids.len() ==> #[trigger] ids[i].id@ != links[k].to@ {
        assert(!all.contains(links[k].to@));
        assert(le.contains(msgs[0]));
    }
    if forall|i: int| 0 <= i < ids.len() ==> #[trigger] ids[i].id@ != links[k].from@ {
        assert(!all.contains(links[k].from@));
        assert(le.contains(msgs[1]));
    }
}

proof fn lemma_set_empty_iff(s: Seq<Seq<char>>)
    ensures
        (s.len() == 0) == (s.to_set() == Set::<Seq<char>>::empty()),
{
    if s.len() > 0 {
        assert(s.to_set().contains(s[0]));
    } else {
        assert(s.to_set() =~= Set::<Seq<char>>::empty());
    }
}

/// A copy of a list of strings.
pub fn clone_strings(v: &Vec<String>) -> (r: Vec<String>)
    ensures
        strs(r@) == strs(v@),
{
    let mut r: Vec<String> = Vec::new();
    let mut i: usize = 0;
    while i < v.len()
        invariant
            i <= v.len(),
            strs(r@) == strs(v@).take(i as int),
        decreases v.len() - i,
    {
        push_msg(&mut r, v[i].clone());
        assert(strs(v@).take(i + 1) =~= strs(v@).take(i as int).push(v@[i as int]@));
        i = i + 1;
    }
    assert(strs(v@).take(v.len() as int) == strs(v@));
    r
}

proof fn lemma_is_sorted_of(s: Seq<Seq<char>>)
    requires
        strictly_sorted(s),
    ensures
        s == crate::cycle::sorted_of(s.to_set()),
{
    let q = crate::cycle::sorted_of(s.to_set());
    assert(strictly_sorted(s) && s.to_set() == s.to_set());
    crate::order::lemma_sorted_unique(s, q);
}

fn append(errors: &mut Vec<String>, more: Vec<String>)
    ensures
        strs(final(errors)@) == strs(old(errors)@) + strs(more@),
{
    let ghost e0 = strs(errors@);
    let mut i: usize = 0;
    assert(strs(more@).take(0) =~= Seq::<Seq<char>>::empty());
    assert(e0 + Seq::<Seq<char>>::empty() =~= e0);
    while i < more.len()
        invariant
            i <= more.len(),
            strs(errors@) == e0 + strs(more@).take(i as int),
        decreases more.len() - i,
    {
        push_msg(errors, more[i].clone());
        assert(strs(more@).take(i + 1) =~= strs(more@).take(i as int).push(more@[i as int]@));
        i = i + 1;
    }
    assert(strs(more@).take(more.len() as int) == strs(more@));
}

/// What the file scan and the id sets give the later checks.
pub struct Prepared {
    pub ucs: Vec<String>,
    pub seqs: Vec<String>,
    pub doms: Vec<String>,
    pub mcks: Vec<String>,
    pub sets: IdSets,
    pub scan: Scan,
}

impl Prepared {
    pub open spec fn of(&self, inp: ValidationInput) -> bool {
        let ids = inp.registry.ids@;
        &&& strs(self.ucs@) == sorted_ids(ids, Some(ModelKind::UseCase), None)
        &&& strs(self.seqs@) == sorted_ids(ids, Some(ModelKind::Sequence), None)
        &&& strs(self.doms@) == sorted_ids(ids, Some(ModelKind::Domain), None)
        &&& strs(self.mcks@) == sorted_ids(ids, Some(ModelKind::Mockup), None)
        &&& strs(self.seqs@).to_set() == ids_where(ids, Some(ModelKind::Sequence), None)
        &&& strs(self.mcks@).to_set() == ids_where(ids, Some(ModelKind::Mockup), None)
        &&& strs(self.ucs@).to_set() == ids_where(ids, Some(ModelKind::UseCase), None)
        &&& strs(self.doms@).to_set() == ids_where(ids, Some(ModelKind::Domain), None)
        &&& self.sets.of(ids)
        &&& strs(self.sets.all@) == sorted_ids(ids, None, None)
        &&& strs(self.sets.objective@) == sorted_ids(ids, None, Some(ModelSide::Objective))
        &&& self.scan.wf()
        &&& self.scan.view() == scan_of(inp)
        &&& strs(self.scan.ready_mockups@) == crate::cycle::sorted_of(scan_of(inp).4)
        &&& strs(self.scan.sec_ready@) == crate::cycle::sorted_of(scan_of(inp).6)
    }
}

fn prepare(input: &ValidationInput) -> (p: Prepared)
    requires
        input.contents@.len() == input.registry.files@.len(),
    ensures
        p.of(*input),
{
    let ids = &input.registry.ids;
    let ucs = collect_ids(ids, Some(ModelKind::UseCase), None);
    let seqs = collect_ids(ids, Some(ModelKind::Sequence), None);
    let doms = collect_ids(ids, Some(ModelKind::Domain), None);
    let mcks = collect_ids(ids, Some(ModelKind::Mockup), None);
    let sets = IdSets::build(ids);
    let scan = scan_files(&input.registry.files, &input.contents, ids, &sets);
    proof {
        lemma_is_sorted_of(strs(ucs@));
        lemma_is_sorted_of(strs(seqs@));
        lemma_is_sorted_of(strs(doms@));
        lemma_is_sorted_of(strs(mcks@));
        lemma_is_sorted_of(strs(sets.all@));
        lemma_is_sorted_of(strs(sets.objective@));
        lemma_is_sorted_of(strs(scan.ready_mockups@));
        lemma_is_sorted_of(strs(scan.sec_ready@));
    }
    Prepared { ucs, seqs, doms, mcks, sets, scan }
}

fn run_errors_a(input: &ValidationInput, p: &Prepared) -> (r: Vec<String>)
    requires
        p.of(*input),
    ensures
        strs(r@) == errors_a(*input),
{
    let ids = &input.registry.ids;
    let mut errors: Vec<String> = Vec::new();
    assert(strs(errors@) =~= Seq::<Seq<char>>::empty());
    if input.registry.files.len() == 0 {
        push_msg(&mut errors, owned("no model or constraint files found"));
    }
    if p.ucs.len() == 0 {
        push_msg(&mut errors, owned("no use case model IDs found under .mdd/models/(current|objective)/use-cases"));
    }
    if p.seqs.len() == 0 {
        push_msg(&mut errors, owned("no sequence model IDs found under .mdd/models/(current|objective)/sequences"));
    }
    if p.doms.len() == 0 {
        push_msg(&mut errors, owned("no domain model IDs found under .mdd/models/(current|objective)/domain"));
    }
    proof {
        lemma_set_empty_iff(strs(p.ucs@));
        lemma_set_empty_iff(strs(p.seqs@));
        lemma_set_empty_iff(strs(p.doms@));
        assert(strs(errors@) =~= head_errors(ids@, input.registry.files@.len()));
    }
    append(&mut errors, clone_strings(&p.scan.errors));
    let dups = duplicate_id_errors(ids, &p.scan.sec_regs);
    append(&mut errors, dups);
    check_links(&mut errors, &input.trace.links, &p.sets.all);
    check_use_case_links(&mut errors, &p.ucs, &input.trace.links, &p.seqs);
    errors
}

fn run_errors_b(input: &ValidationInput, p: &Prepared) -> (r: Vec<String>)
    requires
        p.of(*input),
    ensures
        strs(r@) == errors_b(*input),
{
    let trace = &input.trace;
    let mut errors: Vec<String> = Vec::new();
    assert(strs(errors@) =~= Seq::<Seq<char>>::empty());
    check_generated_tests(&mut errors, &trace.generated_tests, &p.sets.all, &input.existing_paths);
    check_generated_ui_tests(&mut errors, &trace.generated_ui_tests, &p.sets.all, &p.mcks, &input.existing_paths);
    check_ready_mockups(&mut errors, &p.scan.ready_mockups, &trace.generated_ui_tests);
    check_test_links(&mut errors, &trace.tests, &p.sets.all, &input.existing_paths);
    errors
}

/// The coverage gaps of every expectation.
fn run_coverage(input: &ValidationInput, p: &Prepared, unified: &Vec<TestLink>) -> (r: Vec<String>)
    requires
        p.of(*input),
        links_view(unified@) == crate::model::unified_spec(input.trace),
    ensures
        strs(r@) == coverage_all(input.registry.ids@, crate::model::unified_spec(input.trace)),
{
    let comps = component_ids(&p.sets.all);
    let mut gaps = coverage_gap_messages(&p.doms, unified, TestLayer::Unit, TestLayer::Unit, "unit");
    append(&mut gaps, coverage_gap_messages(&p.seqs, unified, TestLayer::Integration, TestLayer::Integration, "integration"));
    append(&mut gaps, coverage_gap_messages(&comps, unified, TestLayer::Integration, TestLayer::Integration, "integration"));
    append(&mut gaps, coverage_gap_messages(&p.ucs, unified, TestLayer::E2e, TestLayer::Acceptance, "e2e/acceptance"));
    append(&mut gaps, coverage_gap_messages(&p.mcks, unified, TestLayer::Ui, TestLayer::Ui, "ui"));
    gaps
}

fn run_errors_c(input: &ValidationInput, p: &Prepared) -> (r: Vec<String>)
    requires
        p.of(*input),
    ensures
        strs(r@) == errors_c(*input),
{
    let mut errors: Vec<String> = Vec::new();
    assert(strs(errors@) =~= Seq::<Seq<char>>::empty());
    let layers = &input.config.test.layers;
    if layers.len() > 0 {
        let unified = input.trace.unified_tests();
        check_membership(&mut errors, &unified, layers);
        if input.config.test.gate == ParityMode::Error {
            let gaps = run_coverage(input, p, &unified);
            append(&mut errors, gaps);
        } else {
            assert(strs(errors@) + Seq::<Seq<char>>::empty() =~= strs(errors@));
        }
    }
    errors
}

fn run_errors_d(input: &ValidationInput, p: &Prepared) -> (r: Vec<String>)
    requires
        p.of(*input),
        input.source_link_errors@.len() == input.trace.source_links@.len(),
    ensures
        strs(r@) == errors_d(*input),
{
    let mut errors: Vec<String> = Vec::new();
    assert(strs(errors@) =~= Seq::<Seq<char>>::empty());
    check_evidence(&mut errors, &input.evidence, &p.sets.all);
    check_source_links(&mut errors, &input.trace.source_links, &input.source_link_errors, &p.sets.all);
    errors
}

fn run_warnings(input: &ValidationInput, p: &Prepared) -> (r: Vec<String>)
    requires
        p.of(*input),
    ensures
        strs(r@) == validation_warnings(*input),
{
    let trace = &input.trace;
    let mut warnings: Vec<String> = Vec::new();
    assert(strs(warnings@) =~= Seq::<Seq<char>>::empty());
    check_ready_security(&mut warnings, &p.scan.sec_ready, &trace.generated_tests);
    let layers = &input.config.test.layers;
    if layers.len() > 0 && input.config.test.gate != ParityMode::Error {
        let unified = trace.unified_tests();
        let gaps = run_coverage(input, p, &unified);
        append(&mut warnings, gaps);
    } else {
        assert(strs(warnings@) + Seq::<Seq<char>>::empty() =~= strs(warnings@));
    }
    let ghost w1 = strs(warnings@);
    match &input.approval {
        Some(a) => {
            if a.approved && !a.current {
                append(&mut warnings, clone_strings(&a.errors));
            } else {
                assert(w1 + Seq::<Seq<char>>::empty() =~= w1);
            }
        },
        None => {
            assert(w1 + Seq::<Seq<char>>::empty() =~= w1);
        },
    }
    let ghost w2 = strs(warnings@);
    if trace.links.len() == 0 {
        push_msg(&mut warnings, owned("trace.yml has no model-to-model links yet"));
        assert(strs(warnings@) =~= w2 + seq!["trace.yml has no model-to-model links yet"@]);
    } else {
        assert(w2 + Seq::<Seq<char>>::empty() =~= w2);
    }
    let scopes = match &input.plan {
        Some(c) => crate::markers::extract_scope_ids(c.as_str()),
        None => Vec::new(),
    };
    proof {
        lemma_is_sorted_of(strs(scopes@));
        if input.plan is None {
            assert(strs(scopes@) =~= Seq::<Seq<char>>::empty());
        }
    }
    let ghost w3 = strs(warnings@);
    if scopes.len() > 0 {
        check_plan_scopes(&mut warnings, &scopes, &input.registry.ids, &p.sets.objective);
    } else {
        assert(w3 + Seq::<Seq<char>>::empty() =~= w3);
    }
    warnings
}

impl crate::project::Project {
    /// Structural validation of the models, the trace and the test records
    /// (see `validation_errors` and `validation_warnings` for every rule and
    /// its order); the report is ok exactly when there is no error.
    pub fn validate(&self, input: ValidationInput) -> (r: ValidationReport)
        requires
            input.contents@.len() == input.registry.files@.len(),
            input.source_link_errors@.len() == input.trace.source_links@.len(),
        ensures
            strs(r.errors@) == validation_errors(input),
            strs(r.warnings@) == validation_warnings(input),
            r.ok == (r.errors@.len() == 0),
            r.registry == input.registry,
    {
        let p = prepare(&input);
        let mut errors = run_errors_a(&input, &p);
        append(&mut errors, run_errors_b(&input, &p));
        append(&mut errors, run_errors_c(&input, &p));
        append(&mut errors, run_errors_d(&input, &p));
        let warnings = run_warnings(&input, &p);
        let ok = errors.len() == 0;
        ValidationReport { ok, errors, warnings, registry: input.registry }
    }
}

} // verus!
