//! The scaffolds of generated tests: Gherkin features for use cases and
//! security markers, and Playwright specs for mockup contracts.
use vstd::prelude::*;
use crate::markers::{ElementV, MockupContract, UiElementContract, UiViewport, elements_view, viewports_view};
use crate::strings::{KeyMap, ParamMap, decimal, decimal_string, pairs_get, replace, replace_str};
use crate::text::{cat, cat3, chars_of, owned, push_str, split_char, split_char_exec, str_eq, string_of, strs, vviews};

verus! {

/// A parameter's value, or `default` when it is absent.
pub open spec fn get_or(params: Seq<(Seq<char>, Seq<char>)>, key: Seq<char>, default: Seq<char>) -> Seq<char> {
    match pairs_get(params, key) {
        Some(v) => v,
        None => default,
    }
}

fn param_or(params: &ParamMap, key: &str, default: &str) -> (r: String)
    ensures
        r@ == get_or(params@, key@, default@),
{
    match params.get(key) {
        Some(v) => v.clone(),
        None => owned(default),
    }
}

pub open spec fn acceptance_spec(test_id: Seq<char>, model_id: Seq<char>) -> Seq<char> {
    "@model:"@ + model_id + "\n@test:"@ + test_id + "\nFeature: "@ + model_id
        + "\n\n  Scenario: Modeled behavior is implemented\n    Given the model element \""@ + model_id
        + "\"\n    When the feature is exercised through its public interface\n    Then the observable behavior matches the model\n"@
}

/// The acceptance feature of a use case.
pub fn acceptance_test_scaffold(test_id: &str, model_id: &str) -> (r: String)
    ensures
        r@ == acceptance_spec(test_id@, model_id@),
{
    let mut r = cat3("@model:", model_id, "\n@test:");
    push_str(&mut r, test_id);
    push_str(&mut r, "\nFeature: ");
    push_str(&mut r, model_id);
    push_str(&mut r, "\n\n  Scenario: Modeled behavior is implemented\n    Given the model element \"");
    push_str(&mut r, model_id);
    push_str(
        &mut r,
        "\"\n    When the feature is exercised through its public interface\n    Then the observable behavior matches the model\n",
    );
    r
}

pub open spec fn header_spec(
    stereotype: Seq<char>,
    test_id: Seq<char>,
    sec_id: Seq<char>,
    host: Seq<char>,
    summary: Seq<char>,
) -> Seq<char> {
    "@model:"@ + sec_id + "\n@test:"@ + test_id + "\n@security:"@ + stereotype + "\n@host:"@ + host
        + "\nFeature: "@ + summary + "\n\n"@
}

/// The tags and the feature line of a security feature.
pub fn sec_test_header(stereotype: &str, test_id: &str, sec_id: &str, host: &str, summary: &str) -> (r: String)
    ensures
        r@ == header_spec(stereotype@, test_id@, sec_id@, host@, summary@),
{
    let mut r = cat3("@model:", sec_id, "\n@test:");
    push_str(&mut r, test_id);
    push_str(&mut r, "\n@security:");
    push_str(&mut r, stereotype);
    push_str(&mut r, "\n@host:");
    push_str(&mut r, host);
    push_str(&mut r, "\nFeature: ");
    push_str(&mut r, summary);
    push_str(&mut r, "\n\n");
    r
}

pub open spec fn encrypt_spec(test_id: Seq<char>, sec_id: Seq<char>, host: Seq<char>, params: Seq<(Seq<char>, Seq<char>)>) -> Seq<char> {
    let algorithm = get_or(params, "algorithm"@, "(unspecified-algorithm)"@);
    let scope = get_or(params, "scope"@, "(unspecified-scope)"@);
    let field = get_or(params, "field"@, host);
    header_spec("Encrypt"@, test_id, sec_id, host, "Encryption of "@ + field + " ("@ + scope + ") under "@ + algorithm)
        + (if scope == "at_rest"@ || scope == "both"@ {
        "  Scenario: "@ + field + " is ciphertext at rest\n    Given a stored record containing "@ + field
            + "\n    When the underlying storage is read directly\n    Then the bytes are encrypted under \""@
            + algorithm + "\"\n    And the plaintext value is not present\n\n"@
    } else {
        seq![]
    }) + (if scope == "in_transit"@ || scope == "both"@ {
        "  Scenario: "@ + field + " is ciphertext in transit\n    Given a request carrying "@ + field
            + "\n    When the payload is observed on the wire\n    Then the channel is protected by \""@ + algorithm
            + "\"\n    And the plaintext value is not visible\n\n"@
    } else {
        seq![]
    })
}

/// The `Encrypt` feature: a scenario per covered scope (at rest, in transit).
pub fn encrypt_test_scaffold(test_id: &str, sec_id: &str, host: &str, params: &ParamMap) -> (r: String)
    ensures
        r@ == encrypt_spec(test_id@, sec_id@, host@, params@),
{
    let algorithm = param_or(params, "algorithm", "(unspecified-algorithm)");
    let scope = param_or(params, "scope", "(unspecified-scope)");
    let field = param_or(params, "field", host);
    let mut summary = cat3("Encryption of ", field.as_str(), " (");
    push_str(&mut summary, scope.as_str());
    push_str(&mut summary, ") under ");
    push_str(&mut summary, algorithm.as_str());
    let mut r = sec_test_header("Encrypt", test_id, sec_id, host, summary.as_str());
    let ghost h = r@;
    let both = str_eq(scope.as_str(), "both");
    if str_eq(scope.as_str(), "at_rest") || both {
        push_str(&mut r, "  Scenario: ");
        push_str(&mut r, field.as_str());
        push_str(&mut r, " is ciphertext at rest\n    Given a stored record containing ");
        push_str(&mut r, field.as_str());
        push_str(&mut r, "\n    When the underlying storage is read directly\n    Then the bytes are encrypted under \"");
        push_str(&mut r, algorithm.as_str());
        push_str(&mut r, "\"\n    And the plaintext value is not present\n\n");
    } else {
        assert(r@ =~= h + Seq::<char>::empty());
    }
    let ghost h2 = r@;
    if str_eq(scope.as_str(), "in_transit") || both {
        push_str(&mut r, "  Scenario: ");
        push_str(&mut r, field.as_str());
        push_str(&mut r, " is ciphertext in transit\n    Given a request carrying ");
        push_str(&mut r, field.as_str());
        push_str(&mut r, "\n    When the payload is observed on the wire\n    Then the channel is protected by \"");
        push_str(&mut r, algorithm.as_str());
        push_str(&mut r, "\"\n    And the plaintext value is not visible\n\n");
    } else {
        assert(r@ =~= h2 + Seq::<char>::empty());
    }
    r
}

pub open spec fn overflow_spec(test_id: Seq<char>, sec_id: Seq<char>, host: Seq<char>, params: Seq<(Seq<char>, Seq<char>)>) -> Seq<char> {
    let field = get_or(params, "field"@, host);
    let max_length = get_or(params, "max_length"@, "(unspecified)"@);
    header_spec(
        "BufferOverflow"@,
        test_id,
        sec_id,
        host,
        "Length bound on "@ + host + "."@ + field + " ("@ + max_length + " chars)"@,
    ) + "  Scenario: input within bounds is accepted\n    Given a value for "@ + field + " of length up to "@
        + max_length + "\n    When the value is submitted\n    Then the request is accepted\n\n"@
        + "  Scenario: input over the bound is rejected\n    Given a value for "@ + field
        + " of length greater than "@ + max_length
        + "\n    When the value is submitted\n    Then the request is rejected with a length-bound error\n    And no truncated value is persisted\n"@
}

/// The `BufferOverflow` feature: within and over the length bound.
pub fn overflow_test_scaffold(test_id: &str, sec_id: &str, host: &str, params: &ParamMap) -> (r: String)
    ensures
        r@ == overflow_spec(test_id@, sec_id@, host@, params@),
{
    let field = param_or(params, "field", host);
    let max_length = param_or(params, "max_length", "(unspecified)");
    let mut summary = cat3("Length bound on ", host, ".");
    push_str(&mut summary, field.as_str());
    push_str(&mut summary, " (");
    push_str(&mut summary, max_length.as_str());
    push_str(&mut summary, " chars)");
    let mut r = sec_test_header("BufferOverflow", test_id, sec_id, host, summary.as_str());
    push_str(&mut r, "  Scenario: input within bounds is accepted\n    Given a value for ");
    push_str(&mut r, field.as_str());
    push_str(&mut r, " of length up to ");
    push_str(&mut r, max_length.as_str());
    push_str(&mut r, "\n    When the value is submitted\n    Then the request is accepted\n\n");
    push_str(&mut r, "  Scenario: input over the bound is rejected\n    Given a value for ");
    push_str(&mut r, field.as_str());
    push_str(&mut r, " of length greater than ");
    push_str(&mut r, max_length.as_str());
    push_str(
        &mut r,
        "\n    When the value is submitted\n    Then the request is rejected with a length-bound error\n    And no truncated value is persisted\n",
    );
    r
}

pub open spec fn sqli_spec(test_id: Seq<char>, sec_id: Seq<char>, host: Seq<char>, params: Seq<(Seq<char>, Seq<char>)>) -> Seq<char> {
    let field = get_or(params, "field"@, host);
    let sink = get_or(params, "sink"@, "(unspecified-sink)"@);
    let sanitizer = get_or(params, "sanitizer"@, "(unspecified-sanitizer)"@);
    header_spec("SqlInjection"@, test_id, sec_id, host, "SQL-injection guard on "@ + host + "."@ + field + " -> "@ + sink)
        + "  Scenario: SQL-meta payload is treated as data\n    Given a value for "@ + field
        + " containing a SQL-injection payload (e.g. \"' OR 1=1 --\")\n    When the request reaches "@ + sink
        + "\n    Then the "@ + sanitizer
        + " boundary binds the value as a parameter\n    And the payload is not executed as SQL\n\n"@
        + "  Scenario: benign value still works\n    Given a benign value for "@ + field
        + "\n    When the request reaches "@ + sink + "\n    Then the operation succeeds without escaping the "@
        + sanitizer + " boundary\n"@
}

/// The `SqlInjection` feature: a payload is bound as data, a benign value passes.
pub fn sqli_test_scaffold(test_id: &str, sec_id: &str, host: &str, params: &ParamMap) -> (r: String)
    ensures
        r@ == sqli_spec(test_id@, sec_id@, host@, params@),
{
    let field = param_or(params, "field", host);
    let sink = param_or(params, "sink", "(unspecified-sink)");
    let sanitizer = param_or(params, "sanitizer", "(unspecified-sanitizer)");
    let mut summary = cat3("SQL-injection guard on ", host, ".");
    push_str(&mut summary, field.as_str());
    push_str(&mut summary, " -> ");
    push_str(&mut summary, sink.as_str());
    let mut r = sec_test_header("SqlInjection", test_id, sec_id, host, summary.as_str());
    push_str(&mut r, "  Scenario: SQL-meta payload is treated as data\n    Given a value for ");
    push_str(&mut r, field.as_str());
    push_str(&mut r, " containing a SQL-injection payload (e.g. \"' OR 1=1 --\")\n    When the request reaches ");
    push_str(&mut r, sink.as_str());
    push_str(&mut r, "\n    Then the ");
    push_str(&mut r, sanitizer.as_str());
    push_str(&mut r, " boundary binds the value as a parameter\n    And the payload is not executed as SQL\n\n");
    push_str(&mut r, "  Scenario: benign value still works\n    Given a benign value for ");
    push_str(&mut r, field.as_str());
    push_str(&mut r, "\n    When the request reaches ");
    push_str(&mut r, sink.as_str());
    push_str(&mut r, "\n    Then the operation succeeds without escaping the ");
    push_str(&mut r, sanitizer.as_str());
    push_str(&mut r, " boundary\n");
    r
}

pub open spec fn flooding_summary(
    rate: Option<Seq<char>>,
    concurrent: Option<Seq<char>>,
    window: Seq<char>,
    link: Seq<char>,
) -> Seq<char> {
    match rate {
        Some(r) => "Rate limit "@ + r + " req/"@ + window + " on "@ + link,
        None => match concurrent {
            Some(c) => "Concurrency limit "@ + c + " on "@ + link,
            None => "Flood limit on "@ + link,
        },
    }
}

pub open spec fn rate_scenario(action: Seq<char>, link: Seq<char>, rate: Seq<char>, window: Seq<char>) -> Seq<char> {
    "  Scenario: traffic over the rate limit is "@ + action + "d\n    Given an aggressive client targeting "@ + link
        + "\n    When more than "@ + rate + " requests are sent within "@ + window + "\n    Then excess requests are "@
        + action + "d\n    And legitimate clients keep service within the limit\n\n"@
}

pub open spec fn concurrency_scenario(action: Seq<char>, link: Seq<char>, concurrent: Seq<char>) -> Seq<char> {
    "  Scenario: concurrency over the bound is "@ + action + "d\n    Given "@ + concurrent
        + " concurrent in-flight requests against "@ + link
        + "\n    When an additional request arrives\n    Then the additional request is "@ + action
        + "d until a slot frees\n"@
}

pub open spec fn flooding_spec(test_id: Seq<char>, sec_id: Seq<char>, host: Seq<char>, params: Seq<(Seq<char>, Seq<char>)>) -> Seq<char> {
    let link = get_or(params, "link"@, "(unspecified-endpoint)"@);
    let rate = pairs_get(params, "max_rate"@);
    let concurrent = pairs_get(params, "max_concurrent"@);
    let window = get_or(params, "window"@, "1s"@);
    let action = get_or(params, "action"@, "throttle"@);
    header_spec("Flooding"@, test_id, sec_id, host, flooding_summary(rate, concurrent, window, link)) + match rate {
        Some(r) => rate_scenario(action, link, r, window),
        None => seq![],
    } + match concurrent {
        Some(c) => concurrency_scenario(action, link, c),
        None => seq![],
    }
}

fn rate_scenario_exec(action: &str, link: &str, rate: &str, window: &str) -> (r: String)
    ensures
        r@ == rate_scenario(action@, link@, rate@, window@),
{
    let mut r = cat3("  Scenario: traffic over the rate limit is ", action, "d\n    Given an aggressive client targeting ");
    push_str(&mut r, link);
    push_str(&mut r, "\n    When more than ");
    push_str(&mut r, rate);
    push_str(&mut r, " requests are sent within ");
    push_str(&mut r, window);
    push_str(&mut r, "\n    Then excess requests are ");
    push_str(&mut r, action);
    push_str(&mut r, "d\n    And legitimate clients keep service within the limit\n\n");
    r
}

fn concurrency_scenario_exec(action: &str, link: &str, concurrent: &str) -> (r: String)
    ensures
        r@ == concurrency_scenario(action@, link@, concurrent@),
{
    let mut r = cat3("  Scenario: concurrency over the bound is ", action, "d\n    Given ");
    push_str(&mut r, concurrent);
    push_str(&mut r, " concurrent in-flight requests against ");
    push_str(&mut r, link);
    push_str(&mut r, "\n    When an additional request arrives\n    Then the additional request is ");
    push_str(&mut r, action);
    push_str(&mut r, "d until a slot frees\n");
    r
}

fn flooding_summary_exec(rate: Option<&String>, concurrent: Option<&String>, window: &str, link: &str) -> (r: String)
    ensures
        r@ == flooding_summary(
            match rate {
                Some(x) => Some(x@),
                None => None,
            },
            match concurrent {
                Some(x) => Some(x@),
                None => None,
            },
            window@,
            link@,
        ),
{
    match rate {
        Some(x) => {
            let mut r = cat3("Rate limit ", x.as_str(), " req/");
            push_str(&mut r, window);
            push_str(&mut r, " on ");
            push_str(&mut r, link);
            r
        },
        None => match concurrent {
            Some(c) => {
                let mut r = cat3("Concurrency limit ", c.as_str(), " on ");
                push_str(&mut r, link);
                r
            },
            None => cat("Flood limit on ", link),
        },
    }
}

/// The `Flooding` feature: a scenario for the rate bound and one for the
/// concurrency bound, each when given.
pub fn flooding_test_scaffold(test_id: &str, sec_id: &str, host: &str, params: &ParamMap) -> (r: String)
    ensures
        r@ == flooding_spec(test_id@, sec_id@, host@, params@),
{
    let link = param_or(params, "link", "(unspecified-endpoint)");
    let rate = params.get("max_rate");
    let concurrent = params.get("max_concurrent");
    let window = param_or(params, "window", "1s");
    let action = param_or(params, "action", "throttle");
    let summary = flooding_summary_exec(rate, concurrent, window.as_str(), link.as_str());
    let mut r = sec_test_header("Flooding", test_id, sec_id, host, summary.as_str());
    let ghost h = r@;
    match rate {
        Some(x) => {
            let sc = rate_scenario_exec(action.as_str(), link.as_str(), x.as_str(), window.as_str());
            push_str(&mut r, sc.as_str());
        },
        None => {
            assert(r@ =~= h + Seq::<char>::empty());
        },
    }
    let ghost h2 = r@;
    match concurrent {
        Some(c) => {
            let sc = concurrency_scenario_exec(action.as_str(), link.as_str(), c.as_str());
            push_str(&mut r, sc.as_str());
        },
        None => {
            assert(r@ =~= h2 + Seq::<char>::empty());
        },
    }
    r
}

pub open spec fn expiration_spec(test_id: Seq<char>, sec_id: Seq<char>, host: Seq<char>, params: Seq<(Seq<char>, Seq<char>)>) -> Seq<char> {
    let field = get_or(params, "field"@, host);
    let ttl = get_or(params, "ttl"@, "(unspecified-ttl)"@);
    header_spec("Expiration"@, test_id, sec_id, host, "TTL on "@ + host + "."@ + field + " ("@ + ttl + ")"@)
        + "  Scenario: value is accepted before expiry\n    Given a "@ + field
        + " issued at time T\n    When the value is presented before T + "@ + ttl
        + "\n    Then the value is accepted\n\n"@ + "  Scenario: value is rejected after expiry\n    Given a "@
        + field + " issued at time T\n    When the value is presented after T + "@ + ttl
        + "\n    Then the value is rejected as expired\n    And no renewal is granted without re-authentication\n"@
}

/// The `Expiration` feature: accepted before the TTL, rejected after it.
pub fn expiration_test_scaffold(test_id: &str, sec_id: &str, host: &str, params: &ParamMap) -> (r: String)
    ensures
        r@ == expiration_spec(test_id@, sec_id@, host@, params@),
{
    let field = param_or(params, "field", host);
    let ttl = param_or(params, "ttl", "(unspecified-ttl)");
    let mut summary = cat3("TTL on ", host, ".");
    push_str(&mut summary, field.as_str());
    push_str(&mut summary, " (");
    push_str(&mut summary, ttl.as_str());
    push_str(&mut summary, ")");
    let mut r = sec_test_header("Expiration", test_id, sec_id, host, summary.as_str());
    push_str(&mut r, "  Scenario: value is accepted before expiry\n    Given a ");
    push_str(&mut r, field.as_str());
    push_str(&mut r, " issued at time T\n    When the value is presented before T + ");
    push_str(&mut r, ttl.as_str());
    push_str(&mut r, "\n    Then the value is accepted\n\n");
    push_str(&mut r, "  Scenario: value is rejected after expiry\n    Given a ");
    push_str(&mut r, field.as_str());
    push_str(&mut r, " issued at time T\n    When the value is presented after T + ");
    push_str(&mut r, ttl.as_str());
    push_str(&mut r, "\n    Then the value is rejected as expired\n    And no renewal is granted without re-authentication\n");
    r
}

/// The non-empty `|`-separated roles of a parameter.
pub open spec fn roles_of(params: Seq<(Seq<char>, Seq<char>)>, key: Seq<char>) -> Seq<Seq<char>> {
    match pairs_get(params, key) {
        Some(v) => split_char(v, '|').filter(|r: Seq<char>| r.len() > 0),
        None => seq![],
    }
}

fn roles_exec(params: &ParamMap, key: &str) -> (r: Vec<String>)
    ensures
        strs(r@) == roles_of(params@, key@),
{
    let mut r: Vec<String> = Vec::new();
    match params.get(key) {
        None => {
            assert(strs(r@) =~= Seq::<Seq<char>>::empty());
            r
        },
        Some(v) => {
            let cs = chars_of(v.as_str());
            let parts = split_char_exec(cs.as_slice(), '|');
            let ghost pv = vviews(parts@);
            let ghost pred = |x: Seq<char>| x.len() > 0;
            let mut i: usize = 0;
            assert(pv.take(0).filter(pred) =~= Seq::<Seq<char>>::empty()) by {
                reveal(Seq::filter);
            }
            assert(strs(r@) =~= Seq::<Seq<char>>::empty());
            while i < parts.len()
                invariant
                    i <= parts.len(),
                    pv == vviews(parts@),
                    pred == (|x: Seq<char>| x.len() > 0),
                    strs(r@) == pv.take(i as int).filter(pred),
                decreases parts.len() - i,
            {
                proof {
                    assert(pv.take(i + 1) == pv.take(i as int).push(pv[i as int]));
                    pv.take(i as int).lemma_filter_push(pv[i as int], pred);
                }
                if parts[i].len() > 0 {
                    let ghost r0 = strs(r@);
                    r.push(string_of(parts[i].as_slice()));
                    assert(strs(r@) =~= r0.push(pv[i as int]));
                }
                i = i + 1;
            }
            assert(pv.take(parts.len() as int) == pv);
            r
        },
    }
}

pub open spec fn role_block(role: Seq<char>, link: Seq<char>, allowed: bool) -> Seq<char> {
    (if allowed {
        "  Scenario: "@ + role + " can reach "@ + link + "\n"@
    } else {
        "  Scenario: "@ + role + " is denied access to "@ + link + "\n"@
    }) + "    Given a user with role \""@ + role + "\"\n"@ + "    When the user requests \""@ + link + "\"\n"@
        + (if allowed {
        "    Then access is granted\n\n"@
    } else {
        "    Then access is rejected\n\n"@
    })
}

pub open spec fn role_blocks(roles: Seq<Seq<char>>, link: Seq<char>, allowed: bool) -> Seq<char>
    decreases roles.len(),
{
    if roles.len() == 0 {
        seq![]
    } else {
        role_blocks(roles.drop_last(), link, allowed) + role_block(roles.last(), link, allowed)
    }
}

fn push_role_blocks(out: &mut String, roles: &Vec<String>, link: &str, allowed: bool)
    ensures
        final(out)@ == old(out)@ + role_blocks(strs(roles@), link@, allowed),
{
    let ghost rv = strs(roles@);
    let ghost o0 = out@;
    let mut i: usize = 0;
    assert(rv.take(0) =~= Seq::<Seq<char>>::empty());
    assert(o0 + Seq::<char>::empty() =~= o0);
    while i < roles.len()
        invariant
            i <= roles.len(),
            rv == strs(roles@),
            out@ == o0 + role_blocks(rv.take(i as int), link@, allowed),
        decreases roles.len() - i,
    {
        proof {
            assert(rv.take(i + 1).drop_last() == rv.take(i as int));
            assert(rv.take(i + 1).last() == roles@[i as int]@);
        }
        let role = roles[i].as_str();
        let ghost before = out@;
        let mut b = if allowed {
            let mut t = cat3("  Scenario: ", role, " can reach ");
            push_str(&mut t, link);
            push_str(&mut t, "\n");
            t
        } else {
            let mut t = cat3("  Scenario: ", role, " is denied access to ");
            push_str(&mut t, link);
            push_str(&mut t, "\n");
            t
        };
        push_str(&mut b, "    Given a user with role \"");
        push_str(&mut b, role);
        push_str(&mut b, "\"\n");
        push_str(&mut b, "    When the user requests \"");
        push_str(&mut b, link);
        push_str(&mut b, "\"\n");
        if allowed {
            push_str(&mut b, "    Then access is granted\n\n");
        } else {
            push_str(&mut b, "    Then access is rejected\n\n");
        }
        assert(b@ == role_block(role@, link@, allowed));
        push_str(out, b.as_str());
        i = i + 1;
    }
    assert(rv.take(roles.len() as int) == rv);
}

pub open spec fn bypass_spec(test_id: Seq<char>, sec_id: Seq<char>, host: Seq<char>, params: Seq<(Seq<char>, Seq<char>)>) -> Seq<char> {
    let link = get_or(params, "link"@, "(unspecified-link)"@);
    let allowed = roles_of(params, "allowed"@);
    let denied = roles_of(params, "denied"@);
    let head = "@model:"@ + sec_id + "\n"@ + "@test:"@ + test_id + "\n"@ + "@security:ByPassing\n"@ + "@host:"@ + host
        + "\n"@ + "Feature: Access control on "@ + host + " via "@ + link + "\n\n"@;
    if allowed.len() == 0 && denied.len() == 0 {
        head
            + "  Scenario: Access control is enforced\n    Given an authenticated user\n    When the user requests the protected resource\n    Then access is decided per the security profile\n"@
    } else {
        head + role_blocks(allowed, link, true) + role_blocks(denied, link, false)
    }
}

/// The `ByPassing` feature: a scenario per allowed role and per denied
/// role (`|`-separated), or one generic scenario when none is named.
pub fn bypass_test_scaffold(test_id: &str, sec_id: &str, host: &str, params: &ParamMap) -> (r: String)
    ensures
        r@ == bypass_spec(test_id@, sec_id@, host@, params@),
{
    let link = param_or(params, "link", "(unspecified-link)");
    let allowed = roles_exec(params, "allowed");
    let denied = roles_exec(params, "denied");
    let mut r = cat3("@model:", sec_id, "\n");
    push_str(&mut r, "@test:");
    push_str(&mut r, test_id);
    push_str(&mut r, "\n");
    push_str(&mut r, "@security:ByPassing\n");
    push_str(&mut r, "@host:");
    push_str(&mut r, host);
    push_str(&mut r, "\n");
    push_str(&mut r, "Feature: Access control on ");
    push_str(&mut r, host);
    push_str(&mut r, " via ");
    push_str(&mut r, link.as_str());
    push_str(&mut r, "\n\n");
    if allowed.len() == 0 && denied.len() == 0 {
        push_str(
            &mut r,
            "  Scenario: Access control is enforced\n    Given an authenticated user\n    When the user requests the protected resource\n    Then access is decided per the security profile\n",
        );
        return r;
    }
    push_role_blocks(&mut r, &allowed, link.as_str(), true);
    push_role_blocks(&mut r, &denied, link.as_str(), false);
    r
}

pub open spec fn generic_security_spec(stereotype: Seq<char>, test_id: Seq<char>, sec_id: Seq<char>, host: Seq<char>) -> Seq<char> {
    "@model:"@ + sec_id + "\n@test:"@ + test_id + "\n@security:"@ + stereotype + "\n@host:"@ + host + "\nFeature: "@
        + stereotype + " on "@ + host + "\n\n  Scenario: TODO security scenario\n    Given the security marker for "@
        + sec_id + "\n    When the protected behavior is exercised\n    Then the "@ + stereotype
        + " property holds per the security profile\n"@
}

/// The feature of a security marker, by stereotype.
pub open spec fn security_scaffold_spec(
    stereotype: Seq<char>,
    test_id: Seq<char>,
    sec_id: Seq<char>,
    host: Seq<char>,
    params: Seq<(Seq<char>, Seq<char>)>,
) -> Seq<char> {
    if stereotype == "ByPassing"@ {
        bypass_spec(test_id, sec_id, host, params)
    } else if stereotype == "Encrypt"@ {
        encrypt_spec(test_id, sec_id, host, params)
    } else if stereotype == "BufferOverflow"@ {
        overflow_spec(test_id, sec_id, host, params)
    } else if stereotype == "SqlInjection"@ {
        sqli_spec(test_id, sec_id, host, params)
    } else if stereotype == "Flooding"@ {
        flooding_spec(test_id, sec_id, host, params)
    } else if stereotype == "Expiration"@ {
        expiration_spec(test_id, sec_id, host, params)
    } else {
        generic_security_spec(stereotype, test_id, sec_id, host)
    }
}

/// The scaffolded feature of a security marker.
pub fn security_test_scaffold(stereotype: &str, test_id: &str, sec_id: &str, host: &str, params: &ParamMap) -> (r: String)
    ensures
        r@ == security_scaffold_spec(stereotype@, test_id@, sec_id@, host@, params@),
{
    if str_eq(stereotype, "ByPassing") {
        bypass_test_scaffold(test_id, sec_id, host, params)
    } else if str_eq(stereotype, "Encrypt") {
        encrypt_test_scaffold(test_id, sec_id, host, params)
    } else if str_eq(stereotype, "BufferOverflow") {
        overflow_test_scaffold(test_id, sec_id, host, params)
    } else if str_eq(stereotype, "SqlInjection") {
        sqli_test_scaffold(test_id, sec_id, host, params)
    } else if str_eq(stereotype, "Flooding") {
        flooding_test_scaffold(test_id, sec_id, host, params)
    } else if str_eq(stereotype, "Expiration") {
        expiration_test_scaffold(test_id, sec_id, host, params)
    } else {
        let mut r = cat3("@model:", sec_id, "\n@test:");
        push_str(&mut r, test_id);
        push_str(&mut r, "\n@security:");
        push_str(&mut r, stereotype);
        push_str(&mut r, "\n@host:");
        push_str(&mut r, host);
        push_str(&mut r, "\nFeature: ");
        push_str(&mut r, stereotype);
        push_str(&mut r, " on ");
        push_str(&mut r, host);
        push_str(&mut r, "\n\n  Scenario: TODO security scenario\n    Given the security marker for ");
        push_str(&mut r, sec_id);
        push_str(&mut r, "\n    When the protected behavior is exercised\n    Then the ");
        push_str(&mut r, stereotype);
        push_str(&mut r, " property holds per the security profile\n");
        r
    }
}

// ---------------------------------------------------------------------------
// Playwright

/// A TypeScript single-quoted string literal of the value.
pub open spec fn ts_string_spec(value: Seq<char>) -> Seq<char> {
    "'"@ + replace(replace(replace(value, "\\"@, "\\\\"@), "'"@, "\\'"@), "\n"@, "\\n"@) + "'"@
}

pub fn ts_string(value: &str) -> (r: String)
    ensures
        r@ == ts_string_spec(value@),
{
    proof {
        reveal_strlit("\\");
        reveal_strlit("'");
        reveal_strlit("\n");
    }
    let a = replace_str(value, "\\", "\\\\");
    let b = replace_str(a.as_str(), "'", "\\'");
    let c = replace_str(b.as_str(), "\n", "\\n");
    cat3("'", c.as_str(), "'")
}

pub open spec fn locator_spec(role: Option<Seq<char>>, name: Option<Seq<char>>) -> Seq<char> {
    match (role, name) {
        (Some(r), Some(n)) => "page.getByRole("@ + ts_string_spec(r) + ", { name: "@ + ts_string_spec(n) + " })"@,
        (Some(r), None) => "page.getByRole("@ + ts_string_spec(r) + ")"@,
        (None, Some(n)) => "page.getByText("@ + ts_string_spec(n) + ")"@,
        (None, None) => "page.locator('body')"@,
    }
}

/// The Playwright locator of an element contract: by role and name, by
/// role, by text, or the page body.
pub fn playwright_locator(element: &UiElementContract) -> (r: String)
    ensures
        r@ == locator_spec(element@.1, element@.2),
{
    match (&element.role, &element.name) {
        (Some(role), Some(name)) => {
            let mut r = cat("page.getByRole(", ts_string(role.as_str()).as_str());
            push_str(&mut r, ", { name: ");
            push_str(&mut r, ts_string(name.as_str()).as_str());
            push_str(&mut r, " })");
            r
        },
        (Some(role), None) => cat3("page.getByRole(", ts_string(role.as_str()).as_str(), ")"),
        (None, Some(name)) => cat3("page.getByText(", ts_string(name.as_str()).as_str(), ")"),
        (None, None) => owned("page.locator('body')"),
    }
}

pub open spec fn element_lines(e: ElementV) -> Seq<char> {
    "    // "@ + e.0 + "\n"@ + (if e.3 {
        "    await expect("@ + locator_spec(e.1, e.2) + ").toBeVisible();\n"@
    } else {
        "    await "@ + locator_spec(e.1, e.2) + ".count();\n"@
    })
}

pub open spec fn elements_lines(es: Seq<ElementV>) -> Seq<char>
    decreases es.len(),
{
    if es.len() == 0 {
        seq![]
    } else {
        elements_lines(es.drop_last()) + element_lines(es.last())
    }
}

pub open spec fn viewport_block(test_id: Seq<char>, v: (Seq<char>, u32, u32), route: Seq<char>, es: Seq<ElementV>) -> Seq<char> {
    "  test("@ + ts_string_spec(test_id + " "@ + v.0) + ", async ({ page }) => {\n"@
        + "    await page.setViewportSize({ width: "@ + decimal(v.1 as nat) + ", height: "@ + decimal(v.2 as nat)
        + " });\n"@ + "    await page.goto("@ + ts_string_spec(route) + ");\n"@ + elements_lines(es) + "  });\n"@
}

pub open spec fn viewport_blocks(
    test_id: Seq<char>,
    vs: Seq<(Seq<char>, u32, u32)>,
    route: Seq<char>,
    es: Seq<ElementV>,
) -> Seq<char>
    decreases vs.len(),
{
    if vs.len() == 0 {
        seq![]
    } else {
        viewport_blocks(test_id, vs.drop_last(), route, es) + viewport_block(test_id, vs.last(), route, es)
    }
}

/// The Playwright spec of a mockup contract.
pub open spec fn playwright_spec(
    test_id: Seq<char>,
    model_id: Seq<char>,
    route: Option<Seq<char>>,
    vs: Seq<(Seq<char>, u32, u32)>,
    es: Seq<ElementV>,
) -> Seq<char> {
    let r = match route {
        Some(x) => x,
        None => "/"@,
    };
    let vps = if vs.len() == 0 {
        seq![("desktop"@, 1280u32, 720u32)]
    } else {
        vs
    };
    "import { test, expect } from '@playwright/test';\n\n"@ + "// @model:"@ + model_id + "\n"@ + "// @test:"@
        + test_id + "\n"@ + "test.describe("@ + ts_string_spec(model_id) + ", () => {\n"@ + viewport_blocks(
        test_id,
        vps,
        r,
        es,
    ) + "});\n"@
}

fn push_elements(out: &mut String, elements: &Vec<UiElementContract>)
    ensures
        final(out)@ == old(out)@ + elements_lines(elements_view(elements@)),
{
    let ghost ev = elements_view(elements@);
    let ghost o0 = out@;
    let mut i: usize = 0;
    assert(ev.take(0) =~= Seq::<ElementV>::empty());
    assert(o0 + Seq::<char>::empty() =~= o0);
    while i < elements.len()
        invariant
            i <= elements.len(),
            ev == elements_view(elements@),
            out@ == o0 + elements_lines(ev.take(i as int)),
        decreases elements.len() - i,
    {
        proof {
            assert(ev.take(i + 1).drop_last() == ev.take(i as int));
            assert(ev.take(i + 1).last() == elements@[i as int]@);
        }
        let e = &elements[i];
        let locator = playwright_locator(e);
        let mut b = cat3("    // ", e.id.as_str(), "\n");
        if e.required {
            push_str(&mut b, "    await expect(");
            push_str(&mut b, locator.as_str());
            push_str(&mut b, ").toBeVisible();\n");
        } else {
            push_str(&mut b, "    await ");
            push_str(&mut b, locator.as_str());
            push_str(&mut b, ".count();\n");
        }
        assert(b@ == element_lines(e@));
        push_str(out, b.as_str());
        i = i + 1;
    }
    assert(ev.take(elements.len() as int) == ev);
}

fn viewport_block_exec(test_id: &str, v: &UiViewport, route: &str, elements: &Vec<UiElementContract>) -> (r: String)
    ensures
        r@ == viewport_block(test_id@, v@, route@, elements_view(elements@)),
{
    let label = cat3(test_id, " ", v.name.as_str());
    let mut r = cat3("  test(", ts_string(label.as_str()).as_str(), ", async ({ page }) => {\n");
    push_str(&mut r, "    await page.setViewportSize({ width: ");
    push_str(&mut r, decimal_string(v.width as u64).as_str());
    push_str(&mut r, ", height: ");
    push_str(&mut r, decimal_string(v.height as u64).as_str());
    push_str(&mut r, " });\n");
    push_str(&mut r, "    await page.goto(");
    push_str(&mut r, ts_string(route).as_str());
    push_str(&mut r, ");\n");
    push_elements(&mut r, elements);
    push_str(&mut r, "  });\n");
    r
}

/// The Playwright spec of a mockup contract: for each viewport (a desktop
/// one when none is declared), visit the route (`/` when none) and check
/// each element, visible when required.
pub fn playwright_test_scaffold(test_id: &str, contract: &MockupContract) -> (r: String)
    ensures
        r@ == playwright_spec(
            test_id@,
            contract.model_id@,
            crate::model::opt_view(contract.route),
            viewports_view(contract.viewports@),
            elements_view(contract.elements@),
        ),
{
    let route = match &contract.route {
        Some(x) => x.clone(),
        None => owned("/"),
    };
    let mut r = owned("import { test, expect } from '@playwright/test';\n\n");
    push_str(&mut r, "// @model:");
    push_str(&mut r, contract.model_id.as_str());
    push_str(&mut r, "\n");
    push_str(&mut r, "// @test:");
    push_str(&mut r, test_id);
    push_str(&mut r, "\n");
    push_str(&mut r, "test.describe(");
    push_str(&mut r, ts_string(contract.model_id.as_str()).as_str());
    push_str(&mut r, ", () => {\n");
    let mut vps: Vec<UiViewport> = Vec::new();
    if contract.viewports.len() == 0 {
        vps.push(UiViewport { name: owned("desktop"), width: 1280, height: 720 });
        assert(viewports_view(vps@) =~= seq![("desktop"@, 1280u32, 720u32)]);
    } else {
        let mut k: usize = 0;
        while k < contract.viewports.len()
            invariant
                k <= contract.viewports.len(),
                viewports_view(vps@) == viewports_view(contract.viewports@).take(k as int),
            decreases contract.viewports.len() - k,
        {
            let v = &contract.viewports[k];
            let c = UiViewport { name: v.name.clone(), width: v.width, height: v.height };
            let ghost v0 = viewports_view(vps@);
            vps.push(c);
            assert(viewports_view(vps@) =~= v0.push(v@));
            assert(viewports_view(contract.viewports@).take(k + 1) =~= viewports_view(contract.viewports@).take(
                k as int,
            ).push(v@));
            k = k + 1;
        }
        assert(viewports_view(contract.viewports@).take(contract.viewports.len() as int) =~= viewports_view(
            contract.viewports@,
        ));
    }
    let ghost vv = viewports_view(vps@);
    let ghost ev = elements_view(contract.elements@);
    let ghost o0 = r@;
    let mut i: usize = 0;
    assert(vv.take(0) =~= Seq::<(Seq<char>, u32, u32)>::empty());
    assert(o0 + Seq::<char>::empty() =~= o0);
    while i < vps.len()
        invariant
            i <= vps.len(),
            vv == viewports_view(vps@),
            ev == elements_view(contract.elements@),
            r@ == o0 + viewport_blocks(test_id@, vv.take(i as int), route@, ev),
        decreases vps.len() - i,
    {
        proof {
            assert(vv.take(i + 1).drop_last() == vv.take(i as int));
            assert(vv.take(i + 1).last() == vps@[i as int]@);
        }
        let b = viewport_block_exec(test_id, &vps[i], route.as_str(), &contract.elements);
        push_str(&mut r, b.as_str());
        i = i + 1;
    }
    assert(vv.take(vps.len() as int) == vv);
    push_str(&mut r, "});\n");
    r
}

} // verus!
