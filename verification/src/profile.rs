//! Test-profile detection: a per-layer runner recommended from the build
//! files a repository holds.
use vstd::prelude::*;
use crate::model::{DetectedLayer, DetectedProfile, opt_view};
use crate::project::{Project, join, join_strings};
use crate::text::{cat3, contains, owned, push_str, str_contains, strs};

verus! {

/// The build files a repository holds, as detection reads them.
pub struct BuildFiles {
    pub cargo_toml: bool,
    /// The text of `package.json` when it exists (empty when unreadable).
    pub package_json: Option<String>,
    pub pyproject_toml: bool,
    pub setup_py: bool,
    pub go_mod: bool,
}

/// A recommended layer: layer, framework, command, working directory.
pub type LayerV = (Seq<char>, Seq<char>, Seq<char>, Option<Seq<char>>);

pub open spec fn layers_view(v: Seq<DetectedLayer>) -> Seq<LayerV> {
    v.map_values(|l: DetectedLayer| (l.layer@, l.framework@, l.command@, opt_view(l.cwd)))
}

pub open spec fn rec(layer: Seq<char>, framework: Seq<char>, command: Seq<char>) -> LayerV {
    (layer, framework, command, None)
}

/// The unit framework `package.json` names, if any (vitest before jest).
pub open spec fn js_unit(pkg: Seq<char>) -> Option<Seq<char>> {
    if contains(pkg, "\"vitest\""@) {
        Some("vitest"@)
    } else if contains(pkg, "\"jest\""@) {
        Some("jest"@)
    } else {
        None
    }
}

/// The UI layer `package.json` names, if any (playwright before cypress).
pub open spec fn js_ui(pkg: Seq<char>) -> Seq<LayerV> {
    if contains(pkg, "@playwright/test"@) || contains(pkg, "\"playwright\""@) {
        seq![rec("ui"@, "playwright"@, "npx playwright test"@)]
    } else if contains(pkg, "\"cypress\""@) {
        seq![rec("ui"@, "cypress"@, "npx cypress run"@)]
    } else {
        seq![]
    }
}

/// The recommendations, in the order the build files are considered:
/// Cargo, npm, Python, Go.
pub open spec fn recommendations(cargo: bool, pkg: Option<Seq<char>>, python: bool, go: bool) -> Seq<LayerV> {
    (if cargo {
        seq![
            rec("unit"@, "cargo-test"@, "cargo test --workspace --lib"@),
            rec("integration"@, "cargo-test"@, "cargo test --workspace --test '*'"@),
        ]
    } else {
        seq![]
    }) + match pkg {
        Some(p) => (match js_unit(p) {
            Some(f) => seq![rec("unit"@, f, "npm test"@)],
            None => seq![],
        }) + js_ui(p),
        None => seq![],
    } + (if python {
        seq![rec("unit"@, "pytest"@, "pytest"@)]
    } else {
        seq![]
    }) + (if go {
        seq![rec("unit"@, "go-test"@, "go test ./..."@)]
    } else {
        seq![]
    })
}

/// The unit frameworks detected, in the same order.
pub open spec fn unit_frameworks(cargo: bool, pkg: Option<Seq<char>>, python: bool, go: bool) -> Seq<Seq<char>> {
    (if cargo {
        seq!["cargo-test"@]
    } else {
        seq![]
    }) + match pkg {
        Some(p) => match js_unit(p) {
            Some(f) => seq![f],
            None => seq![],
        },
        None => seq![],
    } + (if python {
        seq!["pytest"@]
    } else {
        seq![]
    }) + (if go {
        seq!["go-test"@]
    } else {
        seq![]
    })
}

/// What an operator must settle: several unit frameworks, or no build file.
pub open spec fn ambiguities(cargo: bool, pkg: Option<Seq<char>>, python: bool, go: bool) -> Seq<Seq<char>> {
    let units = unit_frameworks(cargo, pkg, python, go);
    (if units.len() > 1 {
        seq![
            "multiple unit-test frameworks detected ("@ + join(units, ", "@)
                + "); operator must confirm which to use"@,
        ]
    } else {
        seq![]
    }) + (if recommendations(cargo, pkg, python, go).len() == 0 {
        seq!["no known build file found; the test profile must be configured manually"@]
    } else {
        seq![]
    })
}

fn layer(l: &str, f: &str, c: &str) -> (r: DetectedLayer)
    ensures
        layers_view(seq![r]) == seq![rec(l@, f@, c@)],
{
    let r = DetectedLayer { layer: owned(l), framework: owned(f), command: owned(c), cwd: None };
    assert(layers_view(seq![r]) =~= seq![rec(l@, f@, c@)]);
    r
}

fn push_layer(v: &mut Vec<DetectedLayer>, l: &str, f: &str, c: &str)
    ensures
        layers_view(final(v)@) == layers_view(old(v)@) + seq![rec(l@, f@, c@)],
{
    let x = layer(l, f, c);
    let ghost v0 = layers_view(v@);
    v.push(x);
    assert(layers_view(v@) =~= v0 + layers_view(seq![x]));
}

fn push_name(v: &mut Vec<String>, s: &str)
    ensures
        strs(final(v)@) == strs(old(v)@) + seq![s@],
{
    let ghost v0 = strs(v@);
    v.push(owned(s));
    assert(strs(v@) =~= v0 + seq![s@]);
}

impl Project {
    /// Recommend a runner per test layer from the repository's build files.
    /// It only recommends: where several unit frameworks are found, or no
    /// build file at all, an ambiguity says so for the operator to settle.
    pub fn detect_test_profile(&self, files: &BuildFiles) -> (r: DetectedProfile)
        ensures
            layers_view(r.recommendations@) == recommendations(
                files.cargo_toml,
                opt_view(files.package_json),
                files.pyproject_toml || files.setup_py,
                files.go_mod,
            ),
            strs(r.ambiguities@) == ambiguities(
                files.cargo_toml,
                opt_view(files.package_json),
                files.pyproject_toml || files.setup_py,
                files.go_mod,
            ),
    {
        let ghost cargo = files.cargo_toml;
        let ghost pkg = opt_view(files.package_json);
        let ghost python = files.pyproject_toml || files.setup_py;
        let ghost go = files.go_mod;
        let mut recs: Vec<DetectedLayer> = Vec::new();
        let mut units: Vec<String> = Vec::new();
        assert(layers_view(recs@) =~= Seq::<LayerV>::empty());
        assert(strs(units@) =~= Seq::<Seq<char>>::empty());
        if files.cargo_toml {
            push_layer(&mut recs, "unit", "cargo-test", "cargo test --workspace --lib");
            push_layer(&mut recs, "integration", "cargo-test", "cargo test --workspace --test '*'");
            push_name(&mut units, "cargo-test");
        }
        let ghost r1 = layers_view(recs@);
        let ghost u1 = strs(units@);
        assert(r1 =~= recommendations(cargo, None, false, false));
        assert(u1 =~= unit_frameworks(cargo, None, false, false));
        match &files.package_json {
            Some(pkg_text) => {
                let p = pkg_text.as_str();
                if str_contains(p, "\"vitest\"") {
                    push_layer(&mut recs, "unit", "vitest", "npm test");
                    push_name(&mut units, "vitest");
                } else if str_contains(p, "\"jest\"") {
                    push_layer(&mut recs, "unit", "jest", "npm test");
                    push_name(&mut units, "jest");
                }
                if str_contains(p, "@playwright/test") || str_contains(p, "\"playwright\"") {
                    push_layer(&mut recs, "ui", "playwright", "npx playwright test");
                } else if str_contains(p, "\"cypress\"") {
                    push_layer(&mut recs, "ui", "cypress", "npx cypress run");
                }
            },
            None => {},
        }
        let ghost r2 = layers_view(recs@);
        let ghost u2 = strs(units@);
        assert(r2 =~= r1 + match pkg {
            Some(p) => (match js_unit(p) {
                Some(f) => seq![rec("unit"@, f, "npm test"@)],
                None => seq![],
            }) + js_ui(p),
            None => seq![],
        });
        assert(u2 =~= u1 + match pkg {
            Some(p) => match js_unit(p) {
                Some(f) => seq![f],
                None => seq![],
            },
            None => seq![],
        });
        if files.pyproject_toml || files.setup_py {
            push_layer(&mut recs, "unit", "pytest", "pytest");
            push_name(&mut units, "pytest");
        }
        if files.go_mod {
            push_layer(&mut recs, "unit", "go-test", "go test ./...");
            push_name(&mut units, "go-test");
        }
        assert(layers_view(recs@) =~= recommendations(cargo, pkg, python, go));
        assert(strs(units@) =~= unit_frameworks(cargo, pkg, python, go));
        let mut amb: Vec<String> = Vec::new();
        if units.len() > 1 {
            let joined = join_strings(&units, ", ");
            let m = cat3("multiple unit-test frameworks detected (", joined.as_str(), "); operator must confirm which to use");
            amb.push(m);
        }
        if recs.len() == 0 {
            amb.push(owned("no known build file found; the test profile must be configured manually"));
        }
        assert(strs(amb@) =~= ambiguities(cargo, pkg, python, go));
        DetectedProfile { recommendations: recs, ambiguities: amb }
    }
}

} // verus!
