use mdd::render::{synthesize_ocl_puml, PlantUmlCommand};

#[test]
fn synthesize_ocl_puml_emits_context_domain_and_notes() {
    let ocl = "-- @id(OCL-A)\n-- @ref(DOM-X)\ncontext Foo\ninv One: self.a > 0\n\n\
               -- @id(OCL-B)\n-- @ref(DOM-X)\ncontext Foo\ninv Two: self.b <> ''\n";
    let out = synthesize_ocl_puml(ocl, "sample");
    assert!(out.starts_with("@startuml\n"));
    assert!(out.contains("\nallowmixing\n"));
    assert!(out.contains("title OCL constraints — sample"));
    assert!(out.contains("class \"Foo\" as C0 <<context>>"));
    assert!(out.contains("rectangle \"DOM-X\" as D0 <<domain>>"));
    assert!(out.contains("OCL-A"));
    assert!(out.contains("inv One: self.a > 0"));
    assert!(out.contains("OCL-B"));
    assert!(out.contains("C0 ..> D0 : OCL-A"));
    assert!(out.trim_end().ends_with("@enduml"));
    assert_eq!(out.matches("<<context>>").count(), 1);
}

#[test]
fn synthesize_defaults_context_and_skips_lines_before_first_id() {
    let ocl = "stray line\n-- @id(OCL-Z)\ninv Z: true\n";
    let out = synthesize_ocl_puml(ocl, "t");
    assert!(out.contains("class \"constraints\" as C0 <<context>>"));
    assert!(out.contains("note bottom of C0\n  OCL-Z\n  inv Z: true\nend note\n"));
    assert!(!out.contains("stray"));
    assert!(!out.contains("..>"));
}

#[test]
fn resolver_prefers_env_jar() {
    let c = PlantUmlCommand::resolve_from(Some("/tmp/env.jar".into()), true, vec![("/tmp/bundled.jar".into(), true)], true).unwrap();
    assert_eq!(c, PlantUmlCommand::JavaJar { jar_path: "/tmp/env.jar".into() });
}

#[test]
fn resolver_finds_bundled_jar() {
    let c = PlantUmlCommand::resolve_from(None, false, vec![("/m.jar".into(), false), ("/p.jar".into(), true)], true).unwrap();
    assert_eq!(c, PlantUmlCommand::JavaJar { jar_path: "/p.jar".into() });
}

#[test]
fn resolver_falls_back_to_plantuml_on_path() {
    let c = PlantUmlCommand::resolve_from(None, false, vec![("/m.jar".into(), false)], true).unwrap();
    assert_eq!(c, PlantUmlCommand::PathExecutable);
}

#[test]
fn resolver_errors_clearly_when_nothing_is_available() {
    let message = PlantUmlCommand::resolve_from(None, false, vec![("/missing/plantuml.jar".into(), false)], false).unwrap_err();
    assert!(message.contains("PlantUML is not available"));
    assert!(message.contains("MDD_PLANTUML_JAR"));
    assert!(message.contains("plantuml"));
}

#[test]
fn resolver_env_jar_errors() {
    assert_eq!(PlantUmlCommand::resolve_from(Some(String::new()), false, vec![], true).unwrap_err(), "MDD_PLANTUML_JAR is set but empty");
    assert_eq!(
        PlantUmlCommand::resolve_from(Some("/x.jar".into()), false, vec![("/p.jar".into(), true)], true).unwrap_err(),
        "MDD_PLANTUML_JAR points to /x.jar, but that file does not exist"
    );
}

#[test]
fn command_labels() {
    let jar = PlantUmlCommand::JavaJar { jar_path: "/a/p.jar".into() };
    assert_eq!(jar.failure_label(), "java -jar /a/p.jar");
    assert_eq!(jar.spawn_error(), "failed to start `java` for PlantUML jar /a/p.jar; install Java/OpenJDK or add `java` to PATH");
    assert_eq!(PlantUmlCommand::PathExecutable.failure_label(), "plantuml");
    assert_eq!(PlantUmlCommand::PathExecutable.spawn_error(), "failed to start `plantuml`; install PlantUML or add it to PATH");
}
