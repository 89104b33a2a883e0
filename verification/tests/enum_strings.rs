use raytracer::parameters::SphereGenerationMode;
use raytracer::sphere::SphereType;
use raytracer::util::str_eq;

#[test]
fn sphere_type_to_string() {
    assert_eq!(SphereType::Reflexive.to_string(), "Reflexive");
    assert_eq!(SphereType::Refractive.to_string(), "Refractive");
}

#[test]
fn sphere_type_from_string() {
    assert_eq!(SphereType::from_string("Reflexive"), SphereType::Reflexive);
    assert_eq!(SphereType::from_string("Refractive"), SphereType::Refractive);
}

#[test]
fn sphere_type_from_unknown_string_falls_back() {
    assert_eq!(SphereType::from_string(""), SphereType::Reflexive);
    assert_eq!(SphereType::from_string("Matte"), SphereType::Reflexive);
    assert_eq!(SphereType::from_string("refractive"), SphereType::Reflexive);
}

#[test]
fn sphere_type_name_round_trip() {
    for t in [SphereType::Reflexive, SphereType::Refractive] {
        assert_eq!(SphereType::from_string(t.to_string()), t);
    }
}

#[test]
fn generation_mode_to_string() {
    assert_eq!(SphereGenerationMode::Hardcoded.to_string(), "Hardcoded");
    assert_eq!(SphereGenerationMode::Random.to_string(), "Random");
    assert_eq!(SphereGenerationMode::InLine.to_string(), "InLine");
}

#[test]
fn generation_mode_from_string() {
    assert_eq!(
        SphereGenerationMode::from_string("Random"),
        SphereGenerationMode::Random
    );
    assert_eq!(
        SphereGenerationMode::from_string("InLine"),
        SphereGenerationMode::InLine
    );
    assert_eq!(
        SphereGenerationMode::from_string("Hardcoded"),
        SphereGenerationMode::Hardcoded
    );
}

#[test]
fn generation_mode_from_unknown_string_falls_back() {
    assert_eq!(
        SphereGenerationMode::from_string("Reflexive"),
        SphereGenerationMode::Hardcoded
    );
    assert_eq!(
        SphereGenerationMode::from_string(""),
        SphereGenerationMode::Hardcoded
    );
}

#[test]
fn generation_mode_name_round_trip() {
    for m in [
        SphereGenerationMode::Hardcoded,
        SphereGenerationMode::Random,
        SphereGenerationMode::InLine,
    ] {
        assert_eq!(SphereGenerationMode::from_string(m.to_string()), m);
    }
}

#[test]
fn str_eq_compares_contents() {
    assert!(str_eq("", ""));
    assert!(str_eq("abc", "abc"));
    assert!(!str_eq("abc", "abd"));
    assert!(!str_eq("abc", "abcd"));
    assert!(!str_eq("abcd", "abc"));
}
