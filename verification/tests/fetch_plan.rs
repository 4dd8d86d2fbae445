use wasmcloud_host::fetch::{
    FetchError, FetchPlan, RegistryAuth, RegistrySettings, plan_fetch, resolve_settings,
};
use wasmcloud_host::reference::ClassifyError;

fn settings_for(authority: &str) -> Vec<(String, RegistrySettings)> {
    vec![(
        authority.to_string(),
        RegistrySettings {
            auth: RegistryAuth::Basic("user".to_string(), "SECRET-REDACTED".to_string()),
            allow_latest: true,
            allow_insecure: false,
        },
    )]
}

#[test]
fn file_load_disabled_fails_before_any_read() {
    let r = plan_fetch("file:///tmp/actor.wasm", false, &Vec::new());
    assert!(matches!(r, Err(FetchError::FileLoadDisabled)));
}

#[test]
fn file_load_enabled_plans_a_read() {
    let r = plan_fetch("file:///tmp/actor.wasm", true, &Vec::new());
    assert!(matches!(r, Ok(FetchPlan::ReadFile(p)) if p == "/tmp/actor.wasm"));
}

#[test]
fn classification_failure_surfaces_through_planning() {
    let r = plan_fetch("http://x", true, &Vec::new());
    assert!(matches!(r, Err(FetchError::Classify(ClassifyError::UnsupportedScheme))));
}

#[test]
fn image_fetch_uses_authority_settings() {
    let settings = settings_for("myregistry.io");
    let r = plan_fetch("oci://myregistry.io/ns/actor:0.1.0", false, &settings);
    match r {
        Ok(FetchPlan::FetchImage { id, auth, allow_latest, allow_insecure }) => {
            assert_eq!(id, "myregistry.io/ns/actor:0.1.0");
            assert!(matches!(auth, RegistryAuth::Basic(u, _) if u == "user"));
            assert!(allow_latest);
            assert!(!allow_insecure);
        }
        _ => panic!("expected an image fetch plan"),
    }
}

#[test]
fn unknown_authority_falls_back_to_anonymous_restrictive() {
    let settings = settings_for("other.io");
    let r = plan_fetch("oci://myregistry.io/ns/actor:0.1.0", false, &settings);
    match r {
        Ok(FetchPlan::FetchImage { auth, allow_latest, allow_insecure, .. }) => {
            assert!(matches!(auth, RegistryAuth::Anonymous));
            assert!(!allow_latest);
            assert!(!allow_insecure);
        }
        _ => panic!("expected an image fetch plan"),
    }
}

#[test]
fn bundle_fetch_resolves_credentials_for_its_authority() {
    let settings = settings_for("bundles.example.com");
    let r = plan_fetch("bindle://bundles.example.com/thing/0.1.0", false, &settings);
    match r {
        Ok(FetchPlan::FetchBundle { id, auth }) => {
            assert_eq!(id, "bundles.example.com/thing/0.1.0");
            assert!(matches!(auth, RegistryAuth::Basic(..)));
        }
        _ => panic!("expected a bundle fetch plan"),
    }
}

#[test]
fn identifier_without_authority_resolves_anonymously() {
    let settings = settings_for("myregistry.io");
    let resolved = resolve_settings("noslashhere:tag", &settings);
    assert!(matches!(resolved.auth, RegistryAuth::Anonymous));
    assert!(!resolved.allow_latest);
    assert!(!resolved.allow_insecure);
}

#[test]
fn bare_reference_plans_an_image_fetch() {
    let r = plan_fetch("myregistry.io/ns/actor:0.1.0", false, &Vec::new());
    assert!(matches!(r, Ok(FetchPlan::FetchImage { id, .. }) if id == "myregistry.io/ns/actor:0.1.0"));
}
