use wasmcloud_host::reference::{ClassifyError, ResourceRef, oci_authority};

#[test]
fn file_url_classifies_as_local_file() {
    let r = ResourceRef::parse("file:///tmp/actor.wasm");
    assert!(matches!(r, Ok(ResourceRef::File(p)) if p == "/tmp/actor.wasm"));
}

#[test]
fn file_url_with_nested_path_keeps_whole_path() {
    let r = ResourceRef::parse("file:///opt/providers/kvredis.par.gz");
    assert!(matches!(r, Ok(ResourceRef::File(p)) if p == "/opt/providers/kvredis.par.gz"));
}

#[test]
fn malformed_file_url_fails_classification() {
    // A remote host cannot be converted to a local filesystem path.
    let r = ResourceRef::parse("file://remotehost/actor.wasm");
    assert!(matches!(r, Err(ClassifyError::InvalidFilePath)));
}

#[test]
fn bindle_reference_classifies_as_bundle() {
    let r = ResourceRef::parse("bindle://foo");
    assert!(matches!(r, Ok(ResourceRef::Bindle(id)) if id == "foo"));
}

#[test]
fn oci_reference_classifies_as_registry_image() {
    let r = ResourceRef::parse("oci://foo");
    assert!(matches!(r, Ok(ResourceRef::Oci(id)) if id == "foo"));
}

#[test]
fn bare_reference_defaults_to_registry_image() {
    let r = ResourceRef::parse("myregistry.io/ns/actor:0.1.0");
    assert!(matches!(r, Ok(ResourceRef::Oci(id)) if id == "myregistry.io/ns/actor:0.1.0"));
}

#[test]
fn unsupported_scheme_fails_classification() {
    let r = ResourceRef::parse("http://x");
    assert!(matches!(r, Err(ClassifyError::UnsupportedScheme)));
}

#[test]
fn bindle_without_prefix_form_fails() {
    // Parses under the bindle scheme, but not in `bindle://` form.
    let r = ResourceRef::parse("bindle:foo");
    assert!(matches!(r, Err(ClassifyError::InvalidBundleReference)));
}

#[test]
fn oci_without_prefix_form_fails() {
    let r = ResourceRef::parse("oci:foo");
    assert!(matches!(r, Err(ClassifyError::InvalidImageReference)));
}

#[test]
fn unparsable_bare_reference_fails() {
    // No scheme, and the synthesized registry form has no valid host either.
    let r = ResourceRef::parse("exa mple.com/actor:0.1.0");
    assert!(matches!(r, Err(ClassifyError::InvalidBareReference)));
}

#[test]
fn url_with_empty_host_fails_classification() {
    let r = ResourceRef::parse("http://");
    assert!(matches!(r, Err(ClassifyError::InvalidReference)));
}

#[test]
fn authority_is_part_before_first_slash() {
    let a = oci_authority("myregistry.io/ns/actor:0.1.0");
    assert_eq!(a, Some("myregistry.io"));
}

#[test]
fn authority_of_slashless_string_is_absent() {
    assert_eq!(oci_authority("justaname:tag"), None);
}

#[test]
fn authority_stops_at_first_slash_only() {
    assert_eq!(oci_authority("host:5000/a/b/c"), Some("host:5000"));
}
