//! Artifact reference classification.
//!
//! An opaque reference string is turned into a typed source: a local file
//! path, a content-bundle identifier, or a container-registry image
//! identifier. A bare string with no scheme that would itself parse under a
//! synthesized registry scheme is treated as a registry image equal to the
//! original string; any other scheme is rejected.

use vstd::prelude::*;

verus! {

/// A typed artifact source, derived once from a reference string.
pub enum ResourceRef {
    File(String),
    Bindle(String),
    Oci(String),
}

/// Why a reference string failed classification.
pub enum ClassifyError {
    /// The URL parsed, but under a scheme this host does not support.
    UnsupportedScheme,
    /// A `file` URL that cannot be converted to a filesystem path.
    InvalidFilePath,
    /// A `bindle` URL that does not carry the `bindle://` prefix.
    InvalidBundleReference,
    /// An `oci` URL that does not carry the `oci://` prefix.
    InvalidImageReference,
    /// A bare reference that does not parse under a synthesized `oci://` prefix.
    InvalidBareReference,
    /// A string that is no URL at all.
    InvalidReference,
}

/// The view of a typed artifact source.
pub enum RefView {
    File(Seq<char>),
    Bindle(Seq<char>),
    Oci(Seq<char>),
}

impl ResourceRef {
    /// The view of this reference.
    pub open spec fn view(self) -> RefView {
        match self {
            ResourceRef::File(p) => RefView::File(p@),
            ResourceRef::Bindle(i) => RefView::Bindle(i@),
            ResourceRef::Oci(i) => RefView::Oci(i@),
        }
    }
}

/// How a string fares under URL parsing: it parses with some scheme, it has
/// no scheme at all, or it is malformed in some other way.
pub enum UrlOutcome {
    Scheme(String),
    NoScheme,
    Malformed,
}

impl UrlOutcome {
    /// The view of a parse outcome: the scheme on success; on failure,
    /// whether the failure was only the lack of a scheme.
    pub open spec fn view(self) -> Result<Seq<char>, bool> {
        match self {
            UrlOutcome::Scheme(s) => Ok(s@),
            UrlOutcome::NoScheme => Err(true),
            UrlOutcome::Malformed => Err(false),
        }
    }
}

/// How URL parsing classifies a string: `Ok(scheme)` when it parses as an
/// absolute URL with that (lower-cased) scheme; `Err(true)` when parsing
/// fails only because the string is relative, with no scheme; `Err(false)`
/// on any other parse failure. A fixed function of the string alone.
pub uninterp spec fn url_scheme_class(s: Seq<char>) -> Result<Seq<char>, bool>;

/// The filesystem path a string denotes when it parses as a URL convertible
/// to a path that is valid UTF-8; nothing otherwise. A fixed function of the
/// string alone.
pub uninterp spec fn url_file_path(s: Seq<char>) -> Option<Seq<char>>;

/// Relies on `url::Url::parse` for the outcome and `url::Url::scheme` for the
/// scheme of a parsed URL: both are deterministic in the input string, and
/// `scheme` returns the parsed URL's lower-cased scheme.
#[verifier::external_body]
fn parse_scheme(s: &str) -> (r: UrlOutcome)
    ensures
        r@ == url_scheme_class(s@),
{
    match url::Url::parse(s) {
        Ok(u) => UrlOutcome::Scheme(u.scheme().to_string()),
        Err(url::ParseError::RelativeUrlWithoutBase) => UrlOutcome::NoScheme,
        Err(_) => UrlOutcome::Malformed,
    }
}

/// Relies on `url::Url::parse` and `url::Url::to_file_path`: for a parsed
/// URL, `to_file_path` either yields the denoted filesystem path or fails;
/// both are deterministic in the input string.
#[verifier::external_body]
fn file_path_of(s: &str) -> (r: Option<String>)
    ensures
        (match r {
            Some(p) => url_file_path(s@) == Some(p@),
            None => url_file_path(s@) is None,
        }),
{
    match url::Url::parse(s) {
        Ok(u) => match u.to_file_path() {
            Ok(p) => p.into_os_string().into_string().ok(),
            Err(()) => None,
        },
        Err(_) => None,
    }
}

/// Relies on `str::strip_prefix`: the suffix after an exact prefix match,
/// or nothing when the string does not start with the prefix.
#[verifier::external_body]
fn strip_prefix_str<'a>(s: &'a str, p: &str) -> (r: Option<&'a str>)
    ensures
        (match r {
            Some(t) => s@ == p@ + t@,
            None => !(s@.len() >= p@.len() && s@.subrange(0, p@.len() as int) == p@),
        }),
{
    s.strip_prefix(p)
}

/// A string that parses under the `file` scheme and denotes a filesystem
/// path classifies as that local file; one that denotes no path fails.
pub proof fn lemma_file_form_classifies(s: Seq<char>)
    requires
        url_scheme_class(s) == Ok::<Seq<char>, bool>("file"@),
    ensures
        spec_classify(s) == (match url_file_path(s) {
            Some(p) => Ok::<RefView, ClassifyError>(RefView::File(p)),
            None => Err::<RefView, ClassifyError>(ClassifyError::InvalidFilePath),
        }),
{
}

/// A reference in `bindle://` form that parses under the `bindle` scheme
/// classifies as the bundle identifier that follows the prefix.
pub proof fn lemma_bundle_form_classifies(s: Seq<char>, rest: Seq<char>)
    requires
        s == "bindle://"@ + rest,
        url_scheme_class(s) == Ok::<Seq<char>, bool>("bindle"@),
    ensures
        spec_classify(s) == Ok::<RefView, ClassifyError>(RefView::Bindle(rest)),
{
    reveal_strlit("file");
    reveal_strlit("bindle");
    assert("bindle"@.len() == 6);
    assert("file"@.len() == 4);
    assert("bindle"@ != "file"@);
    lemma_concat_strip(s, "bindle://"@, rest);
}

/// A reference in `oci://` form that parses under the `oci` scheme
/// classifies as the image identifier that follows the prefix.
pub proof fn lemma_image_form_classifies(s: Seq<char>, rest: Seq<char>)
    requires
        s == "oci://"@ + rest,
        url_scheme_class(s) == Ok::<Seq<char>, bool>("oci"@),
    ensures
        spec_classify(s) == Ok::<RefView, ClassifyError>(RefView::Oci(rest)),
{
    reveal_strlit("file");
    reveal_strlit("bindle");
    reveal_strlit("oci");
    assert("oci"@.len() == 3);
    assert("file"@.len() == 4);
    assert("bindle"@.len() == 6);
    assert("oci"@ != "file"@ && "oci"@ != "bindle"@);
    lemma_concat_strip(s, "oci://"@, rest);
}

/// A bare reference — one with no scheme — that parses under a synthesized
/// `oci://` prefix classifies as a registry image equal to the original
/// string.
pub proof fn lemma_bare_reference_defaults_to_image(s: Seq<char>)
    requires
        url_scheme_class(s) == Err::<Seq<char>, bool>(true),
        url_scheme_class("oci://"@ + s) is Ok,
    ensures
        spec_classify(s) == Ok::<RefView, ClassifyError>(RefView::Oci(s)),
{
}

/// A reference under any scheme other than `file`, `bindle` or `oci` fails
/// classification.
pub proof fn lemma_unsupported_scheme_fails(s: Seq<char>, scheme: Seq<char>)
    requires
        url_scheme_class(s) == Ok::<Seq<char>, bool>(scheme),
        scheme != "file"@,
        scheme != "bindle"@,
        scheme != "oci"@,
    ensures
        spec_classify(s) == Err::<RefView, ClassifyError>(ClassifyError::UnsupportedScheme),
{
}

proof fn lemma_concat_strip(s: Seq<char>, p: Seq<char>, t: Seq<char>)
    requires
        s == p + t,
    ensures
        spec_strip_prefix(s, p) == Some(t),
{
    assert(s.subrange(0, p.len() as int) =~= p);
    assert(s.skip(p.len() as int) =~= t);
}

/// The suffix of `s` after the prefix `p`, when `s` starts with `p`.
pub open spec fn spec_strip_prefix(s: Seq<char>, p: Seq<char>) -> Option<Seq<char>> {
    if s.len() >= p.len() && s.subrange(0, p.len() as int) == p {
        Some(s.skip(p.len() as int))
    } else {
        None
    }
}

/// How a reference string classifies, as a function of URL parsing.
pub open spec fn spec_classify(s: Seq<char>) -> Result<RefView, ClassifyError> {
    match url_scheme_class(s) {
        Ok(scheme) => if scheme == "file"@ {
            match url_file_path(s) {
                Some(p) => Ok(RefView::File(p)),
                None => Err(ClassifyError::InvalidFilePath),
            }
        } else if scheme == "bindle"@ {
            match spec_strip_prefix(s, "bindle://"@) {
                Some(id) => Ok(RefView::Bindle(id)),
                None => Err(ClassifyError::InvalidBundleReference),
            }
        } else if scheme == "oci"@ {
            match spec_strip_prefix(s, "oci://"@) {
                Some(id) => Ok(RefView::Oci(id)),
                None => Err(ClassifyError::InvalidImageReference),
            }
        } else {
            Err(ClassifyError::UnsupportedScheme)
        },
        Err(true) => match url_scheme_class("oci://"@ + s) {
            Ok(_) => Ok(RefView::Oci(s)),
            Err(_) => Err(ClassifyError::InvalidBareReference),
        },
        Err(false) => Err(ClassifyError::InvalidReference),
    }
}

impl ResourceRef {
    /// Classify a reference string into a typed artifact source, or say
    /// exactly why it is rejected.
    pub fn parse(s: &str) -> (r: Result<ResourceRef, ClassifyError>)
        ensures
            (match r {
                Ok(rr) => spec_classify(s@) == Ok::<RefView, ClassifyError>(rr@),
                Err(e) => spec_classify(s@) == Err::<RefView, ClassifyError>(e),
            }),
    {
        match parse_scheme(s) {
            UrlOutcome::Scheme(scheme) => {
                if scheme == String::from_str("file") {
                    match file_path_of(s) {
                        Some(p) => Ok(ResourceRef::File(p)),
                        None => Err(ClassifyError::InvalidFilePath),
                    }
                } else if scheme == String::from_str("bindle") {
                    match strip_prefix_str(s, "bindle://") {
                        Some(id) => {
                            proof {
                                lemma_concat_strip(s@, "bindle://"@, id@);
                            }
                            Ok(ResourceRef::Bindle(String::from_str(id)))
                        },
                        None => Err(ClassifyError::InvalidBundleReference),
                    }
                } else if scheme == String::from_str("oci") {
                    match strip_prefix_str(s, "oci://") {
                        Some(id) => {
                            proof {
                                lemma_concat_strip(s@, "oci://"@, id@);
                            }
                            Ok(ResourceRef::Oci(String::from_str(id)))
                        },
                        None => Err(ClassifyError::InvalidImageReference),
                    }
                } else {
                    Err(ClassifyError::UnsupportedScheme)
                }
            },
            UrlOutcome::NoScheme => {
                let synthesized = String::from_str("oci://").concat(s);
                match parse_scheme(synthesized.as_str()) {
                    UrlOutcome::Scheme(_) => Ok(ResourceRef::Oci(String::from_str(s))),
                    _ => Err(ClassifyError::InvalidBareReference),
                }
            },
            UrlOutcome::Malformed => Err(ClassifyError::InvalidReference),
        }
    }
}

/// The registry authority of a bundle or image identifier: the part before
/// the first `/`, or nothing when the identifier holds no `/`.
pub fn oci_authority<'a>(s: &'a str) -> (r: Option<&'a str>)
    ensures
        (match r {
            Some(a) => a@.len() < s@.len() && s@.subrange(0, a@.len() as int) == a@ && s@[a@.len() as int]
                == '/' && (forall|j: int| 0 <= j < a@.len() ==> s@[j] != '/'),
            None => forall|j: int| 0 <= j < s@.len() ==> s@[j] != '/',
        }),
{
    match split_once_slash(s) {
        Some((authority, rest)) => {
            proof {
                let a = authority@;
                let b = rest@;
                assert(s@.subrange(0, a.len() as int) =~= a);
                assert(s@[a.len() as int] == (a + seq!['/'] + b)[a.len() as int]);
                assert forall|j: int| 0 <= j < a.len() implies s@[j] != '/' by {
                    assert(s@[j] == a[j]);
                    if s@[j] == '/' {
                        assert(a.contains('/'));
                    }
                }
            }
            Some(authority)
        },
        None => None,
    }
}

/// Relies on `str::split_once` with a `/` delimiter: on a match it returns
/// the part before the first `/` and the part after it; it matches exactly
/// when the string contains a `/`.
#[verifier::external_body]
fn split_once_slash<'a>(s: &'a str) -> (r: Option<(&'a str, &'a str)>)
    ensures
        (match r {
            Some(parts) => s@ == parts.0@ + seq!['/'] + parts.1@ && !parts.0@.contains('/'),
            None => !s@.contains('/'),
        }),
{
    s.split_once('/')
}

} // verus!
