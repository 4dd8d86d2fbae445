//! Fetch planning: per-authority credential resolution and dispatch.
//!
//! Fetching an artifact starts by classifying its reference. A local file may
//! only be read when file loading is explicitly allowed — never silently
//! falling back to the network. A bundle or registry image resolves
//! credentials for its authority (the part of the identifier before the first
//! `/`) from a caller-supplied mapping, defaulting to anonymous access with
//! the most restrictive settings. The resulting plan names exactly the one
//! retrieval the caller is to perform; the retrieval itself is I/O and lives
//! with the caller.

use vstd::prelude::*;
use crate::reference::{ClassifyError, RefView, ResourceRef, spec_classify};

verus! {

/// A credential for a registry authority.
pub enum RegistryAuth {
    Anonymous,
    Basic(String, String),
    Token(String),
}

/// Per-authority registry settings, read from a caller-supplied mapping.
pub struct RegistrySettings {
    pub auth: RegistryAuth,
    pub allow_latest: bool,
    pub allow_insecure: bool,
}

/// The view of a credential.
pub enum AuthView {
    Anonymous,
    Basic(Seq<char>, Seq<char>),
    Token(Seq<char>),
}

/// The view of per-authority settings.
pub struct SettingsView {
    pub auth: AuthView,
    pub allow_latest: bool,
    pub allow_insecure: bool,
}

impl RegistryAuth {
    /// The view of this credential.
    pub open spec fn view(self) -> AuthView {
        match self {
            RegistryAuth::Anonymous => AuthView::Anonymous,
            RegistryAuth::Basic(u, p) => AuthView::Basic(u@, p@),
            RegistryAuth::Token(t) => AuthView::Token(t@),
        }
    }

    /// A copy of this credential.
    pub fn duplicate(&self) -> (r: RegistryAuth)
        ensures
            r@ == self@,
    {
        match self {
            RegistryAuth::Anonymous => RegistryAuth::Anonymous,
            RegistryAuth::Basic(u, p) => RegistryAuth::Basic(u.clone(), p.clone()),
            RegistryAuth::Token(t) => RegistryAuth::Token(t.clone()),
        }
    }
}

impl RegistrySettings {
    /// The view of these settings.
    pub open spec fn view(self) -> SettingsView {
        SettingsView { auth: self.auth@, allow_latest: self.allow_latest, allow_insecure: self.allow_insecure }
    }
}

/// The most restrictive settings: anonymous access, nothing extra allowed.
/// Used for every authority the caller's mapping does not name.
pub open spec fn spec_anonymous_settings() -> SettingsView {
    SettingsView { auth: AuthView::Anonymous, allow_latest: false, allow_insecure: false }
}

/// The registry authority of an identifier: the part before the first `/`,
/// or nothing when the identifier holds no `/`.
pub open spec fn spec_authority(s: Seq<char>) -> Option<Seq<char>>
    decreases s.len(),
{
    if s.len() == 0 {
        None
    } else if s[0] == '/' {
        Some(Seq::empty())
    } else {
        match spec_authority(s.skip(1)) {
            Some(a) => Some(seq![s[0]] + a),
            None => None,
        }
    }
}

/// The settings stored for an authority in the caller's mapping: the first
/// pair whose key equals the authority.
pub open spec fn spec_settings_of(pairs: Seq<(String, RegistrySettings)>, authority: Seq<char>) -> Option<SettingsView>
    decreases pairs.len(),
{
    if pairs.len() == 0 {
        None
    } else if pairs[0].0@ == authority {
        Some(pairs[0].1@)
    } else {
        spec_settings_of(pairs.drop_first(), authority)
    }
}

/// The settings that govern an identifier: those its authority is mapped to,
/// or the most restrictive defaults when it has no authority or the mapping
/// does not name it.
pub open spec fn spec_resolved(pairs: Seq<(String, RegistrySettings)>, id: Seq<char>) -> SettingsView {
    match spec_authority(id) {
        Some(a) => match spec_settings_of(pairs, a) {
            Some(v) => v,
            None => spec_anonymous_settings(),
        },
        None => spec_anonymous_settings(),
    }
}

/// One artifact retrieval for the caller to perform.
pub enum FetchPlan {
    /// Read this local file.
    ReadFile(String),
    /// Fetch this bundle identifier with this credential.
    FetchBundle { id: String, auth: RegistryAuth },
    /// Fetch this registry image with this credential and these allowances.
    FetchImage { id: String, auth: RegistryAuth, allow_latest: bool, allow_insecure: bool },
}

/// The view of a fetch plan.
pub enum PlanView {
    ReadFile(Seq<char>),
    FetchBundle { id: Seq<char>, auth: AuthView },
    FetchImage { id: Seq<char>, auth: AuthView, allow_latest: bool, allow_insecure: bool },
}

impl FetchPlan {
    /// The view of this plan.
    pub open spec fn view(self) -> PlanView {
        match self {
            FetchPlan::ReadFile(p) => PlanView::ReadFile(p@),
            FetchPlan::FetchBundle { id, auth } => PlanView::FetchBundle { id: id@, auth: auth@ },
            FetchPlan::FetchImage { id, auth, allow_latest, allow_insecure } => PlanView::FetchImage {
                id: id@,
                auth: auth@,
                allow_latest,
                allow_insecure,
            },
        }
    }
}

/// Why no fetch plan exists for a reference.
pub enum FetchError {
    /// The reference failed classification.
    Classify(ClassifyError),
    /// The reference is a local file, but file loading is disabled.
    FileLoadDisabled,
}

/// The one retrieval owed for a reference string, or exactly why none is.
pub open spec fn spec_plan(
    s: Seq<char>,
    allow_file_load: bool,
    pairs: Seq<(String, RegistrySettings)>,
) -> Result<PlanView, FetchError> {
    match spec_classify(s) {
        Err(e) => Err(FetchError::Classify(e)),
        Ok(RefView::File(p)) => if allow_file_load {
            Ok(PlanView::ReadFile(p))
        } else {
            Err(FetchError::FileLoadDisabled)
        },
        Ok(RefView::Bindle(id)) => Ok(
            PlanView::FetchBundle { id, auth: spec_resolved(pairs, id).auth },
        ),
        Ok(RefView::Oci(id)) => (
            {
                let rs = spec_resolved(pairs, id);
                Ok(
                    PlanView::FetchImage {
                        id,
                        auth: rs.auth,
                        allow_latest: rs.allow_latest,
                        allow_insecure: rs.allow_insecure,
                    },
                )
            }
        ),
    }
}

/// The settings stored for `authority` in the caller's mapping, if any.
fn lookup_settings<'a>(pairs: &'a Vec<(String, RegistrySettings)>, authority: &str) -> (r: Option<
    &'a RegistrySettings,
>)
    ensures
        (match r {
            Some(v) => spec_settings_of(pairs@, authority@) == Some(v@),
            None => spec_settings_of(pairs@, authority@) is None,
        }),
{
    let n = pairs.len();
    let mut i: usize = 0;
    proof {
        assert(pairs@.skip(0) =~= pairs@);
    }
    while i < n
        invariant
            n == pairs@.len(),
            0 <= i <= n,
            spec_settings_of(pairs@, authority@) == spec_settings_of(
                pairs@.skip(i as int),
                authority@,
            ),
        decreases n - i,
    {
        let eq = pairs[i].0 == String::from_str(authority);
        proof {
            assert(pairs@.skip(i as int)[0] == pairs@[i as int]);
            assert(pairs@.skip(i as int).drop_first() =~= pairs@.skip(i as int + 1));
        }
        if eq {
            return Some(&pairs[i].1);
        }
        i += 1;
    }
    proof {
        assert(pairs@.skip(n as int).len() == 0);
    }
    None
}

/// The settings that govern an identifier, with the anonymous defaults.
pub fn resolve_settings(id: &str, pairs: &Vec<(String, RegistrySettings)>) -> (r: RegistrySettings)
    ensures
        r@ == spec_resolved(pairs@, id@),
{
    let anonymous = RegistrySettings {
        auth: RegistryAuth::Anonymous,
        allow_latest: false,
        allow_insecure: false,
    };
    match crate::reference::oci_authority(id) {
        Some(authority) => {
            proof {
                lemma_authority_some(id@, authority@);
            }
            match lookup_settings(pairs, authority) {
                Some(v) => RegistrySettings {
                    auth: v.auth.duplicate(),
                    allow_latest: v.allow_latest,
                    allow_insecure: v.allow_insecure,
                },
                None => anonymous,
            }
        },
        None => {
            proof {
                lemma_authority_none(id@);
            }
            anonymous
        },
    }
}

/// A prefix up to the first `/` is the authority.
proof fn lemma_authority_some(s: Seq<char>, a: Seq<char>)
    requires
        a.len() < s.len(),
        s.subrange(0, a.len() as int) == a,
        s[a.len() as int] == '/',
        forall|j: int| 0 <= j < a.len() ==> s[j] != '/',
    ensures
        spec_authority(s) == Some(a),
    decreases s.len(),
{
    if a.len() == 0 {
        assert(s[0] == '/');
        assert(spec_authority(s) == Some(Seq::<char>::empty()));
    } else {
        assert(s[0] == a[0]) by {
            assert(s.subrange(0, a.len() as int)[0] == s[0]);
        }
        assert(s[0] != '/');
        let s1 = s.skip(1);
        let a1 = a.skip(1);
        assert(s1.subrange(0, a1.len() as int) =~= a1) by {
            assert forall|j: int| 0 <= j < a1.len() implies s1.subrange(0, a1.len() as int)[j]
                == a1[j] by {
                assert(s1[j] == s[j + 1]);
                assert(a1[j] == a[j + 1]);
                assert(s.subrange(0, a.len() as int)[j + 1] == s[j + 1]);
            }
        }
        assert(s1[a1.len() as int] == '/');
        assert forall|j: int| 0 <= j < a1.len() implies s1[j] != '/' by {
            assert(s1[j] == s[j + 1]);
        }
        lemma_authority_some(s1, a1);
        assert(seq![s[0]] + a1 =~= a);
    }
}

/// A string with no `/` has no authority.
proof fn lemma_authority_none(s: Seq<char>)
    requires
        forall|j: int| 0 <= j < s.len() ==> s[j] != '/',
    ensures
        spec_authority(s) is None,
    decreases s.len(),
{
    if s.len() > 0 {
        assert forall|j: int| 0 <= j < s.skip(1).len() implies s.skip(1)[j] != '/' by {
            assert(s.skip(1)[j] == s[j + 1]);
        }
        lemma_authority_none(s.skip(1));
    }
}

/// Plan the one retrieval for a reference string: classify it, gate local
/// files behind `allow_file_load`, and resolve per-authority credentials for
/// bundle and image sources.
pub fn plan_fetch(
    reference: &str,
    allow_file_load: bool,
    registry_settings: &Vec<(String, RegistrySettings)>,
) -> (r: Result<FetchPlan, FetchError>)
    ensures
        (match r {
            Ok(p) => spec_plan(reference@, allow_file_load, registry_settings@) == Ok::<
                PlanView,
                FetchError,
            >(p@),
            Err(e) => spec_plan(reference@, allow_file_load, registry_settings@) == Err::<
                PlanView,
                FetchError,
            >(e),
        }),
{
    match ResourceRef::parse(reference) {
        Err(e) => Err(FetchError::Classify(e)),
        Ok(ResourceRef::File(path)) => {
            if allow_file_load {
                Ok(FetchPlan::ReadFile(path))
            } else {
                Err(FetchError::FileLoadDisabled)
            }
        },
        Ok(ResourceRef::Bindle(id)) => {
            let settings = resolve_settings(id.as_str(), registry_settings);
            Ok(FetchPlan::FetchBundle { id, auth: settings.auth })
        },
        Ok(ResourceRef::Oci(id)) => {
            let settings = resolve_settings(id.as_str(), registry_settings);
            Ok(
                FetchPlan::FetchImage {
                    id,
                    auth: settings.auth,
                    allow_latest: settings.allow_latest,
                    allow_insecure: settings.allow_insecure,
                },
            )
        },
    }
}

} // verus!
