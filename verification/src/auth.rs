//! The authentication subsystem of the platform.

use crate::error::Error;
use crate::platform::{BackendKind, HostOs};
use crate::text::opt_view;
use vstd::prelude::*;

verus! {

/// What stands in for presence prompts outside of an operation.
pub const STANDALONE_PRESENCE: &'static str =
    "standalone request_presence — use sign_with_presence for per-operation presence";

/// Capabilities of the platform's authentication subsystem.
#[derive(Debug, Clone)]
pub struct AuthCapabilities {
    /// A biometric authenticator is available (Touch ID, Windows Hello).
    pub biometric_available: bool,
    /// Password or PIN can be used instead in the same flow.
    pub password_available: bool,
    /// Presence can be cached across operations for some time (macOS only).
    pub presence_caching: bool,
    /// Name of the authenticator, if known.
    pub authenticator_name: Option<String>,
}

/// What a platform offers; `touch_id` tells whether Touch ID can be used now.
pub open spec fn offers(host: HostOs, touch_id: bool, capabilities: AuthCapabilities) -> bool {
    match host {
        HostOs::MacOs => {
            &&& capabilities.biometric_available == touch_id
            &&& capabilities.password_available
            &&& capabilities.presence_caching
            &&& opt_view(capabilities.authenticator_name) == Some("Touch ID"@)
        },
        HostOs::Windows => {
            &&& capabilities.biometric_available
            &&& capabilities.password_available
            &&& !capabilities.presence_caching
            &&& opt_view(capabilities.authenticator_name) == Some("Windows Hello"@)
        },
        _ => {
            &&& !capabilities.biometric_available
            &&& !capabilities.password_available
            &&& !capabilities.presence_caching
            &&& capabilities.authenticator_name is None
        },
    }
}

/// A biometric authenticator is available.
pub open spec fn has_biometrics(host: HostOs, touch_id: bool) -> bool {
    host == HostOs::Windows || (host == HostOs::MacOs && touch_id)
}

/// What the platform offers; `touch_id` tells whether Touch ID can be used now.
pub fn platform_auth_capabilities(host: HostOs, touch_id: bool) -> (capabilities: AuthCapabilities)
    ensures
        offers(host, touch_id, capabilities),
{
    match host {
        HostOs::MacOs => AuthCapabilities {
            biometric_available: touch_id,
            password_available: true,
            presence_caching: true,
            authenticator_name: Some("Touch ID".to_owned()),
        },
        HostOs::Windows => AuthCapabilities {
            biometric_available: true,
            password_available: true,
            presence_caching: false,
            authenticator_name: Some("Windows Hello".to_owned()),
        },
        _ => AuthCapabilities {
            biometric_available: false,
            password_available: false,
            presence_caching: false,
            authenticator_name: None,
        },
    }
}

/// Handle to the authentication subsystem of the platform.
#[derive(Debug)]
pub struct AuthHandle {
    backend_kind: BackendKind,
}

impl View for AuthHandle {
    type V = BackendKind;

    closed spec fn view(&self) -> BackendKind {
        self.backend_kind
    }
}

impl AuthHandle {
    /// A handle for keys of this backend.
    pub fn new(backend_kind: BackendKind) -> (handle: Self)
        ensures
            handle@ == backend_kind,
    {
        AuthHandle { backend_kind }
    }

    /// What the platform offers.
    pub fn capabilities(&self, host: HostOs, touch_id: bool) -> (capabilities: AuthCapabilities)
        ensures
            offers(host, touch_id, capabilities),
    {
        platform_auth_capabilities(host, touch_id)
    }

    /// Requests a presence verification of its own, with a reason for the user.
    ///
    /// It never succeeds: without a biometric authenticator presence is not
    /// available, and with one only the presence of single operations is
    /// implemented. So no caller can mistake it for a success.
    pub fn request_presence(&self, host: HostOs, touch_id: bool, _reason: &str) -> (res: Result<
        (),
        Error,
    >)
        ensures
            res matches Err(e) && if has_biometrics(host, touch_id) {
                e matches Error::NotImplemented { feature } && feature@ == STANDALONE_PRESENCE@
            } else {
                e is PresenceNotAvailable
            },
    {
        if !self.capabilities(host, touch_id).biometric_available {
            return Err(Error::PresenceNotAvailable);
        }
        Err(Error::NotImplemented { feature: STANDALONE_PRESENCE.to_owned() })
    }

    /// Gives a cached presence up. There is none to give up yet: nothing
    /// happens.
    pub fn evict_presence_cache(&self) {
    }

    /// The backend that the handle is for.
    pub fn backend_kind(&self) -> (kind: BackendKind)
        ensures
            kind == self@,
    {
        self.backend_kind
    }
}

/// What each platform offers: Touch ID on macOS where it can be used, Windows
/// Hello on Windows, and nothing elsewhere.
pub proof fn platforms_offer(host: HostOs, touch_id: bool, capabilities: AuthCapabilities)
    requires
        offers(host, touch_id, capabilities),
    ensures
        capabilities.biometric_available <==> host == HostOs::Windows || (host == HostOs::MacOs
            && touch_id),
        capabilities.password_available <==> host == HostOs::Windows || host == HostOs::MacOs,
        capabilities.presence_caching <==> host == HostOs::MacOs,
        host == HostOs::MacOs ==> (capabilities.authenticator_name matches Some(name) && name@
            == "Touch ID"@),
        host == HostOs::Windows ==> (capabilities.authenticator_name matches Some(name) && name@
            == "Windows Hello"@),
        host == HostOs::Linux || host == HostOs::Other ==> capabilities.authenticator_name is None,
        has_biometrics(host, touch_id) == capabilities.biometric_available,
{
}

/// A presence request of its own never succeeds: it says whether hardware or code
/// is missing.
pub proof fn presence_request_never_succeeds(
    handle: &AuthHandle,
    host: HostOs,
    touch_id: bool,
    reason: &str,
    res: Result<(), Error>,
)
    requires
        call_ensures(AuthHandle::request_presence, (handle, host, touch_id, reason), res),
    ensures
        res is Err,
        res matches Err(Error::NotImplemented { .. }) <==> host == HostOs::Windows || (host
            == HostOs::MacOs && touch_id),
        res matches Err(Error::PresenceNotAvailable) <==> !(host == HostOs::Windows || (host
            == HostOs::MacOs && touch_id)),
{
}

} // verus!
