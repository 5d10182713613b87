//! `libSkynest`, an online-services SDK: logins complete locally, the
//! server time is the host's, and asset downloads fail as a server that is
//! unavailable (HTTP 503) would answer. Each entry point says which guest
//! callback to call and with what; the caller makes the call.
use vstd::prelude::*;

verus! {

/// The address of a guest function; zero is none.
pub type GuestFunction = u32;

/// A guest pointer.
pub type GuestPtr = u32;

/// The status reported for asset and metadata requests: service
/// unavailable.
pub const ASSET_ERROR_STATUS: i32 = 503;

/// The callbacks the game registered.
#[derive(Clone, Copy, Debug, PartialEq, Eq)]
pub struct State {
    identity_logged_in: Option<GuestFunction>,
    identity_time_success: Option<GuestFunction>,
    assets_load_error: Option<GuestFunction>,
    assets_metadata_error: Option<GuestFunction>,
}

/// A call of a guest callback.
#[derive(Clone, Copy, Debug, PartialEq, Eq)]
pub enum CallbackCall {
    /// The callback without arguments.
    NoArgs(GuestFunction),
    /// The callback with one integer.
    WithI32(GuestFunction, i32),
    /// An asset load error: the asset's name, the status and three context
    /// pointers.
    AssetError {
        callback: GuestFunction,
        name: GuestPtr,
        status: i32,
        context: (GuestPtr, GuestPtr, GuestPtr),
    },
    /// A metadata error: the asset's name (null for all), the status and two
    /// context pointers.
    MetadataError { callback: GuestFunction, name: GuestPtr, status: i32, context: (GuestPtr, GuestPtr) },
}

/// A registered callback that is not null.
pub open spec fn callable(c: Option<GuestFunction>) -> Option<GuestFunction> {
    match c {
        Some(f) => if f != 0 {
            Some(f)
        } else {
            None
        },
        None => None,
    }
}

fn callable_of(c: Option<GuestFunction>) -> (r: Option<GuestFunction>)
    ensures
        r == callable(c),
{
    match c {
        Some(f) => if f != 0 {
            Some(f)
        } else {
            None
        },
        None => None,
    }
}

/// The server time reported for a host clock `seconds` after the Unix
/// epoch (`None` for a clock before it): clamped to `i32`, or zero.
pub open spec fn server_time(seconds: Option<u64>) -> i32 {
    match seconds {
        Some(s) => if s > i32::MAX {
            i32::MAX
        } else {
            s as i32
        },
        None => 0,
    }
}

impl State {
    pub closed spec fn logged_in(&self) -> Option<GuestFunction> {
        self.identity_logged_in
    }

    pub closed spec fn time_success(&self) -> Option<GuestFunction> {
        self.identity_time_success
    }

    pub closed spec fn load_error(&self) -> Option<GuestFunction> {
        self.assets_load_error
    }

    pub closed spec fn metadata_error(&self) -> Option<GuestFunction> {
        self.assets_metadata_error
    }

    /// No callbacks registered.
    pub fn new() -> (r: Self)
        ensures
            r.logged_in() is None,
            r.time_success() is None,
            r.load_error() is None,
            r.metadata_error() is None,
    {
        State {
            identity_logged_in: None,
            identity_time_success: None,
            assets_load_error: None,
            assets_metadata_error: None,
        }
    }

    /// `skynest_identity_setCallbacks`: keeps the login and time callbacks.
    pub fn identity_set_callbacks(&mut self, logged_in: GuestFunction, time_success: GuestFunction)
        ensures
            final(self).logged_in() == Some(logged_in),
            final(self).time_success() == Some(time_success),
            final(self).load_error() == old(self).load_error(),
            final(self).metadata_error() == old(self).metadata_error(),
    {
        self.identity_logged_in = Some(logged_in);
        self.identity_time_success = Some(time_success);
    }

    /// `skynest_identity_login_by_method`: the login succeeds at once.
    pub fn identity_login_by_method(&self) -> (r: Option<CallbackCall>)
        ensures
            r == match callable(self.logged_in()) {
                Some(f) => Some(CallbackCall::NoArgs(f)),
                None => None::<CallbackCall>,
            },
    {
        match callable_of(self.identity_logged_in) {
            Some(f) => Some(CallbackCall::NoArgs(f)),
            None => None,
        }
    }

    /// `skynest_identity_isServiceAvailable`: every service is.
    pub fn identity_is_service_available(&self) -> (r: bool)
        ensures
            r,
    {
        true
    }

    /// `skynest_identity_time`: reports the host clock.
    pub fn identity_time(&self, seconds_since_epoch: Option<u64>) -> (r: Option<CallbackCall>)
        ensures
            r == match callable(self.time_success()) {
                Some(f) => Some(CallbackCall::WithI32(f, server_time(seconds_since_epoch))),
                None => None::<CallbackCall>,
            },
    {
        let time = match seconds_since_epoch {
            Some(s) => if s > i32::MAX as u64 {
                i32::MAX
            } else {
                s as i32
            },
            None => 0,
        };
        match callable_of(self.identity_time_success) {
            Some(f) => Some(CallbackCall::WithI32(f, time)),
            None => None,
        }
    }

    /// `skynest_assets_setCallbacks`: keeps the two error callbacks.
    pub fn assets_set_callbacks(&mut self, load_error: GuestFunction, metadata_error: GuestFunction)
        ensures
            final(self).load_error() == Some(load_error),
            final(self).metadata_error() == Some(metadata_error),
            final(self).logged_in() == old(self).logged_in(),
            final(self).time_success() == old(self).time_success(),
    {
        self.assets_load_error = Some(load_error);
        self.assets_metadata_error = Some(metadata_error);
    }

    /// `skynest_assets_load`: the asset cannot be fetched.
    pub fn assets_load(
        &self,
        context_a: GuestPtr,
        context_b: GuestPtr,
        context_c: GuestPtr,
        asset_name: GuestPtr,
    ) -> (r: Option<CallbackCall>)
        ensures
            r == match callable(self.load_error()) {
                Some(f) => Some(
                    CallbackCall::AssetError {
                        callback: f,
                        name: asset_name,
                        status: ASSET_ERROR_STATUS,
                        context: (context_a, context_b, context_c),
                    },
                ),
                None => None::<CallbackCall>,
            },
    {
        match callable_of(self.assets_load_error) {
            Some(f) => Some(
                CallbackCall::AssetError {
                    callback: f,
                    name: asset_name,
                    status: ASSET_ERROR_STATUS,
                    context: (context_a, context_b, context_c),
                },
            ),
            None => None,
        }
    }

    /// `skynest_assets_loadMetadata`: the asset's metadata cannot be fetched.
    pub fn assets_load_metadata(&self, context_a: GuestPtr, context_b: GuestPtr, asset_name: GuestPtr) -> (r:
        Option<CallbackCall>)
        ensures
            r == match callable(self.metadata_error()) {
                Some(f) => Some(
                    CallbackCall::MetadataError {
                        callback: f,
                        name: asset_name,
                        status: ASSET_ERROR_STATUS,
                        context: (context_a, context_b),
                    },
                ),
                None => None::<CallbackCall>,
            },
    {
        match callable_of(self.assets_metadata_error) {
            Some(f) => Some(
                CallbackCall::MetadataError {
                    callback: f,
                    name: asset_name,
                    status: ASSET_ERROR_STATUS,
                    context: (context_a, context_b),
                },
            ),
            None => None,
        }
    }

    /// `skynest_assets_load_all_metadata`: no metadata can be fetched; the
    /// name reported is null.
    pub fn assets_load_all_metadata(&self, context_a: GuestPtr, context_b: GuestPtr) -> (r: Option<
        CallbackCall,
    >)
        ensures
            r == match callable(self.metadata_error()) {
                Some(f) => Some(
                    CallbackCall::MetadataError {
                        callback: f,
                        name: 0,
                        status: ASSET_ERROR_STATUS,
                        context: (context_a, context_b),
                    },
                ),
                None => None::<CallbackCall>,
            },
    {
        self.assets_load_metadata(context_a, context_b, 0)
    }
}

} // verus!
