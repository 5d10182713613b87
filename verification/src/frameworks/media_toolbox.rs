//! MediaToolbox: audio-processing taps. The registry of taps decides which
//! guest callback runs when; running it is the host's part.
use std::collections::HashMap;
use vstd::prelude::*;

verus! {

/// `CMTime`.
#[derive(Copy, Clone, Default, Debug, PartialEq, Eq)]
pub struct CMTime {
    pub value: i64,
    pub timescale: i32,
    pub flags: u32,
    pub epoch: i64,
}

/// `CMTimeRange`.
#[derive(Copy, Clone, Default, Debug, PartialEq, Eq)]
pub struct CMTimeRange {
    pub start: CMTime,
    pub duration: CMTime,
}

/// The opaque object a tap reference points to.
#[derive(Copy, Clone, Debug, PartialEq, Eq)]
pub struct OpaqueMTAudioProcessingTap {
    pub marker: u8,
}

/// The guest callbacks of a tap (guest function addresses, 0 for none).
#[derive(Copy, Clone, Debug, PartialEq, Eq)]
pub struct MTAudioProcessingTapCallbacks {
    pub version: i32,
    pub client_info: u32,
    pub init: u32,
    pub finalize: u32,
    pub prepare: u32,
    pub unprepare: u32,
    pub process: u32,
}

/// A registered tap.
#[derive(Copy, Clone, Debug, PartialEq, Eq)]
pub struct TapState {
    pub callbacks: MTAudioProcessingTapCallbacks,
    pub storage: u32,
    pub prepared: bool,
}

/// Tap placed before the mix's effects.
pub const PRE_EFFECTS: u32 = 1;
/// Tap placed after the mix's effects.
pub const POST_EFFECTS: u32 = 2;
/// `paramErr`.
pub const PARAM_ERR: i32 = -50;
/// The type ID that `MTAudioProcessingTapGetTypeID` reports.
pub const TAP_TYPE_ID: u32 = 0x5441_5001;

/// The registered taps, by the guest address of their reference.
pub struct State {
    taps: HashMap<u32, TapState>,
}

/// Whether a request to create a tap is acceptable: both pointers given,
/// a known placement, version 0 and a processing callback.
pub open spec fn tap_request_ok(
    callbacks_is_null: bool,
    out_is_null: bool,
    flags: u32,
    callbacks: MTAudioProcessingTapCallbacks,
) -> bool {
    !callbacks_is_null && !out_is_null && (flags == PRE_EFFECTS || flags == POST_EFFECTS)
        && callbacks.version == 0 && callbacks.process != 0
}

/// The status of `MTAudioProcessingTapCreate` before any tap is made:
/// `paramErr` for an unacceptable request, else 0. (`callbacks` is what the
/// callbacks pointer holds; it is not looked at when that pointer is null.)
pub fn check_tap_request(
    callbacks_is_null: bool,
    out_is_null: bool,
    flags: u32,
    callbacks: MTAudioProcessingTapCallbacks,
) -> (r: i32)
    ensures
        r == (if tap_request_ok(callbacks_is_null, out_is_null, flags, callbacks) {
            0
        } else {
            PARAM_ERR
        }),
{
    if callbacks_is_null || out_is_null || flags != PRE_EFFECTS && flags != POST_EFFECTS {
        return PARAM_ERR;
    }
    if callbacks.version != 0 || callbacks.process == 0 {
        return PARAM_ERR;
    }
    0
}

impl State {
    /// The registered taps.
    pub closed spec fn taps(&self) -> Map<u32, TapState> {
        self.taps@
    }

    /// No taps.
    pub fn new() -> (r: Self)
        ensures
            r.taps() == Map::<u32, TapState>::empty(),
    {
        State { taps: HashMap::new() }
    }

    /// Registers the tap at `tap` with `callbacks`, unprepared and without
    /// storage. Returns the `init` callback to run, if it has one.
    pub fn register_tap(&mut self, tap: u32, callbacks: MTAudioProcessingTapCallbacks) -> (r:
        Option<u32>)
        ensures
            final(self).taps() == old(self).taps().insert(
                tap,
                TapState { callbacks, storage: 0, prepared: false },
            ),
            r == (if callbacks.init != 0 {
                Some(callbacks.init)
            } else {
                None::<u32>
            }),
    {
        self.taps.insert(tap, TapState { callbacks, storage: 0, prepared: false });
        if callbacks.init != 0 {
            Some(callbacks.init)
        } else {
            None
        }
    }

    /// Records the storage pointer that the tap's `init` callback produced.
    pub fn set_storage(&mut self, tap: u32, storage: u32)
        ensures
            final(self).taps() == (if old(self).taps().contains_key(tap) {
                old(self).taps().insert(tap, TapState { storage, ..old(self).taps()[tap] })
            } else {
                old(self).taps()
            }),
    {
        if let Some(entry) = self.taps.get(&tap) {
            let e = *entry;
            self.taps.insert(tap, TapState { storage, ..e });
        }
    }

    /// `MTAudioProcessingTapGetStorage`: the tap's storage, or null.
    pub fn get_storage(&self, tap: u32) -> (r: u32)
        ensures
            r == (if self.taps().contains_key(tap) {
                self.taps()[tap].storage
            } else {
                0
            }),
    {
        match self.taps.get(&tap) {
            Some(t) => t.storage,
            None => 0,
        }
    }

    /// Prepares the tap: returns its `prepare` callback to run (if it is
    /// registered and has one) and marks it prepared.
    pub fn prepare_tap(&mut self, tap: u32) -> (r: Option<u32>)
        ensures
            final(self).taps() == (if old(self).taps().contains_key(tap) {
                old(self).taps().insert(tap, TapState { prepared: true, ..old(self).taps()[tap] })
            } else {
                old(self).taps()
            }),
            r == (if old(self).taps().contains_key(tap) && old(self).taps()[tap].callbacks.prepare
                != 0 {
                Some(old(self).taps()[tap].callbacks.prepare)
            } else {
                None::<u32>
            }),
    {
        match self.taps.get(&tap) {
            Some(entry) => {
                let e = *entry;
                self.taps.insert(tap, TapState { prepared: true, ..e });
                if e.callbacks.prepare != 0 {
                    Some(e.callbacks.prepare)
                } else {
                    None
                }
            },
            None => None,
        }
    }

    /// Unprepares the tap: returns its `unprepare` callback to run (where
    /// it is registered, prepared and has one) and marks it unprepared.
    pub fn unprepare_tap(&mut self, tap: u32) -> (r: Option<u32>)
        ensures
            final(self).taps() == (if old(self).taps().contains_key(tap) {
                old(self).taps().insert(tap, TapState { prepared: false, ..old(self).taps()[tap] })
            } else {
                old(self).taps()
            }),
            r == (if old(self).taps().contains_key(tap) && old(self).taps()[tap].prepared
                && old(self).taps()[tap].callbacks.unprepare != 0 {
                Some(old(self).taps()[tap].callbacks.unprepare)
            } else {
                None::<u32>
            }),
    {
        match self.taps.get(&tap) {
            Some(entry) => {
                let e = *entry;
                self.taps.insert(tap, TapState { prepared: false, ..e });
                if e.prepared && e.callbacks.unprepare != 0 {
                    Some(e.callbacks.unprepare)
                } else {
                    None
                }
            },
            None => None,
        }
    }

    /// Destroys the tap: it is unregistered, and the callbacks to run are
    /// returned in order: `unprepare` (where it was prepared), then
    /// `finalize`.
    pub fn destroy_tap(&mut self, tap: u32) -> (r: (Option<u32>, Option<u32>))
        ensures
            final(self).taps() == old(self).taps().remove(tap),
            !old(self).taps().contains_key(tap) ==> r == (None::<u32>, None::<u32>),
            old(self).taps().contains_key(tap) ==> ({
                let e = old(self).taps()[tap];
                r == (
                    if e.prepared && e.callbacks.unprepare != 0 {
                        Some(e.callbacks.unprepare)
                    } else {
                        None
                    },
                    if e.callbacks.finalize != 0 {
                        Some(e.callbacks.finalize)
                    } else {
                        None
                    },
                )
            }),
    {
        match self.taps.remove(&tap) {
            None => (None, None),
            Some(e) => {
                let unprepare = if e.prepared && e.callbacks.unprepare != 0 {
                    Some(e.callbacks.unprepare)
                } else {
                    None
                };
                let finalize = if e.callbacks.finalize != 0 {
                    Some(e.callbacks.finalize)
                } else {
                    None
                };
                (unprepare, finalize)
            },
        }
    }

    /// The status of `MTAudioProcessingTapGetSourceAudio`: `paramErr` for an
    /// unknown tap, one without a processing callback, or a null buffer
    /// list; else 0 (the caller then reports no flags, an empty time range
    /// and the frame count asked for).
    pub fn source_audio_status(&self, tap: u32, buffer_list_is_null: bool) -> (r: i32)
        ensures
            r == (if self.taps().contains_key(tap) && self.taps()[tap].callbacks.process != 0
                && !buffer_list_is_null {
                0
            } else {
                PARAM_ERR
            }),
    {
        match self.taps.get(&tap) {
            None => PARAM_ERR,
            Some(entry) => {
                if entry.callbacks.process == 0 || buffer_list_is_null {
                    PARAM_ERR
                } else {
                    0
                }
            },
        }
    }
}

} // verus!
