//! Lock-free bridge between the control side (GUI, dispatcher, MIDI) and
//! the metronome's audio callback.
//!
//! Every field is an atomic: the callback never locks and never allocates.
//! Settings are versioned by [`MetronomeShared::generation`] so the callback
//! can skip re-reading them on the buffers where nothing changed, and the
//! beat position is packed into a single atomic so the UI can never observe
//! a half-updated bar/beat pair.
//!
//! Any thread may store into these atomics at any moment, so what a load
//! returns is not something the contracts here can promise.
use vstd::prelude::*;
use std::sync::atomic::{AtomicBool, AtomicU32, AtomicU64};
use std::sync::atomic::Ordering;
use crate::beat_position::{
    pack_position, subdivision_code, subdivision_from_code, timbre_code, timbre_from_code,
    unpack_position, BeatPosition, Subdivision, Timbre,
};

verus! {

/// Metronome settings in the integer form they are published in: tempo in
/// thousandths of a beat per minute, volume as the bits of its `f32`.
#[derive(Debug, Clone, Copy, PartialEq, Eq, Structural)]
pub struct PublishedSettings {
    pub bpm_milli: u32,
    pub beats_per_bar: u32,
    pub subdivision: Subdivision,
    pub timbre: Timbre,
    pub volume_bits: u32,
    pub count_in: bool,
}

/// Shared, lock-free metronome state.
pub struct MetronomeShared {
    enabled: AtomicBool,
    bpm_milli: AtomicU32,
    beats_per_bar: AtomicU32,
    subdivision: AtomicU32,
    timbre: AtomicU32,
    volume_bits: AtomicU32,
    count_in: AtomicBool,
    generation: AtomicU64,
    restart: AtomicBool,
    position: AtomicU64,
}

impl MetronomeShared {
    /// A disabled metronome publishing `settings`.
    pub fn new(settings: PublishedSettings) -> Self {
        let shared = MetronomeShared {
            enabled: AtomicBool::new(false),
            bpm_milli: AtomicU32::new(0),
            beats_per_bar: AtomicU32::new(0),
            subdivision: AtomicU32::new(0),
            timbre: AtomicU32::new(0),
            volume_bits: AtomicU32::new(0),
            count_in: AtomicBool::new(false),
            generation: AtomicU64::new(0),
            restart: AtomicBool::new(false),
            position: AtomicU64::new(0),
        };
        shared.set_settings(settings);
        shared
    }

    pub fn set_enabled(&self, on: bool) {
        self.enabled.store(on, Ordering::Release);
    }

    pub fn enabled(&self) -> bool {
        self.enabled.load(Ordering::Acquire)
    }

    /// Publish new settings, then bump the generation last: a callback that
    /// sees the new generation sees every field stored before it.
    pub fn set_settings(&self, settings: PublishedSettings) {
        self.bpm_milli.store(settings.bpm_milli, Ordering::Relaxed);
        self.beats_per_bar.store(settings.beats_per_bar, Ordering::Relaxed);
        self.subdivision.store(subdivision_code(settings.subdivision), Ordering::Relaxed);
        self.timbre.store(timbre_code(settings.timbre), Ordering::Relaxed);
        self.volume_bits.store(settings.volume_bits, Ordering::Relaxed);
        self.count_in.store(settings.count_in, Ordering::Relaxed);
        let _ = self.generation.fetch_add(1, Ordering::Release);
    }

    /// The published settings. An unknown subdivision or timbre code reads
    /// as the default one.
    pub fn settings(&self) -> PublishedSettings {
        PublishedSettings {
            bpm_milli: self.bpm_milli.load(Ordering::Relaxed),
            beats_per_bar: self.beats_per_bar.load(Ordering::Relaxed),
            subdivision: subdivision_from_code(self.subdivision.load(Ordering::Relaxed)),
            timbre: timbre_from_code(self.timbre.load(Ordering::Relaxed)),
            volume_bits: self.volume_bits.load(Ordering::Relaxed),
            count_in: self.count_in.load(Ordering::Relaxed),
        }
    }

    /// Bumped by every settings change. The callback compares it against
    /// its own copy instead of re-reading each field on every buffer.
    pub fn generation(&self) -> u64 {
        self.generation.load(Ordering::Acquire)
    }

    pub fn request_restart(&self) {
        self.restart.store(true, Ordering::Release);
    }

    /// Consume a pending restart request: the flag is cleared in the same
    /// atomic step that reads it, so a request is delivered to exactly one
    /// buffer.
    pub fn take_restart(&self) -> bool {
        self.restart.swap(false, Ordering::AcqRel)
    }

    pub fn publish_position(&self, pos: BeatPosition) {
        self.position.store(pack_position(pos), Ordering::Relaxed);
    }

    /// The last published position. It is read in one load, so it is
    /// always a whole published position: each counter is the published
    /// one modulo 2^16.
    pub fn position(&self) -> (r: BeatPosition)
        ensures
            r.bar <= 0xFFFF,
            r.beat <= 0xFFFF,
            r.tick <= 0xFFFF,
    {
        unpack_position(self.position.load(Ordering::Relaxed))
    }
}

} // verus!
