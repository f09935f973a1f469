//! The metronome's settings codes and its packed beat position.
//!
//! The audio callback and the UI share the metronome state through single
//! atomics, so every setting is published as an integer code and the beat
//! position is packed into one `u64`: the UI can never observe a
//! half-updated bar/beat pair.
use vstd::prelude::*;

verus! {

/// Where the metronome is: bar, beat within the bar, subdivision tick, and
/// whether it is still counting in.
#[derive(Debug, Clone, Copy, PartialEq, Eq, Structural)]
pub struct BeatPosition {
    pub bar: u32,
    pub beat: u32,
    pub tick: u32,
    pub counting_in: bool,
}

#[derive(Debug, Clone, Copy, PartialEq, Eq, Structural)]
pub enum Subdivision {
    Off,
    Eighths,
    Triplets,
    Sixteenths,
}

#[derive(Debug, Clone, Copy, PartialEq, Eq, Structural)]
pub enum Timbre {
    Click,
    Wood,
    Beep,
}

pub open spec fn subdivision_code_spec(s: Subdivision) -> u32 {
    match s {
        Subdivision::Off => 0,
        Subdivision::Eighths => 1,
        Subdivision::Triplets => 2,
        Subdivision::Sixteenths => 3,
    }
}

pub fn subdivision_code(s: Subdivision) -> (r: u32)
    ensures
        r == subdivision_code_spec(s),
{
    match s {
        Subdivision::Off => 0,
        Subdivision::Eighths => 1,
        Subdivision::Triplets => 2,
        Subdivision::Sixteenths => 3,
    }
}

/// The subdivision a code stands for; an unknown code reads as `Off`.
pub fn subdivision_from_code(code: u32) -> (r: Subdivision)
    ensures
        code <= 3 ==> subdivision_code_spec(r) == code,
        code > 3 ==> r == Subdivision::Off,
{
    match code {
        1 => Subdivision::Eighths,
        2 => Subdivision::Triplets,
        3 => Subdivision::Sixteenths,
        _ => Subdivision::Off,
    }
}

pub open spec fn timbre_code_spec(t: Timbre) -> u32 {
    match t {
        Timbre::Click => 0,
        Timbre::Wood => 1,
        Timbre::Beep => 2,
    }
}

pub fn timbre_code(t: Timbre) -> (r: u32)
    ensures
        r == timbre_code_spec(t),
{
    match t {
        Timbre::Click => 0,
        Timbre::Wood => 1,
        Timbre::Beep => 2,
    }
}

/// The timbre a code stands for; an unknown code reads as `Click`.
pub fn timbre_from_code(code: u32) -> (r: Timbre)
    ensures
        code <= 2 ==> timbre_code_spec(r) == code,
        code > 2 ==> r == Timbre::Click,
{
    match code {
        1 => Timbre::Wood,
        2 => Timbre::Beep,
        _ => Timbre::Click,
    }
}

/// Publishing a subdivision or a timbre and reading it back gives the same
/// value: the codes are faithful encodings.
pub proof fn law_setting_codes_round_trip(s: Subdivision, t: Timbre)
    ensures
        subdivision_code_spec(s) <= 3,
        timbre_code_spec(t) <= 2,
        forall|s2: Subdivision| subdivision_code_spec(s2) == subdivision_code_spec(s) ==> s2 == s,
        forall|t2: Timbre| timbre_code_spec(t2) == timbre_code_spec(t) ==> t2 == t,
{
}

/// The packed form of a position: bar, beat and tick in 16 bits each (bar
/// in the top 16), the count-in flag in the lowest bit.
pub open spec fn pack_spec(bar: u64, beat: u64, tick: u64, counting_in: bool) -> u64 {
    ((bar & 0xFFFF) << 48u64) | ((beat & 0xFFFF) << 32u64) | ((tick & 0xFFFF) << 16u64) | (
    if counting_in {
        1u64
    } else {
        0u64
    })
}

/// Pack a position into one `u64` so the UI reads it in a single load.
///
/// Each field is truncated to 16 bits: the bar exists to tell bars apart on
/// screen, and a practice session that reaches 65 535 bars simply wraps.
pub fn pack_position(pos: BeatPosition) -> (r: u64)
    ensures
        r == pack_spec(pos.bar as u64, pos.beat as u64, pos.tick as u64, pos.counting_in),
{
    let c: u64 = if pos.counting_in {
        1
    } else {
        0
    };
    ((pos.bar as u64 & 0xFFFF) << 48u64) | ((pos.beat as u64 & 0xFFFF) << 32u64) | ((pos.tick as u64
        & 0xFFFF) << 16u64) | c
}

pub fn unpack_position(bits: u64) -> (r: BeatPosition)
    ensures
        r.bar == ((bits >> 48u64) & 0xFFFF),
        r.beat == ((bits >> 32u64) & 0xFFFF),
        r.tick == ((bits >> 16u64) & 0xFFFF),
        r.counting_in == ((bits & 1) != 0),
        r.bar <= 0xFFFF,
        r.beat <= 0xFFFF,
        r.tick <= 0xFFFF,
{
    let bar = ((bits >> 48u64) & 0xFFFF) as u32;
    let beat = ((bits >> 32u64) & 0xFFFF) as u32;
    let tick = ((bits >> 16u64) & 0xFFFF) as u32;
    proof {
        assert(((bits >> 48u64) & 0xFFFF) <= 0xFFFF) by (bit_vector);
        assert(((bits >> 32u64) & 0xFFFF) <= 0xFFFF) by (bit_vector);
        assert(((bits >> 16u64) & 0xFFFF) <= 0xFFFF) by (bit_vector);
    }
    BeatPosition { bar, beat, tick, counting_in: (bits & 1) != 0 }
}

proof fn lemma_pack_fields(bar: u64, beat: u64, tick: u64, c: u64)
    requires
        c <= 1,
    ensures
        ((((bar & 0xFFFF) << 48u64) | ((beat & 0xFFFF) << 32u64) | ((tick & 0xFFFF) << 16u64) | c)
            >> 48u64) & 0xFFFF == bar & 0xFFFF,
        ((((bar & 0xFFFF) << 48u64) | ((beat & 0xFFFF) << 32u64) | ((tick & 0xFFFF) << 16u64) | c)
            >> 32u64) & 0xFFFF == beat & 0xFFFF,
        ((((bar & 0xFFFF) << 48u64) | ((beat & 0xFFFF) << 32u64) | ((tick & 0xFFFF) << 16u64) | c)
            >> 16u64) & 0xFFFF == tick & 0xFFFF,
        ((((bar & 0xFFFF) << 48u64) | ((beat & 0xFFFF) << 32u64) | ((tick & 0xFFFF) << 16u64) | c)
            & 1) == c,
{
    assert(((((bar & 0xFFFF) << 48u64) | ((beat & 0xFFFF) << 32u64) | ((tick & 0xFFFF) << 16u64) | c)
        >> 48u64) & 0xFFFF == bar & 0xFFFF) by (bit_vector)
        requires
            c <= 1,
    ;
    assert(((((bar & 0xFFFF) << 48u64) | ((beat & 0xFFFF) << 32u64) | ((tick & 0xFFFF) << 16u64) | c)
        >> 32u64) & 0xFFFF == beat & 0xFFFF) by (bit_vector)
        requires
            c <= 1,
    ;
    assert(((((bar & 0xFFFF) << 48u64) | ((beat & 0xFFFF) << 32u64) | ((tick & 0xFFFF) << 16u64) | c)
        >> 16u64) & 0xFFFF == tick & 0xFFFF) by (bit_vector)
        requires
            c <= 1,
    ;
    assert(((((bar & 0xFFFF) << 48u64) | ((beat & 0xFFFF) << 32u64) | ((tick & 0xFFFF) << 16u64) | c)
        & 1) == c) by (bit_vector)
        requires
            c <= 1,
    ;
}

/// Reading back a published position gives the position, each counter
/// taken modulo 2^16: nothing tears, and only counters past 65 535 wrap.
pub proof fn law_position_round_trip(pos: BeatPosition)
    ensures
        ({
            let bits = pack_spec(pos.bar as u64, pos.beat as u64, pos.tick as u64, pos.counting_in);
            &&& ((bits >> 48u64) & 0xFFFF) == pos.bar % 0x10000
            &&& ((bits >> 32u64) & 0xFFFF) == pos.beat % 0x10000
            &&& ((bits >> 16u64) & 0xFFFF) == pos.tick % 0x10000
            &&& ((bits & 1) != 0) == pos.counting_in
        }),
{
    let c: u64 = if pos.counting_in { 1 } else { 0 };
    lemma_pack_fields(pos.bar as u64, pos.beat as u64, pos.tick as u64, c);
    let (a, b, t) = (pos.bar as u64, pos.beat as u64, pos.tick as u64);
    assert(a & 0xFFFF == a % 0x10000) by (bit_vector);
    assert(b & 0xFFFF == b % 0x10000) by (bit_vector);
    assert(t & 0xFFFF == t % 0x10000) by (bit_vector);
}

} // verus!
