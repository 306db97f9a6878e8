//! Framing on the LoRa link. Both ends put a 4-byte RadioHead header
//! (to, from, id, flags) in front of every payload and strip it on
//! receipt; only its length matters, the broadcast address is used for
//! both ends.
use vstd::prelude::*;
use vstd::slice::slice_subrange;
use crate::packet::{
    command_frame, command_valid, get_u16, lemma_command_round_trip, pack_command, telemetry_fields,
    telemetry_valid, unpack_telemetry, Telemetry, COMMAND_SIZE,
};

verus! {

/// Length of the RadioHead header.
pub const RH_HEADER_LEN: usize = 4;

/// RadioHead's broadcast address.
pub const RH_BROADCAST: u8 = 0xFF;

/// Header plus command frame.
pub const COMMAND_RADIO_SIZE: usize = 11;

/// The bytes sent for command `cmd` with sequence number `seq`.
pub open spec fn command_radio_frame(seq: u16, cmd: u8) -> Seq<u8> {
    seq![RH_BROADCAST, RH_BROADCAST, 0u8, 0u8] + command_frame(seq, cmd)
}

/// Header and command frame for `cmd`, ready to transmit.
pub fn pack_command_radio(seq: u16, cmd: u8) -> (r: [u8; COMMAND_RADIO_SIZE])
    ensures
        r@ == command_radio_frame(seq, cmd),
{
    let p = pack_command(seq, cmd);
    let r = [RH_BROADCAST, RH_BROADCAST, 0, 0, p[0], p[1], p[2], p[3], p[4], p[5], p[6]];
    assert(r@ =~= command_radio_frame(seq, cmd));
    r
}

/// The receiver strips the header from a transmitted command and finds
/// the same sequence number and command.
pub proof fn lemma_radio_command_round_trip(seq: u16, cmd: u8)
    ensures
        command_radio_frame(seq, cmd).skip(RH_HEADER_LEN as int) == command_frame(seq, cmd),
        command_valid(command_radio_frame(seq, cmd).skip(RH_HEADER_LEN as int)),
        get_u16(command_radio_frame(seq, cmd).skip(RH_HEADER_LEN as int), 2) == seq,
        command_radio_frame(seq, cmd).skip(RH_HEADER_LEN as int)[4] == cmd,
{
    assert(command_radio_frame(seq, cmd).skip(RH_HEADER_LEN as int) =~= command_frame(seq, cmd));
    lemma_command_round_trip(seq, cmd);
}

/// What a received buffer held.
#[derive(Debug, Clone, Copy, PartialEq, Eq)]
pub enum RxOutcome {
    /// Not even a whole header.
    TooShort,
    /// A payload that is not a valid telemetry frame.
    Rejected,
    Telemetry(Telemetry),
}

/// What the first `len` bytes of a receive buffer hold: too few for a
/// header, a valid telemetry frame behind the header, or something else.
pub open spec fn decode_rx_outcome(buf: Seq<u8>, len: int) -> RxOutcome {
    if len <= RH_HEADER_LEN {
        RxOutcome::TooShort
    } else if telemetry_valid(buf.subrange(RH_HEADER_LEN as int, len)) {
        RxOutcome::Telemetry(telemetry_fields(buf.subrange(RH_HEADER_LEN as int, len)))
    } else {
        RxOutcome::Rejected
    }
}

/// Decode the first `len` bytes of a receive buffer as a header and a
/// telemetry frame.
pub fn decode_rx(buf: &[u8], len: usize) -> (r: RxOutcome)
    requires
        len <= buf@.len(),
    ensures
        r == decode_rx_outcome(buf@, len as int),
{
    if len <= RH_HEADER_LEN {
        return RxOutcome::TooShort;
    }
    let payload = slice_subrange(buf, RH_HEADER_LEN, len);
    match unpack_telemetry(payload) {
        Some(t) => RxOutcome::Telemetry(t),
        None => RxOutcome::Rejected,
    }
}

/// Telemetry frames accepted and rejected since power-on. Both counts
/// wrap around, as the radio's atomic counters do. The accepted count is
/// the "frames seen" clock that command confirmation and request
/// timeouts measure against; the diagnostics screen shows both.
#[derive(Debug, Clone, Copy, PartialEq, Eq, Structural)]
pub struct RxCounts {
    pub packets: u32,
    pub rejects: u32,
}

impl RxCounts {
    /// Nothing received yet.
    pub fn new() -> (r: Self)
        ensures
            r == (RxCounts { packets: 0, rejects: 0 }),
    {
        RxCounts { packets: 0, rejects: 0 }
    }
}

/// The counts after a receive window that ended in `outcome`: an accepted
/// frame counts as a packet, a rejected one as a reject, and one too
/// short to hold a header counts as neither (no more than a timeout).
pub open spec fn counted(counts: RxCounts, outcome: RxOutcome) -> RxCounts {
    match outcome {
        RxOutcome::Telemetry(_) => RxCounts { packets: counts.packets.wrapping_add(1), rejects: counts.rejects },
        RxOutcome::Rejected => RxCounts { packets: counts.packets, rejects: counts.rejects.wrapping_add(1) },
        RxOutcome::TooShort => counts,
    }
}

/// Count a receive window's outcome.
pub fn count_rx(counts: RxCounts, outcome: &RxOutcome) -> (r: RxCounts)
    ensures
        r == counted(counts, *outcome),
{
    match outcome {
        RxOutcome::Telemetry(_) => RxCounts { packets: counts.packets.wrapping_add(1), rejects: counts.rejects },
        RxOutcome::Rejected => RxCounts { packets: counts.packets, rejects: counts.rejects.wrapping_add(1) },
        RxOutcome::TooShort => counts,
    }
}

/// The frame in the first `len` bytes of a receive buffer, if it holds a
/// valid telemetry frame behind its header, with the window counted in
/// `counts`. A timeout is not a window that received anything: the
/// caller does not call this, and the counts stay.
pub fn receive_frame(buf: &[u8], len: usize, counts: &mut RxCounts) -> (r: Option<Telemetry>)
    requires
        len <= buf@.len(),
    ensures
        *final(counts) == counted(*old(counts), decode_rx_outcome(buf@, len as int)),
        r == (match decode_rx_outcome(buf@, len as int) {
            RxOutcome::Telemetry(t) => Some(t),
            _ => None,
        }),
{
    let outcome = decode_rx(buf, len);
    *counts = count_rx(*counts, &outcome);
    match outcome {
        RxOutcome::Telemetry(t) => Some(t),
        _ => None,
    }
}

} // verus!
