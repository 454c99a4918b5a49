//! The decisions of the decoding loop: after reading a packet of an audio
//! file, and after decoding one, whether to decode, keep the samples, go on
//! to the next packet, stop, or fail. Reading and decoding themselves are
//! left to the caller, which reports what happened as these outcomes.
use vstd::prelude::*;

verus! {

/// What reading the next packet of the container gave.
#[derive(Debug, Clone, Copy, PartialEq, Eq, Structural)]
pub enum PacketRead {
    /// A packet of the given track.
    Packet { track_id: u32 },
    /// The stream ended (an I/O error of kind "unexpected end of file").
    EndOfStream,
    /// Any other I/O error.
    IoFailure,
    /// The container data was malformed.
    Malformed,
    /// The reader asks for the decoder to be reset.
    ResetRequired,
    /// Any other error.
    OtherFailure,
}

/// What decoding a packet gave.
#[derive(Debug, Clone, Copy, PartialEq, Eq, Structural)]
pub enum PacketDecode {
    /// Samples.
    Samples,
    /// The packet was malformed.
    Malformed,
    /// The stream ended (an I/O error of kind "unexpected end of file").
    EndOfStream,
    /// The decoder asks to be reset.
    ResetRequired,
    /// Any other error.
    OtherFailure,
}

/// Why decoding a file failed.
#[derive(Debug, Clone, Copy, PartialEq, Eq, Structural)]
pub enum DecodeFailure {
    /// Reading a packet failed with an I/O error.
    ReadPacket,
    /// A packet read was malformed.
    DecodePacket,
    /// Reading a packet failed otherwise.
    Process,
    /// Decoding a packet failed.
    Decode,
}

/// The next step of the decoding loop.
#[derive(Debug, Clone, Copy, PartialEq, Eq, Structural)]
pub enum DecodeStep {
    /// Decode the packet just read.
    DecodePacket,
    /// Keep the samples just decoded, then read the next packet.
    KeepSamples,
    /// Read the next packet.
    NextPacket,
    /// Stop: all samples are in.
    Finish,
    /// Stop with an error.
    Fail(DecodeFailure),
}

/// The step after reading: a packet of the track being decoded is decoded,
/// one of another track is passed over; the end of the stream finishes; a
/// reset request is passed over; any other outcome fails.
pub open spec fn read_step(read: PacketRead, track_id: u32) -> DecodeStep {
    match read {
        PacketRead::Packet { track_id: id } => if id == track_id {
            DecodeStep::DecodePacket
        } else {
            DecodeStep::NextPacket
        },
        PacketRead::EndOfStream => DecodeStep::Finish,
        PacketRead::IoFailure => DecodeStep::Fail(DecodeFailure::ReadPacket),
        PacketRead::Malformed => DecodeStep::Fail(DecodeFailure::DecodePacket),
        PacketRead::ResetRequired => DecodeStep::NextPacket,
        PacketRead::OtherFailure => DecodeStep::Fail(DecodeFailure::Process),
    }
}

/// The step after decoding: samples are kept; a malformed packet and a
/// reset request are passed over; the end of the stream finishes; any
/// other outcome fails.
pub open spec fn decode_step(outcome: PacketDecode) -> DecodeStep {
    match outcome {
        PacketDecode::Samples => DecodeStep::KeepSamples,
        PacketDecode::Malformed => DecodeStep::NextPacket,
        PacketDecode::EndOfStream => DecodeStep::Finish,
        PacketDecode::ResetRequired => DecodeStep::NextPacket,
        PacketDecode::OtherFailure => DecodeStep::Fail(DecodeFailure::Decode),
    }
}

/// The step after reading a packet, when decoding track `track_id` (`read_step`).
pub fn after_read(read: PacketRead, track_id: u32) -> (r: DecodeStep)
    ensures
        r == read_step(read, track_id),
{
    match read {
        PacketRead::Packet { track_id: id } => {
            if id == track_id {
                DecodeStep::DecodePacket
            } else {
                DecodeStep::NextPacket
            }
        },
        PacketRead::EndOfStream => DecodeStep::Finish,
        PacketRead::IoFailure => DecodeStep::Fail(DecodeFailure::ReadPacket),
        PacketRead::Malformed => DecodeStep::Fail(DecodeFailure::DecodePacket),
        PacketRead::ResetRequired => DecodeStep::NextPacket,
        PacketRead::OtherFailure => DecodeStep::Fail(DecodeFailure::Process),
    }
}

/// The step after decoding a packet (`decode_step`).
pub fn after_decode(outcome: PacketDecode) -> (r: DecodeStep)
    ensures
        r == decode_step(outcome),
{
    match outcome {
        PacketDecode::Samples => DecodeStep::KeepSamples,
        PacketDecode::Malformed => DecodeStep::NextPacket,
        PacketDecode::EndOfStream => DecodeStep::Finish,
        PacketDecode::ResetRequired => DecodeStep::NextPacket,
        PacketDecode::OtherFailure => DecodeStep::Fail(DecodeFailure::Decode),
    }
}

/// Only packets of the track being decoded are decoded, only decoded
/// samples are kept, and a malformed packet stops the loop when it is read
/// but not when it is decoded.
pub proof fn law_decode_steps(read: PacketRead, outcome: PacketDecode, track_id: u32)
    ensures
        read_step(read, track_id) == DecodeStep::DecodePacket <==> read == (PacketRead::Packet {
            track_id,
        }),
        read_step(read, track_id) != DecodeStep::KeepSamples,
        decode_step(outcome) == DecodeStep::KeepSamples <==> outcome == PacketDecode::Samples,
        decode_step(outcome) != DecodeStep::DecodePacket,
        read_step(PacketRead::Malformed, track_id) is Fail,
        decode_step(PacketDecode::Malformed) == DecodeStep::NextPacket,
{
}

} // verus!
