use wavly::audio::{after_decode, after_read, DecodeFailure, DecodeStep, PacketDecode, PacketRead};

#[test]
fn reading_decides_whether_to_decode() {
    assert_eq!(after_read(PacketRead::Packet { track_id: 3 }, 3), DecodeStep::DecodePacket);
    assert_eq!(after_read(PacketRead::Packet { track_id: 4 }, 3), DecodeStep::NextPacket);
    assert_eq!(after_read(PacketRead::EndOfStream, 3), DecodeStep::Finish);
    assert_eq!(after_read(PacketRead::ResetRequired, 3), DecodeStep::NextPacket);
    assert_eq!(after_read(PacketRead::IoFailure, 3), DecodeStep::Fail(DecodeFailure::ReadPacket));
    assert_eq!(after_read(PacketRead::Malformed, 3), DecodeStep::Fail(DecodeFailure::DecodePacket));
    assert_eq!(after_read(PacketRead::OtherFailure, 3), DecodeStep::Fail(DecodeFailure::Process));
}

#[test]
fn decoding_keeps_samples_and_skips_bad_packets() {
    assert_eq!(after_decode(PacketDecode::Samples), DecodeStep::KeepSamples);
    assert_eq!(after_decode(PacketDecode::Malformed), DecodeStep::NextPacket);
    assert_eq!(after_decode(PacketDecode::ResetRequired), DecodeStep::NextPacket);
    assert_eq!(after_decode(PacketDecode::EndOfStream), DecodeStep::Finish);
    assert_eq!(after_decode(PacketDecode::OtherFailure), DecodeStep::Fail(DecodeFailure::Decode));
}
