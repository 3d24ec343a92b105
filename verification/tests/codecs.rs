use smaf_player::adpcm::decode_yamaha_adpcm;
use smaf_player::container::BaseBit;
use smaf_player::ma_voice::parse_ma_voice_exclusive;
use smaf_player::pcm::{decode_pcm, PcmEncoding};

#[test]
fn decodes_low_nibble_before_high_nibble() {
    // 0x10 must decode nibble 0 first and nibble 1 second.  Reversing the
    // nibble order gives a different second-order predictor state.
    assert_eq!(decode_yamaha_adpcm(&[0x10], 1).unwrap(), [15, 62]);
}

#[test]
fn stereo_uses_independent_channel_state() {
    // The first byte initializes L with nibble 0 and R with nibble 1.  The
    // second byte must continue each channel's own predictor history.
    assert_eq!(decode_yamaha_adpcm(&[0x10, 0x32], 2).unwrap(), [15, 47, 94, 158]);
}

#[test]
fn rejects_unsupported_channel_count() {
    assert!(decode_yamaha_adpcm(&[0x00], 0).is_none());
    assert!(decode_yamaha_adpcm(&[0x00], 3).is_none());
}

#[test]
fn decodes_signed_8_bit_pcm() {
    assert_eq!(
        decode_pcm(&[0x80, 0x00, 0x7f], BaseBit::Bit8, PcmEncoding::TwosComplement, 1).unwrap(),
        [i16::MIN, 0, 32512]
    );
}

#[test]
fn decodes_offset_binary_8_bit_pcm() {
    assert_eq!(
        decode_pcm(&[0x00, 0x80, 0xff], BaseBit::Bit8, PcmEncoding::OffsetBinary, 1).unwrap(),
        [i16::MIN, 0, 32512]
    );
}

#[test]
fn decodes_big_endian_signed_16_bit_pcm() {
    assert_eq!(
        decode_pcm(&[0x80, 0x00, 0x12, 0x34, 0x7f, 0xff], BaseBit::Bit16, PcmEncoding::TwosComplement, 1).unwrap(),
        [i16::MIN, 0x1234, i16::MAX]
    );
}

#[test]
fn decodes_packed_12_bit_samples_msb_first() {
    // 0x800, 0x000, 0x7ff packed as: 80 00 00 7f f0.
    assert_eq!(
        decode_pcm(&[0x80, 0x00, 0x00, 0x7f, 0xf0], BaseBit::Bit12, PcmEncoding::TwosComplement, 1).unwrap(),
        [i16::MIN, 0, 32752]
    );
}

#[test]
fn drops_incomplete_stereo_frame() {
    assert_eq!(
        decode_pcm(&[0x01, 0x02, 0x03], BaseBit::Bit8, PcmEncoding::TwosComplement, 2).unwrap(),
        [256, 512]
    );
}

#[test]
fn rejects_non_voice_yamaha_reset() {
    assert!(parse_ma_voice_exclusive(&[0x43, 0x79, 0x06, 0x7f, 0x7f, 0xf7]).is_none());
}
