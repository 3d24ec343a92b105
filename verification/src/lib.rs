//! Playback of SMAF files, the ringtone and sound-effect format of Yamaha's MA
//! sound chips.
//!
//! [`parse_smaf`] turns the bytes of a file into a list of events, each with the
//! millisecond at which it is due: MIDI messages for the voices of the handset's
//! ROM, sampled waves, and notes of FM voices that the file itself defines.
//!
//! The way of a file through the crate:
//!
//! * [`readable`] tells the files that the `smaf` crate reads to an end, with the
//!   Huffman code of compressed scores in [`huffman`]; [`reader`] reads them into
//!   the types of [`container`].
//! * [`score`] and [`sequence`] play score tracks, [`pcm_track`] PCM audio tracks.
//!   [`tone_map`] keeps the state of the channels, [`ma_voice`] reads voice
//!   definitions, [`waves`] decodes waves with the codecs [`adpcm`] and [`pcm`].
//! * [`events`] holds what is played, [`order`] the order in which it is, and
//!   [`player`] brings a whole file together.
//!
//! What a renderer needs to know about the discrete side of sound is in
//! [`timeline`], [`resample`] and [`fm_voice`].
//!
//! Functions are specified over mathematical views of their arguments.  What
//! holds across functions is stated by the proof functions whose names start with
//! `law_`.
pub mod adpcm;
pub mod container;
pub mod events;
pub mod fm_voice;
pub mod huffman;
pub mod ma_voice;
pub mod order;
pub mod pcm;
pub mod pcm_track;
pub mod player;
pub mod readable;
pub mod reader;
pub mod resample;
pub mod score;
pub mod sequence;
pub mod timeline;
pub mod tone_map;
pub mod waves;

pub use events::{SmafEvent, WaveDynamics};
pub use ma_voice::{
    MaCustomVoice, MaFmNote, MaFmOperatorPatch, MaFmPatch, MaPcmRomVoice, MaVoiceKey,
};
pub use player::{parse_smaf, parse_smaf_checked};
