//! Channel state of a score: programs, banks, dynamics and the assignment of
//! SMAF channels to MIDI channels.
use crate::adpcm::clamped;
use crate::container::{ChannelStatus, ChannelType, FormatType};
use crate::events::WaveDynamics;
use crate::ma_voice::{
    parse_setup_custom_voices, setup_voices, voice_key, MaCustomVoice, MaFmNote, MaFmPatch,
    MaVoiceKey,
};
use vstd::prelude::*;
use vstd::set_lib::{lemma_int_range, set_int_range};

verus! {

/// The MIDI channel for percussion.
pub const MIDI_DRUM_CHANNEL: u8 = 9;

/// The number of SMAF channels that can be told apart.
pub const MAX_SMAF_CHANNELS: usize = 64;

/// The state of a [`ToneMap`], with an entry per SMAF channel in each list.
#[verifier::ext_equal]
pub struct ToneMapView {
    pub format_type: FormatType,
    pub channel_types: Seq<u8>,
    pub programs: Seq<u8>,
    pub source_programs: Seq<u8>,
    pub channel_volumes: Seq<u8>,
    pub expressions: Seq<u8>,
    pub velocities: Seq<u8>,
    pub bank_msb: Seq<u8>,
    pub bank_lsb: Seq<u8>,
    pub pan: Seq<u8>,
    pub pan_explicit: Seq<bool>,
    pub pitch_bend: Seq<u16>,
    pub forced_rhythm: Seq<bool>,
    pub real_map: Seq<Option<u8>>,
    pub custom_voices: Seq<MaCustomVoice>,
}

/// An entry `value` for every channel.
pub open spec fn every_channel<T>(value: T) -> Seq<T> {
    Seq::new(MAX_SMAF_CHANNELS as nat, |i: int| value)
}

/// `list` with `value` at four channels from `base` on.
pub open spec fn with_four<T>(list: Seq<T>, base: int, value: T) -> Seq<T> {
    Seq::new(
        list.len(),
        |i: int|
            if base <= i < base + 4 {
                value
            } else {
                list[i]
            },
    )
}

/// `done` up to `limit`, `start` from there on.
spec fn head_of<T>(done: Seq<T>, start: Seq<T>, limit: int) -> Seq<T> {
    Seq::new(
        start.len(),
        |i: int|
            if i < limit {
                done[i]
            } else {
                start[i]
            },
    )
}

/// The smaller of two numbers.
pub open spec fn least(a: u8, b: u8) -> u8 {
    if a < b {
        a
    } else {
        b
    }
}

/// The channel type number that a Handy Phone track's header gives to its
/// channel `local`: 3 for rhythm, 1 for anything else.
pub open spec fn handy_channel_type(statuses: Seq<ChannelStatus>, local: int) -> u8 {
    if local < statuses.len() && statuses[local].channel_type == ChannelType::Rhythm {
        3
    } else {
        1
    }
}

/// The channel type number that a Mobile Standard track's header gives to a
/// channel.
pub open spec fn mobile_channel_type(statuses: Seq<ChannelStatus>, channel: int) -> u8 {
    if channel >= 16 || channel >= statuses.len() {
        2
    } else {
        match statuses[channel].channel_type {
            ChannelType::NoCare => 2,
            ChannelType::NoMelody => 2,
            ChannelType::Melody => 1,
            ChannelType::Rhythm => 3,
        }
    }
}

/// The first voice from `from` on with this key.
pub open spec fn voice_keyed(
    voices: Seq<MaCustomVoice>,
    from: int,
    key: MaVoiceKey,
) -> Option<MaCustomVoice>
    decreases voices.len() - from,
{
    if from < 0 || from >= voices.len() {
        None
    } else if voice_key(voices[from]) == key {
        Some(voices[from])
    } else {
        voice_keyed(voices, from + 1, key)
    }
}

impl ToneMapView {
    /// The state before any track.
    pub open spec fn fresh() -> Self {
        ToneMapView {
            format_type: FormatType::MobileStandardNoCompress,
            channel_types: every_channel(2),
            programs: every_channel(0),
            source_programs: every_channel(0),
            channel_volumes: every_channel(100),
            expressions: every_channel(127),
            velocities: every_channel(64),
            bank_msb: every_channel(0),
            bank_lsb: every_channel(0),
            pan: every_channel(64),
            pan_explicit: every_channel(false),
            pitch_bend: every_channel(8192),
            forced_rhythm: every_channel(false),
            real_map: every_channel(None),
            custom_voices: Seq::empty(),
        }
    }

    /// Whether the current track is a Handy Phone track.
    pub open spec fn handy(self) -> bool {
        self.format_type == FormatType::HandyPhoneStandard
    }

    /// The state at the start of a track.  A Handy Phone track sets up its own
    /// four channels and leaves the others, the MIDI channel assignment and the
    /// voices as they are; a Mobile Standard track starts over.
    pub open spec fn init_track(
        self,
        format_type: FormatType,
        statuses: Seq<ChannelStatus>,
        channel_offset: u8,
    ) -> Self {
        if format_type == FormatType::HandyPhoneStandard {
            let base: int = if channel_offset < 60 {
                channel_offset as int
            } else {
                60
            };
            ToneMapView {
                format_type,
                channel_types: Seq::new(
                    self.channel_types.len(),
                    |i: int|
                        if base <= i < base + 4 {
                            handy_channel_type(statuses, i - base)
                        } else {
                            self.channel_types[i]
                        },
                ),
                programs: with_four(self.programs, base, 0),
                source_programs: with_four(self.source_programs, base, 0),
                channel_volumes: with_four(self.channel_volumes, base, 100),
                expressions: with_four(self.expressions, base, 127),
                velocities: with_four(self.velocities, base, 127),
                bank_msb: with_four(self.bank_msb, base, 0),
                bank_lsb: with_four(self.bank_lsb, base, 0),
                pan: with_four(self.pan, base, 64),
                pan_explicit: with_four(self.pan_explicit, base, false),
                pitch_bend: with_four(self.pitch_bend, base, 8192),
                forced_rhythm: with_four(self.forced_rhythm, base, false),
                real_map: self.real_map,
                custom_voices: self.custom_voices,
            }
        } else {
            ToneMapView {
                format_type,
                channel_types: Seq::new(
                    MAX_SMAF_CHANNELS as nat,
                    |i: int| mobile_channel_type(statuses, i),
                ),
                ..ToneMapView::fresh()
            }
        }
    }

    /// The list entry of a channel.
    pub open spec fn entry(self, channel: u8) -> int {
        if self.handy() {
            if channel < 63 {
                channel as int
            } else {
                63
            }
        } else {
            (channel & 0x0f) as int
        }
    }

    /// Whether the channel of a list entry plays percussion.
    pub open spec fn rhythm_entry(self, entry: int) -> bool {
        self.channel_types[entry] == 3 || self.forced_rhythm[entry] || self.bank_msb[entry] == 0x7d
    }

    /// Whether a channel plays percussion: its type says so, a bank select
    /// forced it, or the rhythm bank is selected.
    pub open spec fn rhythm(self, channel: u8) -> bool {
        self.rhythm_entry(self.entry(channel))
    }

    /// Whether a MIDI channel is the drum channel or assigned.
    pub open spec fn taken(self, midi: u8) -> bool {
        midi == MIDI_DRUM_CHANNEL || self.real_map.contains(Some(midi))
    }

    /// The lowest MIDI channel from `from` on that is not taken.
    pub open spec fn lowest_free(self, from: u8) -> Option<u8>
        decreases 16 - from,
    {
        if from >= 16 {
            None
        } else if self.taken(from) {
            self.lowest_free((from + 1) as u8)
        } else {
            Some(from)
        }
    }

    /// Whether every assigned MIDI channel exists.
    pub open spec fn assignable(self) -> bool {
        forall|i: int|
            0 <= i < self.real_map.len() ==> (#[trigger] self.real_map[i] matches Some(midi)
                ==> midi < 16)
    }

    /// The MIDI channel of a list entry, and the state in which it is assigned:
    /// the drum channel for percussion; else the one assigned before; else the
    /// lowest free one; else, when all are taken, the entry's own number.  None
    /// where a channel would be assigned after a number past 15 has been.
    pub open spec fn real_entry(self, entry: int) -> Option<(Self, u8)> {
        if self.rhythm_entry(entry) {
            Some((self, MIDI_DRUM_CHANNEL))
        } else {
            match self.real_map[entry] {
                Some(midi) => Some((self, midi)),
                None => if !self.assignable() {
                    None
                } else {
                    let midi = match self.lowest_free(0) {
                        Some(free) => free,
                        None => entry as u8,
                    };
                    Some(
                        (
                            ToneMapView {
                                real_map: self.real_map.update(entry, Some(midi)),
                                ..self
                            },
                            midi,
                        ),
                    )
                },
            }
        }
    }

    /// The MIDI channel of a channel, and the state in which it is assigned.
    pub open spec fn real_channel(self, channel: u8) -> Option<(Self, u8)> {
        self.real_entry(self.entry(channel))
    }

    /// The state after a control change: bank, volume, pan and expression are
    /// kept, other controls are not.
    pub open spec fn update_control(self, channel: u8, control: u8, value: u8) -> Self {
        let entry = self.entry(channel);
        if control == 0 {
            ToneMapView { bank_msb: self.bank_msb.update(entry, value & 0x7f), ..self }
        } else if control == 32 {
            ToneMapView { bank_lsb: self.bank_lsb.update(entry, value & 0x7f), ..self }
        } else if control == 7 {
            ToneMapView {
                channel_volumes: self.channel_volumes.update(entry, least(value, 0x7f)),
                ..self
            }
        } else if control == 10 {
            ToneMapView {
                pan: self.pan.update(entry, least(value, 0x7f)),
                pan_explicit: self.pan_explicit.update(entry, true),
                ..self
            }
        } else if control == 11 {
            ToneMapView {
                expressions: self.expressions.update(entry, least(value, 0x7f)),
                ..self
            }
        } else {
            self
        }
    }

    /// The state after a bank select: the top bit forces percussion.
    pub open spec fn update_bank_select(self, channel: u8, value: u8) -> Self {
        let entry = self.entry(channel);
        ToneMapView {
            forced_rhythm: if value & 0x80 != 0 {
                self.forced_rhythm.update(entry, true)
            } else {
                self.forced_rhythm
            },
            bank_msb: self.bank_msb.update(entry, value & 0x7f),
            ..self
        }
    }

    /// The state after a program change, with the MIDI channel and program that
    /// stand for it.  On a Handy Phone rhythm channel the program is the drum
    /// key; elsewhere percussion plays program 0 and melody the program itself.
    pub open spec fn set_program(self, channel: u8, program: u8) -> Option<(Self, u8, u8)> {
        let entry = self.entry(channel);
        let source = least(program, 0x7f);
        let noted = ToneMapView {
            source_programs: self.source_programs.update(entry, source),
            ..self
        };
        if self.handy() && self.channel_types[entry] == 3 {
            Some(
                (
                    ToneMapView { programs: noted.programs.update(entry, source), ..noted },
                    MIDI_DRUM_CHANNEL,
                    0,
                ),
            )
        } else {
            let midi_program = if noted.rhythm_entry(entry) {
                0
            } else {
                source & 0x7f
            };
            let set = ToneMapView { programs: noted.programs.update(entry, midi_program), ..noted };
            match set.real_entry(entry) {
                Some((assigned, midi)) => Some((assigned, midi, midi_program)),
                None => None,
            }
        }
    }

    /// The wave that a note selects: Mobile Standard channels in bank 125 map
    /// notes 0 to 12 to waves 1 to 13, and notes 92 to 110 to waves 14 to 32.
    pub open spec fn stream_wave_id(self, channel: u8, note: u8) -> Option<u8> {
        if self.handy() || self.bank_msb[self.entry(channel)] != 0x7d {
            None
        } else if note <= 12 {
            Some((note + 1) as u8)
        } else if 92 <= note <= 110 {
            Some((note - 78) as u8)
        } else {
            None
        }
    }

    /// The file-defined voice for a note of a channel: the first definition for
    /// this very drum note, else the first melodic one, under the channel's bank
    /// and program.
    pub open spec fn custom_voice(self, channel: u8, note: u8) -> Option<MaCustomVoice> {
        let entry = self.entry(channel);
        let key = MaVoiceKey {
            bank_msb: self.bank_msb[entry],
            bank_lsb: self.bank_lsb[entry],
            program: self.source_programs[entry],
            drum_note: note,
        };
        match voice_keyed(self.custom_voices, 0, key) {
            Some(voice) => Some(voice),
            None => voice_keyed(self.custom_voices, 0, MaVoiceKey { drum_note: 0, ..key }),
        }
    }

    /// The velocity of a Handy Phone drum: volume times expression.
    pub open spec fn drum_velocity(self, entry: int) -> u8 {
        let product = self.channel_volumes[entry] * self.expressions[entry];
        let value = if self.expressions[entry] < 64 {
            product / 102
        } else {
            product / 100
        };
        clamped(value, 1, 127) as u8
    }

    /// The velocity with which a note sounds, and the state that remembers it.
    /// A note without velocity repeats the channel's last one.
    pub open spec fn note_velocity(self, channel: u8, velocity: Option<u8>) -> (Self, u8) {
        let entry = self.entry(channel);
        if self.handy() && self.channel_types[entry] == 3 {
            (self, self.drum_velocity(entry))
        } else {
            match velocity {
                Some(velocity) => {
                    let bounded = least(velocity, 0x7f);
                    (
                        ToneMapView {
                            velocities: self.velocities.update(entry, bounded),
                            ..self
                        },
                        bounded,
                    )
                },
                None => (self, self.velocities[entry]),
            }
        }
    }

    /// The pan of an entry, where one was set.
    pub open spec fn explicit_pan(self, entry: int) -> Option<u8> {
        if self.pan_explicit[entry] {
            Some(self.pan[entry])
        } else {
            None
        }
    }

    /// The FM note that stands for a note of a channel.
    pub open spec fn fm_note(
        self,
        channel: u8,
        note: u8,
        velocity: Option<u8>,
        gate_ms: u32,
        patch: MaFmPatch,
    ) -> (Self, MaFmNote) {
        let entry = self.entry(channel);
        let (remembered, velocity) = self.note_velocity(channel, velocity);
        (
            remembered,
            MaFmNote {
                channel,
                note,
                velocity,
                gate_ms,
                volume: self.channel_volumes[entry],
                expression: self.expressions[entry],
                pan: self.explicit_pan(entry),
                pitch_bend: self.pitch_bend[entry],
                patch,
            },
        )
    }

    /// The dynamics with which a wave of a channel sounds.
    pub open spec fn wave_dynamics(self, channel: u8, velocity: Option<u8>) -> (
        Self,
        WaveDynamics,
    ) {
        let entry = self.entry(channel);
        let (remembered, velocity) = self.note_velocity(channel, velocity);
        (
            remembered,
            WaveDynamics {
                velocity,
                volume: self.channel_volumes[entry],
                expression: self.expressions[entry],
                pan: self.explicit_pan(entry),
            },
        )
    }

    /// The state after a pitch bend.
    pub open spec fn set_pitch_bend(self, channel: u8, value: u16) -> Self {
        ToneMapView {
            pitch_bend: self.pitch_bend.update(
                self.entry(channel),
                if value > 0x3fff {
                    0x3fff
                } else {
                    value
                },
            ),
            ..self
        }
    }

    /// The value that a MIDI port gets for a control change.  Yamaha's banks
    /// stay inside: a Mobile Standard bank select reaches the port as bank 0.
    pub open spec fn midi_control_value(self, control: u8, value: u8) -> u8 {
        if !self.handy() && (control == 0 || control == 32) {
            0
        } else {
            value & 0x7f
        }
    }

    /// The MIDI note of a channel's note.  Handy Phone percussion plays the
    /// channel's program and its melody three octaves up; six Mobile Standard
    /// percussion notes have other General MIDI numbers.
    pub open spec fn map_note(self, channel: u8, note: int) -> u8 {
        let entry = self.entry(channel);
        if self.handy() {
            if self.rhythm_entry(entry) {
                least(self.programs[entry], 0x7f)
            } else {
                clamped(note + 36, 0, 127) as u8
            }
        } else {
            let note = clamped(note, 0, 127) as u8;
            if !self.rhythm_entry(entry) {
                note
            } else if note == 0x12 {
                45
            } else if note == 0x1a {
                41
            } else if note == 0x1f {
                47
            } else if note == 0x4d {
                50
            } else if note == 0x54 {
                43
            } else if note == 0x59 {
                48
            } else {
                note
            }
        }
    }

    /// Volume times expression, as one MIDI volume.
    pub open spec fn effective_volume(self, channel: u8) -> u8 {
        let entry = self.entry(channel);
        let product = (self.channel_volumes[entry] * self.expressions[entry]) / 127;
        (if product > 127 {
            127
        } else {
            product
        }) as u8
    }

    /// The state after an expression change.
    pub open spec fn set_expression(self, channel: u8, value: u8) -> Self {
        ToneMapView {
            expressions: self.expressions.update(self.entry(channel), least(value, 0x7f)),
            ..self
        }
    }
}

/// Channel state of a score.
pub struct ToneMap {
    format_type: FormatType,
    channel_types: [u8; 64],
    programs: [u8; 64],
    source_programs: [u8; 64],
    channel_volumes: [u8; 64],
    expressions: [u8; 64],
    velocities: [u8; 64],
    bank_msb: [u8; 64],
    bank_lsb: [u8; 64],
    pan: [u8; 64],
    pan_explicit: [bool; 64],
    pitch_bend: [u16; 64],
    forced_rhythm: [bool; 64],
    real_map: [Option<u8>; 64],
    custom_voices: Vec<MaCustomVoice>,
}

impl View for ToneMap {
    type V = ToneMapView;

    closed spec fn view(&self) -> ToneMapView {
        ToneMapView {
            format_type: self.format_type,
            channel_types: self.channel_types@,
            programs: self.programs@,
            source_programs: self.source_programs@,
            channel_volumes: self.channel_volumes@,
            expressions: self.expressions@,
            velocities: self.velocities@,
            bank_msb: self.bank_msb@,
            bank_lsb: self.bank_lsb@,
            pan: self.pan@,
            pan_explicit: self.pan_explicit@,
            pitch_bend: self.pitch_bend@,
            forced_rhythm: self.forced_rhythm@,
            real_map: self.real_map@,
            custom_voices: self.custom_voices@,
        }
    }
}

fn least_of(a: u8, b: u8) -> (smaller: u8)
    ensures
        smaller == least(a, b),
{
    if a < b {
        a
    } else {
        b
    }
}

impl ToneMap {
    /// The state before any track.
    pub fn new() -> (map: Self)
        ensures
            map@ == ToneMapView::fresh(),
    {
        let map = Self {
            format_type: FormatType::MobileStandardNoCompress,
            channel_types: [2;64],
            programs: [0;64],
            source_programs: [0;64],
            channel_volumes: [100;64],
            expressions: [127;64],
            velocities: [64;64],
            bank_msb: [0;64],
            bank_lsb: [0;64],
            pan: [64;64],
            pan_explicit: [false;64],
            pitch_bend: [8192;64],
            forced_rhythm: [false;64],
            real_map: [None;64],
            custom_voices: Vec::new(),
        };
        assert(map@ =~= ToneMapView::fresh());
        map
    }

    /// The format of the current track.
    pub fn format_type(&self) -> (format: FormatType)
        ensures
            format == self@.format_type,
    {
        self.format_type
    }

    fn handy_init(&mut self, statuses: &[ChannelStatus], base: usize)
        requires
            base <= 60,
        ensures
            final(self)@ == old(self)@.init_track(
                FormatType::HandyPhoneStandard,
                statuses@,
                base as u8,
            ),
    {
        self.format_type = FormatType::HandyPhoneStandard;
        let ghost start = self@;
        let ghost done = self@.init_track(
            FormatType::HandyPhoneStandard,
            statuses@,
            base as u8,
        );
        let mut local: usize = 0;
        while local < 4
            invariant
                local <= 4,
                base <= 60,
                start.format_type == FormatType::HandyPhoneStandard,
                done == start.init_track(
                    FormatType::HandyPhoneStandard,
                    statuses@,
                    base as u8,
                ),
                self@ =~= (ToneMapView {
                    format_type: FormatType::HandyPhoneStandard,
                    channel_types: head_of(done.channel_types, start.channel_types, base + local),
                    programs: head_of(done.programs, start.programs, base + local),
                    source_programs: head_of(
                        done.source_programs,
                        start.source_programs,
                        base + local,
                    ),
                    channel_volumes: head_of(
                        done.channel_volumes,
                        start.channel_volumes,
                        base + local,
                    ),
                    expressions: head_of(done.expressions, start.expressions, base + local),
                    velocities: head_of(done.velocities, start.velocities, base + local),
                    bank_msb: head_of(done.bank_msb, start.bank_msb, base + local),
                    bank_lsb: head_of(done.bank_lsb, start.bank_lsb, base + local),
                    pan: head_of(done.pan, start.pan, base + local),
                    pan_explicit: head_of(done.pan_explicit, start.pan_explicit, base + local),
                    pitch_bend: head_of(done.pitch_bend, start.pitch_bend, base + local),
                    forced_rhythm: head_of(done.forced_rhythm, start.forced_rhythm, base + local),
                    real_map: start.real_map,
                    custom_voices: start.custom_voices,
                }),
            decreases 4 - local,
        {
            let channel = base + local;
            self.channel_types[channel] = if local < statuses.len() && statuses[local].channel_type
                == ChannelType::Rhythm {
                3
            } else {
                1
            };
            self.programs[channel] = 0;
            self.source_programs[channel] = 0;
            self.channel_volumes[channel] = 100;
            self.expressions[channel] = 127;
            self.velocities[channel] = 127;
            self.bank_msb[channel] = 0;
            self.bank_lsb[channel] = 0;
            self.pan[channel] = 64;
            self.pan_explicit[channel] = false;
            self.pitch_bend[channel] = 8192;
            self.forced_rhythm[channel] = false;
            local += 1;
        }
        assert(self@ =~= done);
    }

    /// Sets the channels up for a track.
    pub fn init_track(
        &mut self,
        format_type: FormatType,
        channel_statuses: &[ChannelStatus],
        channel_offset: u8,
    )
        ensures
            final(self)@ == old(self)@.init_track(
                format_type,
                channel_statuses@,
                channel_offset,
            ),
    {
        if format_type == FormatType::HandyPhoneStandard {
            let base: usize = if channel_offset < 60 {
                channel_offset as usize
            } else {
                60
            };
            self.handy_init(channel_statuses, base);
            return;
        }
        self.format_type = format_type;
        self.channel_types = [2;64];
        self.programs = [0;64];
        self.source_programs = [0;64];
        self.channel_volumes = [100;64];
        self.expressions = [127;64];
        self.velocities = [64;64];
        self.bank_msb = [0;64];
        self.bank_lsb = [0;64];
        self.pan = [64;64];
        self.pan_explicit = [false;64];
        self.pitch_bend = [8192;64];
        self.forced_rhythm = [false;64];
        self.real_map = [None;64];
        self.custom_voices.clear();
        let ghost fresh = ToneMapView { format_type, ..ToneMapView::fresh() };
        assert(self@ =~= fresh);
        let mut channel: usize = 0;
        while channel < 16 && channel < channel_statuses.len()
            invariant
                channel <= 16,
                channel <= channel_statuses.len(),
                self@ =~= (ToneMapView {
                    channel_types: Seq::new(
                        64,
                        |i: int|
                            if i < channel {
                                mobile_channel_type(channel_statuses@, i)
                            } else {
                                2
                            },
                    ),
                    ..fresh
                }),
            decreases 16 - channel,
        {
            self.channel_types[channel] = match channel_statuses[channel].channel_type {
                ChannelType::NoCare | ChannelType::NoMelody => 2,
                ChannelType::Melody => 1,
                ChannelType::Rhythm => 3,
            };
            channel += 1;
        }
        assert(self@ =~= old(self)@.init_track(format_type, channel_statuses@, channel_offset));
    }

    fn pseudo_channel(&self, channel: u8) -> (entry: usize)
        ensures
            entry == self@.entry(channel),
            entry < 64,
    {
        assert(channel & 0x0f < 16) by (bit_vector);
        if self.format_type == FormatType::HandyPhoneStandard {
            if channel < 63 {
                channel as usize
            } else {
                63
            }
        } else {
            (channel & 0x0f) as usize
        }
    }

    fn rhythm_at(&self, entry: usize) -> (rhythm: bool)
        requires
            entry < 64,
        ensures
            rhythm == self@.rhythm_entry(entry as int),
    {
        self.channel_types[entry] == 3 || self.forced_rhythm[entry] || self.bank_msb[entry] == 0x7d
    }

    /// Whether a channel plays percussion.
    pub fn is_rhythm(&self, channel: u8) -> (rhythm: bool)
        ensures
            rhythm == self@.rhythm(channel),
    {
        self.rhythm_at(self.pseudo_channel(channel))
    }

    /// Which MIDI channels are taken; none where an entry is assigned a number
    /// past 15.
    fn taken_channels(&self) -> (taken: Option<[bool; 16]>)
        ensures
            taken is Some <==> self@.assignable(),
            taken matches Some(used) ==> forall|i: int|
                0 <= i < 16 ==> used[i] == self@.taken(i as u8),
    {
        let mut used = [false;16];
        used[9] = true;
        let mut entry: usize = 0;
        while entry < 64
            invariant
                entry <= 64,
                forall|i: int|
                    0 <= i < entry ==> (#[trigger] self@.real_map[i] matches Some(midi) ==> midi
                        < 16),
                forall|i: int|
                    0 <= i < 16 ==> used[i] == (i == 9 || self@.real_map.take(
                        entry as int,
                    ).contains(Some(i as u8))),
            decreases 64 - entry,
        {
            let ghost before = self@.real_map.take(entry as int);
            let ghost after = self@.real_map.take(entry + 1);
            assert(after =~= before.push(self@.real_map[entry as int]));
            assert forall|i: u8| after.contains(Some(i)) == (before.contains(Some(i))
                || self@.real_map[entry as int] == Some(i)) by {
                if before.contains(Some(i)) {
                    let at = choose|at: int| 0 <= at < before.len() && before[at] == Some(i);
                    assert(after[at] == Some(i));
                }
                if self@.real_map[entry as int] == Some(i) {
                    assert(after[entry as int] == Some(i));
                }
                if after.contains(Some(i)) {
                    let at = choose|at: int| 0 <= at < after.len() && after[at] == Some(i);
                    if at < entry {
                        assert(before[at] == Some(i));
                    }
                }
            }
            match self.real_map[entry] {
                Some(midi) => {
                    if midi >= 16 {
                        assert(self@.real_map[entry as int] == Some(midi));
                        return None;
                    }
                    used[midi as usize] = true;
                },
                None => {},
            }
            entry += 1;
        }
        assert(self@.real_map.take(64) =~= self@.real_map);
        Some(used)
    }

    /// Whether a channel has a MIDI channel or can be assigned one.
    pub fn can_route(&self, channel: u8) -> (routable: bool)
        ensures
            routable == (self@.real_channel(channel) is Some),
    {
        let entry = self.pseudo_channel(channel);
        if self.rhythm_at(entry) || self.real_map[entry].is_some() {
            return true;
        }
        self.taken_channels().is_some()
    }

    fn real_at(&mut self, entry: usize) -> (midi: u8)
        requires
            entry < 64,
            old(self)@.real_entry(entry as int) is Some,
        ensures
            old(self)@.real_entry(entry as int) == Some((final(self)@, midi)),
    {
        if self.rhythm_at(entry) {
            return MIDI_DRUM_CHANNEL;
        }
        if let Some(midi) = self.real_map[entry] {
            return midi;
        }
        let midi = match self.taken_channels() {
            Some(used) => {
                let mut candidate: u8 = 0;
                while candidate < 16 && used[candidate as usize]
                    invariant
                        candidate <= 16,
                        forall|i: int| 0 <= i < 16 ==> used[i] == self@.taken(i as u8),
                        self@.lowest_free(0) == self@.lowest_free(candidate),
                    decreases 16 - candidate,
                {
                    candidate += 1;
                }
                if candidate < 16 {
                    candidate
                } else {
                    entry as u8
                }
            },
            None => entry as u8,
        };
        let ghost before = self@;
        self.real_map[entry] = Some(midi);
        assert(self@ =~= (ToneMapView {
            real_map: before.real_map.update(entry as int, Some(midi)),
            ..before
        }));
        midi
    }

    /// The MIDI channel of a channel, assigned now if it was not before.
    pub fn real_channel(&mut self, channel: u8) -> (midi: u8)
        requires
            old(self)@.real_channel(channel) is Some,
        ensures
            old(self)@.real_channel(channel) == Some((final(self)@, midi)),
    {
        let entry = self.pseudo_channel(channel);
        self.real_at(entry)
    }

    /// Notes a control change.
    pub fn update_control(&mut self, channel: u8, control: u8, value: u8)
        ensures
            final(self)@ == old(self)@.update_control(channel, control, value),
    {
        let entry = self.pseudo_channel(channel);
        match control {
            0 => {
                self.bank_msb[entry] = value & 0x7f;
            },
            32 => {
                self.bank_lsb[entry] = value & 0x7f;
            },
            7 => {
                self.channel_volumes[entry] = least_of(value, 0x7f);
            },
            10 => {
                self.pan[entry] = least_of(value, 0x7f);
                self.pan_explicit[entry] = true;
            },
            11 => {
                self.expressions[entry] = least_of(value, 0x7f);
            },
            _ => {},
        }
        assert(self@ =~= old(self)@.update_control(channel, control, value));
    }

    /// Notes a bank select.
    pub fn update_bank_select(&mut self, channel: u8, value: u8)
        ensures
            final(self)@ == old(self)@.update_bank_select(channel, value),
    {
        let entry = self.pseudo_channel(channel);
        if value & 0x80 != 0 {
            self.forced_rhythm[entry] = true;
        }
        self.bank_msb[entry] = value & 0x7f;
        assert(self@ =~= old(self)@.update_bank_select(channel, value));
    }

    /// Notes a program change.  Returns the MIDI channel and the MIDI program
    /// that stand for it.
    ///
    /// Generic MIDI/SF2 is only a fallback for Yamaha preset/ROM voices: the
    /// authored program number is kept, without scene-specific substitutions.
    pub fn set_program(&mut self, channel: u8, program: u8) -> (routed: (u8, u8))
        requires
            old(self)@.set_program(channel, program) is Some,
        ensures
            old(self)@.set_program(channel, program) == Some(
                (final(self)@, routed.0, routed.1),
            ),
    {
        let entry = self.pseudo_channel(channel);
        let source_program = least_of(program, 0x7f);
        self.source_programs[entry] = source_program;
        let ghost noted = ToneMapView {
            source_programs: old(self)@.source_programs.update(entry as int, source_program),
            ..old(self)@
        };
        assert(self@ =~= noted);
        if self.format_type == FormatType::HandyPhoneStandard && self.channel_types[entry] == 3 {
            self.programs[entry] = source_program;
            assert(self@ =~= (ToneMapView {
                programs: noted.programs.update(entry as int, source_program),
                ..noted
            }));
            return (MIDI_DRUM_CHANNEL, 0);
        }
        let midi_program = if self.rhythm_at(entry) {
            0
        } else {
            self.map_program(channel, source_program)
        };
        self.programs[entry] = midi_program;
        assert(self@ =~= (ToneMapView {
            programs: noted.programs.update(entry as int, midi_program),
            ..noted
        }));
        (self.real_at(entry), midi_program)
    }

    fn map_program(&self, _channel: u8, program: u8) -> (mapped: u8)
        ensures
            mapped == program & 0x7f,
    {
        program & 0x7f
    }

    /// Whether a program change finds a MIDI channel.
    pub fn can_set_program(&self, channel: u8, program: u8) -> (routable: bool)
        ensures
            routable == (self@.set_program(channel, program) is Some),
    {
        let entry = self.pseudo_channel(channel);
        if self.format_type == FormatType::HandyPhoneStandard && self.channel_types[entry] == 3 {
            return true;
        }
        proof {
            let source = least(program, 0x7f);
            let noted = ToneMapView {
                source_programs: self@.source_programs.update(entry as int, source),
                ..self@
            };
            let midi_program = if noted.rhythm_entry(entry as int) {
                0
            } else {
                source & 0x7f
            };
            let set = ToneMapView {
                programs: noted.programs.update(entry as int, midi_program),
                ..noted
            };
            assert(set.assignable() == self@.assignable());
        }
        self.can_route(channel)
    }

    /// The wave that a note selects.
    pub fn stream_wave_id(&self, channel: u8, note: u8) -> (id: Option<u8>)
        ensures
            id == self@.stream_wave_id(channel, note),
    {
        if self.format_type == FormatType::HandyPhoneStandard {
            return None;
        }
        let entry = self.pseudo_channel(channel);
        if self.bank_msb[entry] != 0x7d {
            return None;
        }
        if note <= 12 {
            Some(note + 1)
        } else if 92 <= note && note <= 110 {
            Some(note - 78)
        } else {
            None
        }
    }

    /// Adds the voices that a track's setup messages define.
    pub fn load_custom_voices(&mut self, data: &[u8])
        ensures
            final(self)@ == (ToneMapView {
                custom_voices: old(self)@.custom_voices + setup_voices(data@, 0),
                ..old(self)@
            }),
    {
        let mut voices = parse_setup_custom_voices(data);
        self.custom_voices.append(&mut voices);
    }

    /// Adds a voice that the sequence defines.
    pub fn add_custom_voice(&mut self, voice: MaCustomVoice)
        ensures
            final(self)@ == (ToneMapView {
                custom_voices: old(self)@.custom_voices.push(voice),
                ..old(self)@
            }),
    {
        self.custom_voices.push(voice);
    }

    /// The file-defined voice for a note of a channel.
    pub fn custom_voice(&self, channel: u8, note: u8) -> (voice: Option<MaCustomVoice>)
        ensures
            voice == self@.custom_voice(channel, note),
    {
        let entry = self.pseudo_channel(channel);
        let bank_msb = self.bank_msb[entry];
        let bank_lsb = self.bank_lsb[entry];
        let program = self.source_programs[entry];
        let ghost voices = self.custom_voices@;
        let ghost exact = MaVoiceKey { bank_msb, bank_lsb, program, drum_note: note };
        let ghost open = MaVoiceKey { bank_msb, bank_lsb, program, drum_note: 0 };
        let mut melodic: Option<MaCustomVoice> = None;
        let mut i: usize = 0;
        while i < self.custom_voices.len()
            invariant
                i <= voices.len(),
                voices == self.custom_voices@,
                exact == (MaVoiceKey { bank_msb, bank_lsb, program, drum_note: note }),
                open == (MaVoiceKey { bank_msb, bank_lsb, program, drum_note: 0 }),
                note == 0 || voice_keyed(voices, 0, exact) == voice_keyed(voices, i as int, exact),
                voice_keyed(voices, 0, open) == (if melodic is Some {
                    melodic
                } else {
                    voice_keyed(voices, i as int, open)
                }),
                bank_msb == self@.bank_msb[self@.entry(channel)],
                bank_lsb == self@.bank_lsb[self@.entry(channel)],
                program == self@.source_programs[self@.entry(channel)],
            decreases voices.len() - i,
        {
            let voice = self.custom_voices[i];
            let key = voice.key();
            i += 1;
            if key.bank_msb != bank_msb || key.bank_lsb != bank_lsb || key.program != program {
                continue ;
            }
            if key.drum_note != 0 {
                if key.drum_note == note {
                    return Some(voice);
                }
            } else if melodic.is_none() {
                melodic = Some(voice);
            }
        }
        melodic
    }

    fn hps_drum_velocity(&self, entry: usize) -> (velocity: u8)
        requires
            entry < 64,
        ensures
            velocity == self@.drum_velocity(entry as int),
    {
        let volume = self.channel_volumes[entry];
        let expression = self.expressions[entry];
        assert(volume * expression <= 255 * 255) by (nonlinear_arith)
            requires
                volume <= 255,
                expression <= 255,
        ;
        let product = volume as u16 * expression as u16;
        let value = if expression < 64 {
            product / 102
        } else {
            product / 100
        };
        if value < 1 {
            1
        } else if value > 127 {
            127
        } else {
            value as u8
        }
    }

    /// The velocity with which a note sounds.
    pub fn note_velocity(&mut self, channel: u8, velocity: Option<u8>) -> (sounding: u8)
        ensures
            (final(self)@, sounding) == old(self)@.note_velocity(channel, velocity),
    {
        let entry = self.pseudo_channel(channel);
        if self.format_type == FormatType::HandyPhoneStandard && self.channel_types[entry] == 3 {
            return self.hps_drum_velocity(entry);
        }
        match velocity {
            Some(velocity) => {
                let bounded = least_of(velocity, 0x7f);
                self.velocities[entry] = bounded;
                assert(self@ =~= old(self)@.note_velocity(channel, Some(velocity)).0);
                bounded
            },
            None => self.velocities[entry],
        }
    }

    fn pan_at(&self, entry: usize) -> (pan: Option<u8>)
        requires
            entry < 64,
        ensures
            pan == self@.explicit_pan(entry as int),
    {
        if self.pan_explicit[entry] {
            Some(self.pan[entry])
        } else {
            None
        }
    }

    /// The FM note that stands for a note of a channel.
    pub fn fm_note(
        &mut self,
        channel: u8,
        note: u8,
        velocity: Option<u8>,
        gate_ms: u32,
        patch: MaFmPatch,
    ) -> (fm_note: MaFmNote)
        ensures
            (final(self)@, fm_note) == old(self)@.fm_note(channel, note, velocity, gate_ms, patch),
    {
        let velocity = self.note_velocity(channel, velocity);
        let entry = self.pseudo_channel(channel);
        MaFmNote {
            channel,
            note,
            velocity,
            gate_ms,
            volume: self.channel_volumes[entry],
            expression: self.expressions[entry],
            pan: self.pan_at(entry),
            pitch_bend: self.pitch_bend[entry],
            patch,
        }
    }

    /// The dynamics with which a wave of a channel sounds.
    pub fn wave_dynamics(&mut self, channel: u8, velocity: Option<u8>) -> (dynamics: WaveDynamics)
        ensures
            (final(self)@, dynamics) == old(self)@.wave_dynamics(channel, velocity),
    {
        let velocity = self.note_velocity(channel, velocity);
        let entry = self.pseudo_channel(channel);
        WaveDynamics {
            velocity,
            volume: self.channel_volumes[entry],
            expression: self.expressions[entry],
            pan: self.pan_at(entry),
        }
    }

    /// Notes a pitch bend.
    pub fn set_pitch_bend(&mut self, channel: u8, value: u16)
        ensures
            final(self)@ == old(self)@.set_pitch_bend(channel, value),
    {
        let entry = self.pseudo_channel(channel);
        self.pitch_bend[entry] = if value > 0x3fff {
            0x3fff
        } else {
            value
        };
        assert(self@ =~= old(self)@.set_pitch_bend(channel, value));
    }

    /// The value that a MIDI port gets for a control change.
    ///
    /// MA-3/MA-5 use MSB 124 for normal voices and 125 for rhythm / Stream PCM.
    /// Generic SoundFont synths generally expect GM bank 0: the Yamaha bank is
    /// kept inside and only a canonical GM bank reaches the MIDI port.
    pub fn midi_control_value(&self, control: u8, value: u8) -> (sent: u8)
        ensures
            sent == self@.midi_control_value(control, value),
    {
        if self.format_type != FormatType::HandyPhoneStandard && (control == 0 || control == 32) {
            0
        } else {
            value & 0x7f
        }
    }

    /// The MIDI note of a channel's note.
    pub fn map_note(&self, channel: u8, note: i16) -> (mapped: u8)
        requires
            self@.handy() && !self@.rhythm(channel) ==> note + 36 <= i16::MAX,
        ensures
            mapped == self@.map_note(channel, note as int),
    {
        let entry = self.pseudo_channel(channel);
        if self.format_type == FormatType::HandyPhoneStandard {
            if self.rhythm_at(entry) {
                return least_of(self.programs[entry], 0x7f);
            }
            return midi_number(note + 36);
        }
        let note = midi_number(note);
        if !self.rhythm_at(entry) {
            return note;
        }
        match note {
            0x12 => 45,
            0x1a => 41,
            0x1f => 47,
            0x4d => 50,
            0x54 => 43,
            0x59 => 48,
            _ => note,
        }
    }

    /// Volume times expression, as one MIDI volume.
    pub fn effective_volume(&self, channel: u8) -> (volume: u8)
        ensures
            volume == self@.effective_volume(channel),
    {
        let entry = self.pseudo_channel(channel);
        let volume = self.channel_volumes[entry];
        let expression = self.expressions[entry];
        assert(volume * expression <= 255 * 255) by (nonlinear_arith)
            requires
                volume <= 255,
                expression <= 255,
        ;
        let product = (volume as u16 * expression as u16) / 127;
        if product > 127 {
            127
        } else {
            product as u8
        }
    }

    /// Notes an expression change and returns the resulting MIDI volume.
    pub fn set_expression(&mut self, channel: u8, value: u8) -> (volume: u8)
        ensures
            final(self)@ == old(self)@.set_expression(channel, value),
            volume == final(self)@.effective_volume(channel),
    {
        let entry = self.pseudo_channel(channel);
        self.expressions[entry] = least_of(value, 0x7f);
        assert(self@ =~= old(self)@.set_expression(channel, value));
        self.effective_volume(channel)
    }
}

/// A number brought into the range of MIDI data bytes.
pub fn midi_number(value: i16) -> (number: u8)
    ensures
        number == clamped(value as int, 0, 127),
        0 <= value <= 127 ==> number == value,
        value < 0 ==> number == 0,
        value > 127 ==> number == 127,
{
    if value < 0 {
        0
    } else if value > 127 {
        127
    } else {
        value as u8
    }
}

impl ToneMapView {
    /// What every operation keeps: an entry per channel in each list, and every
    /// number within the range of a MIDI data byte, or two for a pitch bend.
    pub open spec fn valid(self) -> bool {
        &&& self.channel_types.len() == MAX_SMAF_CHANNELS
        &&& self.programs.len() == MAX_SMAF_CHANNELS
        &&& self.source_programs.len() == MAX_SMAF_CHANNELS
        &&& self.channel_volumes.len() == MAX_SMAF_CHANNELS
        &&& self.expressions.len() == MAX_SMAF_CHANNELS
        &&& self.velocities.len() == MAX_SMAF_CHANNELS
        &&& self.bank_msb.len() == MAX_SMAF_CHANNELS
        &&& self.bank_lsb.len() == MAX_SMAF_CHANNELS
        &&& self.pan.len() == MAX_SMAF_CHANNELS
        &&& self.pan_explicit.len() == MAX_SMAF_CHANNELS
        &&& self.pitch_bend.len() == MAX_SMAF_CHANNELS
        &&& self.forced_rhythm.len() == MAX_SMAF_CHANNELS
        &&& self.real_map.len() == MAX_SMAF_CHANNELS
        &&& data_bytes(self.programs)
        &&& data_bytes(self.source_programs)
        &&& data_bytes(self.channel_volumes)
        &&& data_bytes(self.expressions)
        &&& data_bytes(self.velocities)
        &&& data_bytes(self.bank_msb)
        &&& data_bytes(self.bank_lsb)
        &&& data_bytes(self.pan)
        &&& forall|i: int|
            0 <= i < self.pitch_bend.len() ==> #[trigger] self.pitch_bend[i] <= 0x3fff
    }

    /// Whether no two channels share a MIDI channel, and none has the drum channel.
    pub open spec fn distinct(self) -> bool {
        &&& forall|i: int, j: int|
            0 <= i < j < self.real_map.len() && self.real_map[i] is Some
                ==> #[trigger] self.real_map[i] != #[trigger] self.real_map[j]
        &&& forall|i: int|
            0 <= i < self.real_map.len() ==> #[trigger] self.real_map[i] != Some(MIDI_DRUM_CHANNEL)
    }
}

/// Whether every number of a list is a MIDI data byte.
pub open spec fn data_bytes(list: Seq<u8>) -> bool {
    forall|i: int| 0 <= i < list.len() ==> #[trigger] list[i] <= 0x7f
}

proof fn lemma_entry(tone: ToneMapView, channel: u8)
    ensures
        0 <= tone.entry(channel) < MAX_SMAF_CHANNELS,
        !tone.handy() ==> tone.entry(channel) < 16,
        !tone.handy() ==> tone.entry(channel) == channel % 16,
{
    assert(channel & 0x0f == channel % 16) by (bit_vector);
}

/// The state before any track is valid, shares no MIDI channel, and stays valid
/// when a track starts.  Before any track, and when a Mobile Standard track
/// starts, no MIDI channel is assigned.
pub proof fn law_tracks_start_valid(
    tone: ToneMapView,
    format_type: FormatType,
    statuses: Seq<ChannelStatus>,
    channel_offset: u8,
)
    requires
        tone.valid(),
    ensures
        ToneMapView::fresh().valid(),
        ToneMapView::fresh().distinct(),
        ToneMapView::fresh().assignable(),
        tone.init_track(format_type, statuses, channel_offset).valid(),
        tone.distinct() ==> tone.init_track(format_type, statuses, channel_offset).distinct(),
        tone.assignable() ==> tone.init_track(format_type, statuses, channel_offset).assignable(),
        ToneMapView::fresh().real_map == every_channel(None::<u8>),
        format_type != FormatType::HandyPhoneStandard ==> tone.init_track(
            format_type,
            statuses,
            channel_offset,
        ).real_map == every_channel(None::<u8>),
{
}

/// Controls, banks, velocities, pitch bends and expressions keep the state valid
/// and leave the MIDI channels as they are assigned.
pub proof fn law_settings_keep_validity(
    tone: ToneMapView,
    channel: u8,
    control: u8,
    value: u8,
    bend: u16,
    velocity: Option<u8>,
)
    requires
        tone.valid(),
    ensures
        tone.update_control(channel, control, value).valid(),
        tone.update_control(channel, control, value).real_map == tone.real_map,
        tone.update_bank_select(channel, value).valid(),
        tone.update_bank_select(channel, value).real_map == tone.real_map,
        tone.set_pitch_bend(channel, bend).valid(),
        tone.set_pitch_bend(channel, bend).real_map == tone.real_map,
        tone.set_expression(channel, value).valid(),
        tone.set_expression(channel, value).real_map == tone.real_map,
        tone.note_velocity(channel, velocity).0.valid(),
        tone.note_velocity(channel, velocity).0.real_map == tone.real_map,
        tone.note_velocity(channel, velocity).1 <= 0x7f,
        tone.effective_volume(channel) <= 0x7f,
{
    assert(value & 0x7f <= 0x7f) by (bit_vector);
    lemma_entry(tone, channel);
}

/// The dynamics of waves and FM notes are data bytes.
pub proof fn law_dynamics_are_data_bytes(
    tone: ToneMapView,
    channel: u8,
    note: u8,
    velocity: Option<u8>,
    gate_ms: u32,
    patch: MaFmPatch,
)
    requires
        tone.valid(),
    ensures
        ({
            let dynamics = tone.wave_dynamics(channel, velocity).1;
            &&& dynamics.velocity <= 0x7f
            &&& dynamics.volume <= 0x7f
            &&& dynamics.expression <= 0x7f
            &&& dynamics.pan matches Some(pan) ==> pan <= 0x7f
        }),
        ({
            let fm_note = tone.fm_note(channel, note, velocity, gate_ms, patch).1;
            &&& fm_note.velocity <= 0x7f
            &&& fm_note.volume <= 0x7f
            &&& fm_note.expression <= 0x7f
            &&& fm_note.pan matches Some(pan) ==> pan <= 0x7f
            &&& fm_note.pitch_bend <= 0x3fff
        }),
{
    lemma_entry(tone, channel);
    law_settings_keep_validity(tone, channel, 0, 0, 0, velocity);
}

/// A MIDI note number is a data byte.
pub proof fn law_notes_are_data_bytes(tone: ToneMapView, channel: u8, note: int)
    ensures
        tone.map_note(channel, note) <= 0x7f,
{
}

/// Percussion goes to the drum channel, and assigns nothing.
pub proof fn law_percussion_goes_to_the_drum_channel(tone: ToneMapView, channel: u8)
    requires
        tone.rhythm(channel),
    ensures
        tone.real_channel(channel) == Some((tone, MIDI_DRUM_CHANNEL)),
{
}

/// Asking for a channel's MIDI channel again gives the same one and changes
/// nothing.
pub proof fn law_assignment_is_stable(tone: ToneMapView, channel: u8)
    requires
        tone.valid(),
    ensures
        tone.real_channel(channel) matches Some((assigned, midi)) ==> assigned.real_channel(channel)
            == Some((assigned, midi)) && assigned.valid(),
{
    lemma_entry(tone, channel);
}

/// Assigning a channel leaves the MIDI channels of all others as they are.
pub proof fn law_assignment_touches_one_channel(tone: ToneMapView, channel: u8, other: int)
    requires
        tone.valid(),
        0 <= other < MAX_SMAF_CHANNELS,
        other != tone.entry(channel),
    ensures
        tone.real_channel(channel) matches Some((assigned, midi)) ==> assigned.real_map[other]
            == tone.real_map[other],
{
    lemma_entry(tone, channel);
}

/// A free MIDI channel is none that is taken, and where there is none, all are.
pub proof fn law_lowest_free_is_lowest(tone: ToneMapView, from: u8, midi: u8)
    requires
        from <= midi < 16,
    ensures
        match tone.lowest_free(from) {
            Some(free) => {
                &&& from <= free < 16
                &&& !tone.taken(free)
                &&& midi < free ==> tone.taken(midi)
            },
            None => tone.taken(midi),
        },
    decreases 16 - from,
{
    if tone.taken(from) {
        if from < midi {
            law_lowest_free_is_lowest(tone, (from + 1) as u8, midi);
        } else if from < 15 {
            law_lowest_free_is_lowest(tone, (from + 1) as u8, (from + 1) as u8);
        }
    }
}

/// While a MIDI channel is free, melody channels get MIDI channels of their own,
/// none of them the drum channel.
pub proof fn law_melody_channels_are_distinct(tone: ToneMapView, channel: u8)
    requires
        tone.valid(),
        tone.distinct(),
        tone.lowest_free(0) is Some,
    ensures
        tone.real_channel(channel) matches Some((assigned, midi)) ==> {
            &&& assigned.distinct()
            &&& tone.rhythm(channel) || midi != MIDI_DRUM_CHANNEL
        },
{
    lemma_entry(tone, channel);
    law_lowest_free_is_lowest(tone, 0, 0);
    let entry = tone.entry(channel);
    let free = tone.lowest_free(0).unwrap();
    if !tone.rhythm(channel) && tone.real_map[entry] is None {
        assert forall|i: int| 0 <= i < tone.real_map.len() implies #[trigger] tone.real_map[i]
            != Some(free) by {
            if tone.real_map[i] == Some(free) {
                assert(tone.real_map.contains(Some(free)));
            }
        }
    }
}

/// Whether one of the given list entries has the MIDI channel.
spec fn held(tone: ToneMapView, assigned: Set<int>, midi: u8) -> bool {
    exists|e: int| assigned.contains(e) && #[trigger] tone.real_map[e] == Some(midi)
}

/// Where every MIDI channel from `from` on but the drum channel is assigned, at
/// least as many channels have one.
proof fn lemma_holders(tone: ToneMapView, assigned: Set<int>, from: u8)
    requires
        from <= 16,
        assigned.finite(),
        forall|midi: u8|
            from <= midi < 16 && midi != MIDI_DRUM_CHANNEL ==> #[trigger] held(
                tone,
                assigned,
                midi,
            ),
    ensures
        assigned.len() >= 16 - from - (if from <= MIDI_DRUM_CHANNEL { 1int } else { 0 }),
    decreases 16 - from,
{
    if from == 16 {
    } else if from == MIDI_DRUM_CHANNEL {
        lemma_holders(tone, assigned, (from + 1) as u8);
    } else {
        assert(held(tone, assigned, from));
        let holder = choose|e: int|
            assigned.contains(e) && #[trigger] tone.real_map[e] == Some(from);
        let others = assigned.remove(holder);
        assert forall|midi: u8|
            from + 1 <= midi < 16 && midi != MIDI_DRUM_CHANNEL implies #[trigger] held(
            tone,
            others,
            midi,
        ) by {
            assert(held(tone, assigned, midi));
            let e = choose|e: int|
                assigned.contains(e) && #[trigger] tone.real_map[e] == Some(midi);
            assert(others.contains(e));
        }
        lemma_holders(tone, others, (from + 1) as u8);
    }
}

/// While fewer than fifteen channels have a MIDI channel, another one is free.
pub proof fn law_fourteen_channels_leave_one_free(tone: ToneMapView, assigned: Set<int>)
    requires
        assigned.finite(),
        assigned.len() < 15,
        forall|e: int|
            0 <= e < tone.real_map.len() && #[trigger] tone.real_map[e] is Some
                ==> assigned.contains(e),
    ensures
        tone.lowest_free(0) is Some,
{
    if tone.lowest_free(0) is None {
        assert forall|midi: u8|
            0 <= midi < 16 && midi != MIDI_DRUM_CHANNEL implies #[trigger] held(
            tone,
            assigned,
            midi,
        ) by {
            law_lowest_free_is_lowest(tone, 0, midi);
            let e = choose|e: int|
                0 <= e < tone.real_map.len() && #[trigger] tone.real_map[e] == Some(midi);
            assert(assigned.contains(e));
        }
        lemma_holders(tone, assigned, 0);
    }
}

/// On a Mobile Standard track, a channel without MIDI channel finds a free one as
/// long as some other of the sixteen channels has none either.
pub proof fn law_a_mobile_channel_is_left_free(tone: ToneMapView, channel: u8, other: int)
    requires
        tone.valid(),
        !tone.handy(),
        forall|e: int|
            16 <= e < tone.real_map.len() ==> #[trigger] tone.real_map[e] is None,
        tone.real_map[tone.entry(channel)] is None,
        0 <= other < 16,
        other != tone.entry(channel),
        tone.real_map[other] is None,
    ensures
        tone.lowest_free(0) is Some,
{
    lemma_entry(tone, channel);
    lemma_int_range(0, 16);
    let assigned = set_int_range(0, 16).remove(tone.entry(channel)).remove(other);
    law_fourteen_channels_leave_one_free(tone, assigned);
}

/// Whether channels asked for their MIDI channels one after the other, each in the
/// state of its place, from a state in which none was assigned, and with nothing
/// between that assigns any.
pub open spec fn routing_history(states: Seq<ToneMapView>, channels: Seq<u8>) -> bool {
    &&& states.len() == channels.len()
    &&& forall|k: int|
        0 <= k < states.len() ==> #[trigger] states[k].valid() && states[k].handy()
            == states[0].handy()
    &&& forall|e: int|
        0 <= e < states[0].real_map.len() ==> #[trigger] states[0].real_map[e] is None
    &&& forall|k: int|
        0 <= k < states.len() - 1 ==> (#[trigger] states[k].real_channel(channels[k]) matches Some(
            (after, _),
        ) ==> states[k + 1].real_map == after.real_map)
}

/// The list entries of the melody channels among the first `count` that asked.
pub open spec fn melody_entries(
    states: Seq<ToneMapView>,
    channels: Seq<u8>,
    count: nat,
) -> Set<int>
    decreases count,
{
    if count == 0 {
        Set::empty()
    } else {
        let before = melody_entries(states, channels, (count - 1) as nat);
        let (tone, channel) = (states[count - 1], channels[count - 1]);
        if tone.rhythm(channel) {
            before
        } else {
            before.insert(tone.entry(channel))
        }
    }
}

/// The MIDI channel that the channel at a place got.
pub open spec fn routed_to(states: Seq<ToneMapView>, channels: Seq<u8>, k: int) -> u8 {
    states[k].real_channel(channels[k]).unwrap().1
}

proof fn lemma_melody_entries(
    states: Seq<ToneMapView>,
    channels: Seq<u8>,
    fewer: nat,
    count: nat,
)
    requires
        fewer <= count,
    ensures
        melody_entries(states, channels, count).finite(),
        melody_entries(states, channels, fewer).finite(),
        melody_entries(states, channels, fewer).len() <= melody_entries(
            states,
            channels,
            count,
        ).len(),
    decreases count,
{
    if count > 0 {
        let last = (count - 1) as nat;
        if fewer < count {
            lemma_melody_entries(states, channels, fewer, last);
        } else {
            lemma_melody_entries(states, channels, last, last);
        }
    }
}

/// One channel asks, where it is among at most fifteen.
proof fn lemma_one_of_fifteen(tone: ToneMapView, channel: u8, assigned: Set<int>)
    requires
        tone.valid(),
        tone.distinct(),
        tone.assignable(),
        assigned.finite(),
        forall|e: int|
            0 <= e < tone.real_map.len() ==> (#[trigger] tone.real_map[e] is Some
                <==> assigned.contains(e)),
        !tone.rhythm(channel) ==> assigned.insert(tone.entry(channel)).len() <= 15,
    ensures
        tone.real_channel(channel) matches Some((after, midi)) && {
            &&& after.distinct()
            &&& after.assignable()
            &&& after.real_map.len() == tone.real_map.len()
            &&& tone.rhythm(channel) ==> after == tone && midi == MIDI_DRUM_CHANNEL
            &&& !tone.rhythm(channel) ==> midi < 16 && midi != MIDI_DRUM_CHANNEL
                && after.real_map == tone.real_map.update(tone.entry(channel), Some(midi))
        },
{
    lemma_entry(tone, channel);
    let entry = tone.entry(channel);
    if !tone.rhythm(channel) {
        if tone.real_map[entry] is None {
            law_fourteen_channels_leave_one_free(tone, assigned);
            law_lowest_free_is_lowest(tone, 0, 0);
            law_melody_channels_are_distinct(tone, channel);
        }
        let (after, midi) = tone.real_channel(channel).unwrap();
        assert(after.real_map =~= tone.real_map.update(entry, Some(midi)));
        assert forall|i: int| 0 <= i < after.real_map.len() implies (
        #[trigger] after.real_map[i] matches Some(number) ==> number < 16) by {
            if i != entry {
                assert(after.real_map[i] == tone.real_map[i]);
            } else {
                assert(tone.real_map[entry] matches Some(number) ==> number < 16);
            }
        }
    }
}

/// What holds when the channel at place `k` asks: the melody channels before it
/// have the MIDI channels that they got, and no others have any.
proof fn lemma_history(states: Seq<ToneMapView>, channels: Seq<u8>, k: nat)
    requires
        routing_history(states, channels),
        k < states.len(),
        melody_entries(states, channels, states.len()).len() <= 15,
    ensures
        states[k as int].distinct(),
        states[k as int].assignable(),
        forall|e: int|
            0 <= e < MAX_SMAF_CHANNELS ==> (#[trigger] states[k as int].real_map[e] is Some
                <==> melody_entries(states, channels, k).contains(e)),
        forall|i: int|
            0 <= i < k && !states[i].rhythm(channels[i])
                ==> states[k as int].real_map[states[i].entry(channels[i])] == Some(
                #[trigger] routed_to(states, channels, i),
            ),
    decreases k,
{
    assert(states[0].valid());
    assert(states[k as int].valid());
    if k > 0 {
        let before = (k - 1) as nat;
        lemma_history(states, channels, before);
        lemma_melody_entries(states, channels, before, states.len());
        lemma_melody_entries(states, channels, k, states.len());
        let (tone, channel) = (states[before as int], channels[before as int]);
        assert(tone.valid());
        lemma_entry(tone, channel);
        lemma_one_of_fifteen(tone, channel, melody_entries(states, channels, before));
        let (after, midi) = tone.real_channel(channel).unwrap();
        assert(states[k as int].real_map == after.real_map);
        assert(midi == routed_to(states, channels, before as int));
        assert forall|i: int|
            0 <= i < k && !states[i].rhythm(
                channels[i],
            ) implies states[k as int].real_map[states[i].entry(channels[i])] == Some(
            #[trigger] routed_to(states, channels, i),
        ) by {
            lemma_entry(states[i], channels[i]);
            if i < before {
                assert(tone.real_map[states[i].entry(channels[i])] == Some(
                    routed_to(states, channels, i),
                ));
            }
        }
    }
}

/// As long as at most fifteen melody channels ask since none had a MIDI channel:
/// each gets one of the existing ones other than the drum channel, the same one
/// whenever it asks again, and no two channels the same.  Percussion gets the drum
/// channel and changes nothing.
pub proof fn law_fifteen_melody_channels_keep_their_own(
    states: Seq<ToneMapView>,
    channels: Seq<u8>,
    i: int,
    j: int,
)
    requires
        routing_history(states, channels),
        melody_entries(states, channels, states.len()).len() <= 15,
        0 <= i <= j < states.len(),
    ensures
        states[i].real_channel(channels[i]) is Some,
        states[i].rhythm(channels[i]) ==> states[i].real_channel(channels[i]) == Some(
            (states[i], MIDI_DRUM_CHANNEL),
        ),
        !states[i].rhythm(channels[i]) ==> routed_to(states, channels, i) < 16 && routed_to(
            states,
            channels,
            i,
        ) != MIDI_DRUM_CHANNEL,
        !states[i].rhythm(channels[i]) && !states[j].rhythm(channels[j]) ==> (routed_to(
            states,
            channels,
            i,
        ) == routed_to(states, channels, j) <==> states[i].entry(channels[i]) == states[j].entry(
            channels[j],
        )),
        !states[i].rhythm(channels[i]) && !states[j].rhythm(channels[j]) && channels[i] < 16
            && channels[j] < 16 ==> (routed_to(states, channels, i) == routed_to(
            states,
            channels,
            j,
        ) <==> channels[i] == channels[j]),
{
    assert(states[0].valid());
    assert(states[i].valid());
    assert(states[j].valid());
    lemma_history(states, channels, i as nat);
    lemma_history(states, channels, j as nat);
    lemma_melody_entries(states, channels, i as nat, states.len());
    lemma_melody_entries(states, channels, (i + 1) as nat, states.len());
    lemma_melody_entries(states, channels, j as nat, states.len());
    lemma_melody_entries(states, channels, (j + 1) as nat, states.len());
    lemma_one_of_fifteen(
        states[i],
        channels[i],
        melody_entries(states, channels, i as nat),
    );
    lemma_one_of_fifteen(
        states[j],
        channels[j],
        melody_entries(states, channels, j as nat),
    );
    lemma_entry(states[i], channels[i]);
    lemma_entry(states[j], channels[j]);
    assert(forall|channel: u8| channel < 16 ==> #[trigger] (channel & 0x0f) == channel)
        by (bit_vector);
    if i < j && !states[i].rhythm(channels[i]) && !states[j].rhythm(channels[j]) {
        let (one, other) = (states[i].entry(channels[i]), states[j].entry(channels[j]));
        let (after, midi) = states[j].real_channel(channels[j]).unwrap();
        assert(states[j].real_map[one] == Some(routed_to(states, channels, i)));
        assert(after.real_map[other] == Some(midi));
        if one != other {
            assert(after.real_map[one] == Some(routed_to(states, channels, i)));
            if one < other {
                assert(after.real_map[one] != after.real_map[other]);
            } else {
                assert(after.real_map[other] != after.real_map[one]);
            }
        }
    }
}

proof fn lemma_lowest_free_by_map(tone: ToneMapView, other: ToneMapView, from: u8)
    requires
        other.real_map == tone.real_map,
    ensures
        other.lowest_free(from) == tone.lowest_free(from),
    decreases 16 - from,
{
    if from < 16 {
        lemma_lowest_free_by_map(tone, other, (from + 1) as u8);
    }
}

/// A program change asks for its channel's MIDI channel as a note does.
pub proof fn law_programs_ask_for_the_channel(tone: ToneMapView, channel: u8, program: u8)
    requires
        tone.valid(),
    ensures
        match (tone.set_program(channel, program), tone.real_channel(channel)) {
            (Some((set, midi, _)), Some((asked, number))) => set.real_map == asked.real_map && midi
                == number,
            (None, None) => true,
            _ => false,
        },
{
    lemma_entry(tone, channel);
    assert forall|set: ToneMapView|
        set.real_map == tone.real_map implies #[trigger] set.lowest_free(0)
        == tone.lowest_free(0) by {
        lemma_lowest_free_by_map(tone, set, 0);
    }
}

/// The channels of a Mobile Standard track, and the first sixteen of Handy Phone
/// tracks, always find a MIDI channel.
pub proof fn law_low_channels_find_a_midi_channel(tone: ToneMapView, channel: u8)
    requires
        tone.valid(),
        tone.assignable(),
        !tone.handy() || channel < 16,
    ensures
        tone.real_channel(channel) matches Some((assigned, midi)) && midi < 16
            && assigned.assignable(),
{
    lemma_entry(tone, channel);
    law_lowest_free_is_lowest(tone, 0, 0);
    let entry = tone.entry(channel);
    assert(entry < 16);
    if !tone.rhythm(channel) && tone.real_map[entry] is None {
        let (assigned, midi) = tone.real_channel(channel).unwrap();
        assert forall|i: int| 0 <= i < assigned.real_map.len() implies (
        #[trigger] assigned.real_map[i] matches Some(number) ==> number < 16) by {
            if i != entry {
                assert(assigned.real_map[i] == tone.real_map[i]);
            }
        }
    }
}

/// So does a program change on them.
pub proof fn law_programs_find_a_midi_channel(tone: ToneMapView, channel: u8, program: u8)
    requires
        tone.valid(),
        tone.assignable(),
        !tone.handy() || channel < 16,
    ensures
        tone.set_program(channel, program) matches Some((set, midi, midi_program)) && midi < 16
            && set.assignable() && set.handy() == tone.handy(),
{
    lemma_entry(tone, channel);
    law_lowest_free_is_lowest(tone, 0, 0);
    let entry = tone.entry(channel);
    let source = least(program, 0x7f);
    assert(source & 0x7f <= 0x7f) by (bit_vector);
    let noted = ToneMapView { source_programs: tone.source_programs.update(entry, source), ..tone };
    let midi_program = if noted.rhythm_entry(entry) {
        0
    } else {
        source & 0x7f
    };
    let set = ToneMapView { programs: noted.programs.update(entry, midi_program), ..noted };
    assert(set.valid());
    assert(set.entry(channel) == entry);
    law_low_channels_find_a_midi_channel(set, channel);
}

/// A Handy Phone track leaves the channels of other tracks, all MIDI channels and
/// all voices as they are.
pub proof fn law_handy_tracks_are_independent(
    tone: ToneMapView,
    statuses: Seq<ChannelStatus>,
    channel_offset: u8,
    other: int,
)
    requires
        tone.valid(),
        0 <= other < MAX_SMAF_CHANNELS,
        other < channel_offset || channel_offset + 4 <= other,
        channel_offset <= 60,
    ensures
        ({
            let after = tone.init_track(
                FormatType::HandyPhoneStandard,
                statuses,
                channel_offset,
            );
            &&& after.real_map == tone.real_map
            &&& after.custom_voices == tone.custom_voices
            &&& after.channel_types[other] == tone.channel_types[other]
            &&& after.programs[other] == tone.programs[other]
            &&& after.source_programs[other] == tone.source_programs[other]
            &&& after.channel_volumes[other] == tone.channel_volumes[other]
            &&& after.expressions[other] == tone.expressions[other]
            &&& after.velocities[other] == tone.velocities[other]
            &&& after.bank_msb[other] == tone.bank_msb[other]
            &&& after.bank_lsb[other] == tone.bank_lsb[other]
            &&& after.pan[other] == tone.pan[other]
            &&& after.pan_explicit[other] == tone.pan_explicit[other]
            &&& after.pitch_bend[other] == tone.pitch_bend[other]
            &&& after.forced_rhythm[other] == tone.forced_rhythm[other]
        }),
{
}

/// A note without velocity sounds with the one that the last note of its channel
/// had, unless the channel is Handy Phone percussion.
pub proof fn law_velocity_is_repeated(tone: ToneMapView, channel: u8, velocity: u8)
    requires
        tone.valid(),
        !(tone.handy() && tone.channel_types[tone.entry(channel)] == 3),
    ensures
        ({
            let (remembered, first) = tone.note_velocity(channel, Some(velocity));
            remembered.note_velocity(channel, None) == (remembered, first)
        }),
{
    lemma_entry(tone, channel);
}

/// A melody channel keeps the program that the file gives it.
pub proof fn law_program_numbers_are_kept(tone: ToneMapView, channel: u8, program: u8)
    requires
        tone.valid(),
        !tone.rhythm(channel),
        program <= 0x7f,
    ensures
        tone.set_program(channel, program) matches Some((set, midi, midi_program)) ==> {
            &&& midi_program == program
            &&& set.source_programs[tone.entry(channel)] == program
        },
{
    lemma_entry(tone, channel);
    assert(program <= 0x7f ==> program & 0x7f == program) by (bit_vector);
}

/// A program change keeps the state valid.
pub proof fn law_programs_keep_validity(tone: ToneMapView, channel: u8, program: u8)
    requires
        tone.valid(),
    ensures
        tone.set_program(channel, program) matches Some((set, midi, midi_program)) ==> set.valid()
            && midi_program <= 0x7f,
{
    lemma_entry(tone, channel);
    let source = least(program, 0x7f);
    assert(source & 0x7f <= 0x7f) by (bit_vector);
}

/// The channel is no part of a wave's identity: in bank 125 the same note selects
/// the same wave on every channel.
pub proof fn law_waves_belong_to_no_channel(
    tone: ToneMapView,
    one: u8,
    other: u8,
    note: u8,
)
    requires
        tone.bank_msb[tone.entry(one)] == 0x7d,
        tone.bank_msb[tone.entry(other)] == 0x7d,
    ensures
        tone.stream_wave_id(one, note) == tone.stream_wave_id(other, note),
{
}

/// Outside bank 125, and on Handy Phone tracks, no note selects a wave.
pub proof fn law_waves_need_their_bank(tone: ToneMapView, channel: u8, note: u8)
    ensures
        tone.stream_wave_id(channel, note) matches Some(wave) ==> {
            &&& !tone.handy()
            &&& tone.bank_msb[tone.entry(channel)] == 0x7d
            &&& 1 <= wave <= 32
        },
{
}

proof fn lemma_seven_bits(value: u8)
    by (bit_vector)
    ensures
        value & 0x7f == value % 128,
        value & 0x80 != 0 <==> value >= 128,
{
}

/// The channels of a Mobile Standard track are counted modulo 16; a Handy Phone file has
/// 64, and whatever is past them counts as the last.
pub proof fn law_channels_have_entries(tone: ToneMapView, channel: u8)
    ensures
        !tone.handy() ==> tone.entry(channel) == channel % 16,
        tone.handy() && channel <= 63 ==> tone.entry(channel) == channel,
        tone.handy() && channel > 63 ==> tone.entry(channel) == 63,
{
    lemma_entry(tone, channel);
}

/// A track starts with its header's percussion: on a Mobile Standard track exactly the
/// channels that the header calls rhythm, on a Handy Phone track those of its own four.
/// Volume is 100, expression 127, the bend centred, no pan set, bank and program zero;
/// velocity is 64 on a Mobile Standard track and 127 on a Handy Phone track.
pub proof fn law_tracks_start_from_their_header(
    tone: ToneMapView,
    format_type: FormatType,
    statuses: Seq<ChannelStatus>,
    channel_offset: u8,
    local: u8,
)
    requires
        tone.valid(),
        channel_offset <= 60,
        format_type is HandyPhoneStandard ==> local < 4,
        !(format_type is HandyPhoneStandard) ==> local < 16,
    ensures
        ({
            let after = tone.init_track(format_type, statuses, channel_offset);
            let channel: u8 = if format_type is HandyPhoneStandard {
                (channel_offset + local) as u8
            } else {
                local
            };
            let e = channel as int;
            &&& after.handy() == (format_type is HandyPhoneStandard)
            &&& after.format_type == format_type
            &&& after.rhythm(channel) <==> local < statuses.len()
                && statuses[local as int].channel_type is Rhythm
            &&& after.channel_volumes[e] == 100 && after.expressions[e] == 127
            &&& after.velocities[e] == (if after.handy() {
                127u8
            } else {
                64u8
            })
            &&& after.pitch_bend[e] == 8192 && !after.pan_explicit[e]
            &&& after.explicit_pan(e) is None
            &&& after.bank_msb[e] == 0 && after.bank_lsb[e] == 0
            &&& after.programs[e] == 0 && after.source_programs[e] == 0
            &&& !after.handy() ==> after.custom_voices.len() == 0
            &&& after.handy() ==> after.custom_voices == tone.custom_voices
        }),
{
    let after = tone.init_track(format_type, statuses, channel_offset);
    let channel: u8 = if format_type is HandyPhoneStandard {
        (channel_offset + local) as u8
    } else {
        local
    };
    lemma_entry(after, channel);
}

/// Before any track the state is that of a Mobile Standard track without a header.
pub proof fn law_fresh_states_are_mobile(tone: ToneMapView, channel_offset: u8)
    requires
        tone.valid(),
    ensures
        ToneMapView::fresh() == tone.init_track(
            FormatType::MobileStandardNoCompress,
            Seq::empty(),
            channel_offset,
        ),
{
    assert(ToneMapView::fresh().channel_types =~= tone.init_track(
        FormatType::MobileStandardNoCompress,
        Seq::empty(),
        channel_offset,
    ).channel_types);
}

/// Control 7 sets the volume of its channel, 11 the expression and 10 the pan, to 127 at
/// most; 0 and 32 set the two halves of the bank from seven bits.  Nothing else changes,
/// and no other control changes anything.
pub proof fn law_controls_set_one_thing(
    tone: ToneMapView,
    channel: u8,
    control: u8,
    value: u8,
    other: int,
)
    requires
        tone.valid(),
        0 <= other < 64,
    ensures
        ({
            let after = tone.update_control(channel, control, value);
            let e = tone.entry(channel);
            let bounded: u8 = if value < 128 {
                value
            } else {
                127
            };
            let here = other == e;
            &&& after.channel_volumes[other] == (if here && control == 7 {
                bounded
            } else {
                tone.channel_volumes[other]
            })
            &&& after.expressions[other] == (if here && control == 11 {
                bounded
            } else {
                tone.expressions[other]
            })
            &&& after.explicit_pan(other) == (if here && control == 10 {
                Some(bounded)
            } else {
                tone.explicit_pan(other)
            })
            &&& after.bank_msb[other] == (if here && control == 0 {
                value % 128
            } else {
                tone.bank_msb[other]
            })
            &&& after.bank_lsb[other] == (if here && control == 32 {
                value % 128
            } else {
                tone.bank_lsb[other]
            })
            &&& after.programs == tone.programs && after.source_programs == tone.source_programs
            &&& after.velocities == tone.velocities && after.pitch_bend == tone.pitch_bend
            &&& after.channel_types == tone.channel_types
            &&& after.forced_rhythm == tone.forced_rhythm && after.real_map == tone.real_map
            &&& after.custom_voices == tone.custom_voices && after.format_type == tone.format_type
            &&& control != 0 && control != 7 && control != 10 && control != 11 && control != 32
                ==> after == tone
        }),
{
    lemma_entry(tone, channel);
    lemma_seven_bits(value);
}

/// A bank select sets the bank of its channel from seven bits; the channel plays
/// percussion from then on where the top bit is set, where the bank is 125, and where it
/// did so by its header or an earlier top bit.  Other channels are left alone.
pub proof fn law_bank_selects_choose_percussion(
    tone: ToneMapView,
    channel: u8,
    value: u8,
    other: u8,
)
    requires
        tone.valid(),
    ensures
        ({
            let after = tone.update_bank_select(channel, value);
            let e = tone.entry(channel);
            &&& after.bank_msb[e] == value % 128
            &&& after.rhythm(channel) <==> value >= 128 || value == 125 || tone.channel_types[e]
                == 3 || tone.forced_rhythm[e]
            &&& tone.entry(other) != e ==> after.rhythm(other) == tone.rhythm(other)
                && after.bank_msb[tone.entry(other)] == tone.bank_msb[tone.entry(other)]
            &&& after == (ToneMapView {
                bank_msb: after.bank_msb,
                forced_rhythm: after.forced_rhythm,
                ..tone
            })
        }),
{
    lemma_entry(tone, channel);
    lemma_entry(tone, other);
    lemma_seven_bits(value);
}

/// A program change on a melody channel sends the program itself, 127 at most, and one on
/// percussion program 0, to the channel's MIDI channel; the voices are chosen by the
/// program that was written.  On a Handy Phone rhythm channel it picks the drum that the
/// channel plays.
pub proof fn law_programs_reach_their_channel(
    tone: ToneMapView,
    channel: u8,
    program: u8,
    other: int,
)
    requires
        tone.valid(),
        0 <= other < 64,
    ensures
        tone.set_program(channel, program) matches Some((after, midi, sent)) ==> {
            let e = tone.entry(channel);
            let bounded: u8 = if program < 128 {
                program
            } else {
                127
            };
            &&& after.source_programs[e] == bounded
            &&& !tone.rhythm(channel) ==> sent == bounded && after.programs[e] == bounded
            &&& tone.rhythm(channel) ==> sent == 0 && midi == 9
            &&& tone.handy() && tone.channel_types[e] == 3 ==> after.programs[e] == bounded
            &&& tone.rhythm(channel) && !(tone.handy() && tone.channel_types[e] == 3)
                ==> after.programs[e] == 0
            &&& after.rhythm(channel) == tone.rhythm(channel)
            &&& other != e ==> after.programs[other] == tone.programs[other]
                && after.source_programs[other] == tone.source_programs[other]
            &&& after == (ToneMapView {
                programs: after.programs,
                source_programs: after.source_programs,
                real_map: after.real_map,
                ..tone
            })
        },
{
    lemma_entry(tone, channel);
    lemma_seven_bits(program);
    let source = least(program, 0x7f);
    lemma_seven_bits(source);
}

/// In bank 125 of a Mobile Standard channel the notes 0 to 12 select the waves 1 to 13 and
/// the notes 92 to 110 the waves 14 to 32, and no other note selects one; elsewhere none
/// does.
pub proof fn law_notes_select_waves(tone: ToneMapView, channel: u8, note: u8)
    ensures
        tone.stream_wave_id(channel, note) is Some <==> !tone.handy() && tone.bank_msb[tone.entry(
            channel,
        )] == 125 && (note <= 12 || 92 <= note <= 110),
        tone.stream_wave_id(channel, note) matches Some(wave) ==> {
            &&& note <= 12 ==> wave == note + 1
            &&& note > 12 ==> wave == note - 78
        },
{
}

/// Whether a voice has a bank, a program and a drum note.
pub open spec fn voice_is_for(
    voice: MaCustomVoice,
    bank_msb: u8,
    bank_lsb: u8,
    program: u8,
    drum_note: u8,
) -> bool {
    let key = voice_key(voice);
    &&& key.bank_msb == bank_msb && key.bank_lsb == bank_lsb
    &&& key.program == program && key.drum_note == drum_note
}

proof fn lemma_voice_keyed(voices: Seq<MaCustomVoice>, from: int, key: MaVoiceKey) -> (at: int)
    requires
        0 <= from <= voices.len(),
    ensures
        match voice_keyed(voices, from, key) {
            Some(voice) => from <= at < voices.len() && voices[at] == voice && voice_key(voice)
                == key && forall|j: int| from <= j < at ==> voice_key(#[trigger] voices[j]) != key,
            None => forall|j: int|
                from <= j < voices.len() ==> voice_key(#[trigger] voices[j]) != key,
        },
    decreases voices.len() - from,
{
    if from >= voices.len() || voice_key(voices[from]) == key {
        from
    } else {
        lemma_voice_keyed(voices, from + 1, key)
    }
}

/// The voice for a note is the first one defined under the channel's bank and program for
/// this very drum note; where there is none, the first one for no drum note; else none.
pub proof fn law_voices_are_chosen_by_key(tone: ToneMapView, channel: u8, note: u8)
    ensures
        ({
            let e = tone.entry(channel);
            let (msb, lsb, program) = (tone.bank_msb[e], tone.bank_lsb[e], tone.source_programs[e]);
            let voices = tone.custom_voices;
            match tone.custom_voice(channel, note) {
                Some(voice) => exists|i: int| #![trigger voices[i]]
                    {
                        &&& 0 <= i < voices.len()
                        &&& voices[i] == voice
                        &&& voice_is_for(voice, msb, lsb, program, note) || voice_is_for(
                            voice,
                            msb,
                            lsb,
                            program,
                            0,
                        ) && forall|j: int|
                            0 <= j < voices.len() ==> !voice_is_for(
                                #[trigger] voices[j],
                                msb,
                                lsb,
                                program,
                                note,
                            )
                        &&& forall|j: int|
                            0 <= j < i ==> voice_key(#[trigger] voices[j]) != voice_key(voice)
                    },
                None => forall|j: int|
                    0 <= j < voices.len() ==> !voice_is_for(
                        #[trigger] voices[j],
                        msb,
                        lsb,
                        program,
                        note,
                    ) && !voice_is_for(voices[j], msb, lsb, program, 0),
            }
        }),
{
    let e = tone.entry(channel);
    let key = MaVoiceKey {
        bank_msb: tone.bank_msb[e],
        bank_lsb: tone.bank_lsb[e],
        program: tone.source_programs[e],
        drum_note: note,
    };
    let melodic = MaVoiceKey { drum_note: 0, ..key };
    let at = lemma_voice_keyed(tone.custom_voices, 0, key);
    let melodic_at = lemma_voice_keyed(tone.custom_voices, 0, melodic);
    match voice_keyed(tone.custom_voices, 0, key) {
        Some(voice) => assert(tone.custom_voices[at] == voice),
        None => if let Some(voice) = voice_keyed(tone.custom_voices, 0, melodic) {
            assert(tone.custom_voices[melodic_at] == voice);
        },
    }
}

/// A note sounds with the velocity that is written, 127 at most, and the channel remembers
/// it; a note without one repeats it and changes nothing.  Handy Phone percussion sounds
/// with its volume times its expression, a hundredth of it from expression 64 on and a
/// hundred-and-second below, between 1 and 127.
pub proof fn law_notes_sound_with_their_velocity(
    tone: ToneMapView,
    channel: u8,
    velocity: Option<u8>,
    other: int,
)
    requires
        tone.valid(),
        0 <= other < 64,
    ensures
        ({
            let e = tone.entry(channel);
            let (after, sounds) = tone.note_velocity(channel, velocity);
            let drum = tone.handy() && tone.channel_types[e] == 3;
            let product = tone.channel_volumes[e] * tone.expressions[e];
            let part: int = if tone.expressions[e] >= 64 {
                100
            } else {
                102
            };
            &&& drum ==> after == tone && 1 <= sounds <= 127
            &&& drum && sounds > 1 ==> sounds * part <= product
            &&& drum && sounds < 127 ==> product < (sounds + 1) * part
            &&& !drum ==> match velocity {
                Some(written) => {
                    &&& sounds == (if written < 128 {
                        written
                    } else {
                        127
                    })
                    &&& after.velocities[other] == (if other == e {
                        sounds
                    } else {
                        tone.velocities[other]
                    })
                    &&& after == (ToneMapView { velocities: after.velocities, ..tone })
                },
                None => sounds == tone.velocities[e] && after == tone,
            }
        }),
{
    lemma_entry(tone, channel);
    let e = tone.entry(channel);
    let product = tone.channel_volumes[e] * tone.expressions[e];
    assert(0 <= product <= 127 * 127) by (nonlinear_arith)
        requires
            product == tone.channel_volumes[e] * tone.expressions[e],
            tone.channel_volumes[e] <= 127,
            tone.expressions[e] <= 127,
    ;
}

/// An FM note and a wave sound with the velocity of the note and with the volume,
/// expression, pan and bend that the channel was given; the pan is left open until one
/// has been set.
pub proof fn law_notes_carry_the_channel_state(
    tone: ToneMapView,
    channel: u8,
    note: u8,
    velocity: Option<u8>,
    gate_ms: u32,
    patch: MaFmPatch,
)
    ensures
        ({
            let e = tone.entry(channel);
            let (heard, sounds) = tone.note_velocity(channel, velocity);
            let (after_fm, fm) = tone.fm_note(channel, note, velocity, gate_ms, patch);
            let (after_wave, wave) = tone.wave_dynamics(channel, velocity);
            &&& after_fm == heard && after_wave == heard
            &&& fm.channel == channel && fm.note == note && fm.velocity == sounds
            &&& fm.gate_ms == gate_ms && fm.patch == patch
            &&& fm.volume == tone.channel_volumes[e] && wave.volume == tone.channel_volumes[e]
            &&& fm.expression == tone.expressions[e] && wave.expression == tone.expressions[e]
            &&& fm.pan is Some <==> tone.pan_explicit[e]
            &&& fm.pan matches Some(pan) ==> pan == tone.pan[e]
            &&& wave.pan == fm.pan && wave.velocity == sounds
            &&& fm.pitch_bend == tone.pitch_bend[e]
        }),
{
}

/// A pitch bend sets the bend of its channel, to 16383 at most, and an expression its
/// expression, to 127 at most; neither changes anything else.
pub proof fn law_bends_and_expressions_are_kept(
    tone: ToneMapView,
    channel: u8,
    bend: u16,
    value: u8,
    other: int,
)
    requires
        tone.valid(),
        0 <= other < 64,
    ensures
        ({
            let e = tone.entry(channel);
            let bent = tone.set_pitch_bend(channel, bend);
            let pressed = tone.set_expression(channel, value);
            &&& bent.pitch_bend[other] == (if other != e {
                tone.pitch_bend[other]
            } else if bend < 16384 {
                bend
            } else {
                16383
            })
            &&& bent == (ToneMapView { pitch_bend: bent.pitch_bend, ..tone })
            &&& pressed.expressions[other] == (if other != e {
                tone.expressions[other]
            } else if value < 128 {
                value
            } else {
                127
            })
            &&& pressed == (ToneMapView { expressions: pressed.expressions, ..tone })
        }),
{
    lemma_entry(tone, channel);
}

/// Controls reach a port with the value that is written, but for the two bank selects of
/// a Mobile Standard track, which reach it as bank 0.
pub proof fn law_controls_keep_their_value(tone: ToneMapView, control: u8, value: u8)
    ensures
        value < 128 && control != 0 && control != 32 ==> tone.midi_control_value(control, value)
            == value,
        tone.handy() ==> tone.midi_control_value(control, value) == value % 128,
        !tone.handy() && (control == 0 || control == 32) ==> tone.midi_control_value(
            control,
            value,
        ) == 0,
        tone.midi_control_value(control, value) < 128,
{
    lemma_seven_bits(value);
}

/// A melody note keeps its number on a Mobile Standard track and sounds three octaves up
/// on a Handy Phone track, within 0 and 127.  Handy Phone percussion plays the drum of its
/// program whatever the note.  Of the percussion notes of a Mobile Standard track 18, 26,
/// 31, 77, 84 and 89 become 45, 41, 47, 50, 43 and 48, and all others keep their number.
pub proof fn law_notes_find_their_number(tone: ToneMapView, channel: u8, note: int)
    requires
        tone.valid(),
    ensures
        ({
            let sent = tone.map_note(channel, note);
            let rhythm = tone.rhythm(channel);
            &&& sent <= 127
            &&& !tone.handy() && !rhythm && 0 <= note <= 127 ==> sent == note
            &&& !tone.handy() && !rhythm && note < 0 ==> sent == 0
            &&& !tone.handy() && !rhythm && note > 127 ==> sent == 127
            &&& tone.handy() && !rhythm && -36 <= note <= 91 ==> sent == note + 36
            &&& tone.handy() && !rhythm && note < -36 ==> sent == 0
            &&& tone.handy() && !rhythm && note > 91 ==> sent == 127
            &&& tone.handy() && rhythm ==> sent == tone.programs[tone.entry(channel)]
            &&& !tone.handy() && rhythm && note == 18 ==> sent == 45
            &&& !tone.handy() && rhythm && note == 26 ==> sent == 41
            &&& !tone.handy() && rhythm && note == 31 ==> sent == 47
            &&& !tone.handy() && rhythm && note == 77 ==> sent == 50
            &&& !tone.handy() && rhythm && note == 84 ==> sent == 43
            &&& !tone.handy() && rhythm && note == 89 ==> sent == 48
            &&& !tone.handy() && rhythm && 0 <= note <= 127 && note != 18 && note != 26 && note
                != 31 && note != 77 && note != 84 && note != 89 ==> sent == note
        }),
{
    lemma_entry(tone, channel);
}

/// Volume and expression folded into one: a full expression leaves the volume, a full
/// volume the expression, and else it is their product over 127, rounded down.
pub proof fn law_folded_volumes(tone: ToneMapView, channel: u8)
    requires
        tone.valid(),
    ensures
        ({
            let e = tone.entry(channel);
            let (volume, expression) = (tone.channel_volumes[e], tone.expressions[e]);
            let folded = tone.effective_volume(channel);
            &&& folded * 127 <= volume * expression < (folded + 1) * 127
            &&& folded <= 127
            &&& expression == 127 ==> folded == volume
            &&& volume == 127 ==> folded == expression
        }),
{
    lemma_entry(tone, channel);
    let e = tone.entry(channel);
    let product = tone.channel_volumes[e] * tone.expressions[e];
    assert(0 <= product <= 127 * 127) by (nonlinear_arith)
        requires
            product == tone.channel_volumes[e] * tone.expressions[e],
            tone.channel_volumes[e] <= 127,
            tone.expressions[e] <= 127,
    ;
}

/// Percussion goes to MIDI channel 9 and takes no other; a melody channel goes to none
/// that another one has while one below 16 is left, and never to 9.
pub proof fn law_drums_have_channel_nine(tone: ToneMapView, channel: u8, other: int)
    requires
        tone.valid(),
        tone.distinct(),
        tone.assignable(),
        0 <= other < 64,
    ensures
        tone.rhythm(channel) ==> tone.real_channel(channel) == Some((tone, 9u8)),
        !tone.rhythm(channel) && tone.lowest_free(0) is Some ==> (tone.real_channel(
            channel,
        ) matches Some((_, midi)) && midi < 16 && midi != 9 && (other != tone.entry(channel)
            ==> tone.real_map[other] != Some(midi))),
{
    lemma_entry(tone, channel);
    if !tone.rhythm(channel) && tone.lowest_free(0) is Some {
        law_lowest_free_is_lowest(tone, 0, 0);
        let e = tone.entry(channel);
        if let Some(midi) = tone.real_map[e] {
            if other < e {
                assert(tone.real_map[other] is Some ==> tone.real_map[other] != tone.real_map[e]);
            } else if other > e {
                assert(tone.real_map[e] != tone.real_map[other]);
            }
        } else {
            let midi = tone.lowest_free(0).unwrap();
            assert(!tone.real_map.contains(Some(midi)));
            assert(tone.real_map[other] == Some(midi) ==> tone.real_map.contains(Some(midi)));
        }
    }
}

/// A melody channel that asks for the first time gets the lowest MIDI channel other than 9
/// that no channel has; where all fifteen are taken it gets the number of its entry.  It
/// gets none where some channel has a number past 15.  One that has a MIDI channel keeps it.
pub proof fn law_new_channels_take_the_lowest(tone: ToneMapView, channel: u8, lower: u8)
    requires
        tone.valid(),
        !tone.rhythm(channel),
        lower < 16,
        lower != 9,
    ensures
        ({
            let e = tone.entry(channel);
            &&& tone.real_map[e] matches Some(midi) ==> tone.real_channel(channel) == Some(
                (tone, midi),
            )
            &&& tone.real_map[e] is None ==> (tone.real_channel(channel) is None <==> exists|i: int|
                0 <= i < 64 && (#[trigger] tone.real_map[i] matches Some(midi) && midi > 15))
            &&& tone.real_map[e] is None && tone.real_channel(channel) is Some ==> {
                let (after, midi) = tone.real_channel(channel).unwrap();
                &&& after.real_map == tone.real_map.update(e, Some(midi))
                &&& after == (ToneMapView { real_map: after.real_map, ..tone })
                &&& !tone.real_map.contains(Some(midi)) && midi < 16 && midi != 9 && lower < midi
                    ==> tone.real_map.contains(Some(lower))
                &&& !tone.real_map.contains(Some(lower)) ==> midi <= lower && midi != 9
                    && !tone.real_map.contains(Some(midi))
                &&& (forall|m: u8| m < 16 && m != 9 ==> #[trigger] tone.real_map.contains(Some(m)))
                    ==> midi == e
            }
        }),
{
    lemma_entry(tone, channel);
    law_lowest_free_is_lowest(tone, 0, lower);
    law_lowest_free_is_lowest(tone, 0, 9);
    if tone.lowest_free(0) is Some {
        let free = tone.lowest_free(0).unwrap();
        assert(!tone.real_map.contains(Some(free)));
    }
}

/// The last Handy Phone track that has channels of its own starts at channel 60; one behind
/// it shares them.
pub proof fn law_late_handy_tracks_share_the_last_channels(
    tone: ToneMapView,
    statuses: Seq<ChannelStatus>,
    channel_offset: u8,
)
    requires
        channel_offset > 60,
    ensures
        tone.init_track(FormatType::HandyPhoneStandard, statuses, channel_offset)
            == tone.init_track(FormatType::HandyPhoneStandard, statuses, 60),
{
}

} // verus!
