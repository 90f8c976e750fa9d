//! Kestrel: the verified core of a SoundFont/SFZ synthesizer for black MIDI.

pub mod admission;
pub mod bank;
pub mod bank_laws;
pub mod brickwall;
pub mod bytes;
pub mod call_laws;
pub mod chan_laws;
pub mod channels;
pub mod config;
pub mod config_laws;
pub mod control_laws;
pub mod controls;
pub mod count_laws;
pub mod cursor;
pub mod cursor_laws;
pub mod device_laws;
pub mod driver;
pub mod driver_laws;
pub mod fbits;
pub mod fixed;
pub mod gate_laws;
pub mod gates;
pub mod gpu;
pub mod limiter;
pub mod lookup_laws;
pub mod midi;
pub mod midi_laws;
pub mod note_laws;
pub mod opcodes;
pub mod operation_laws;
pub mod passes;
pub mod pool;
pub mod pool_laws;
pub mod region_laws;
pub mod render_laws;
pub mod report;
pub mod roles;
pub mod select;
pub mod setup_laws;
pub mod sfz;
pub mod sfz_laws;
pub mod sfz_text;
pub mod shaders;
pub mod sound_file_laws;
pub mod table_laws;
pub mod text;
pub mod text_laws;
pub mod upload;
pub mod variants;
pub mod voice;
pub mod wav;
pub mod wav_laws;
