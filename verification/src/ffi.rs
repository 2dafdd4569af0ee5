//! The boundary to other languages: the protocol in values that cross.
//!
//! A thin layer over [`frame`](crate::frame), [`opcodes`](crate::opcodes),
//! [`parser`](crate::parser), [`reassembly`](crate::reassembly), [`voice`](crate::voice),
//! [`commands`](crate::commands) and [`gatt`](crate::gatt). Every free function is prefixed
//! `glasses_`. Nothing crosses as a future, no string that crosses is a word for a screen, and
//! nothing here measures a duration.
pub mod codec;
pub mod events;
pub mod objects;
pub mod vocabulary;

pub use self::codec::FfiGlassesDecoded;
pub use self::codec::FfiGlassesFrame;
pub use self::codec::glasses_answer_hangup;
pub use self::codec::glasses_checksum;
pub use self::codec::glasses_decode_app;
pub use self::codec::glasses_decode_device;
pub use self::codec::glasses_encode;
pub use self::codec::glasses_encode_command;
pub use self::codec::glasses_encode_device;
pub use self::codec::glasses_enter_upgrade;
pub use self::codec::glasses_factory_reset;
pub use self::codec::glasses_file_download_complete;
pub use self::codec::glasses_file_download_partial;
pub use self::codec::glasses_frame_overhead;
pub use self::codec::glasses_get_battery;
pub use self::codec::glasses_get_capabilities;
pub use self::codec::glasses_get_device_status;
pub use self::codec::glasses_get_file_count;
pub use self::codec::glasses_get_project_name;
pub use self::codec::glasses_get_switch_states;
pub use self::codec::glasses_get_versions;
pub use self::codec::glasses_get_voice_disable_state;
pub use self::codec::glasses_get_volumes;
pub use self::codec::glasses_interrupt_voice;
pub use self::codec::glasses_max_length_field;
pub use self::codec::glasses_open_wifi;
pub use self::codec::glasses_play_pause;
pub use self::codec::glasses_power_off_isp;
pub use self::codec::glasses_reboot;
pub use self::codec::glasses_retransmit_voice;
pub use self::codec::glasses_send_isp_version;
pub use self::codec::glasses_send_phone_time;
pub use self::codec::glasses_set_gesture;
pub use self::codec::glasses_set_led;
pub use self::codec::glasses_set_offline_voice_language;
pub use self::codec::glasses_set_orientation;
pub use self::codec::glasses_set_record_duration;
pub use self::codec::glasses_set_voice_command;
pub use self::codec::glasses_set_volume;
pub use self::codec::glasses_set_wear_detection;
pub use self::codec::glasses_start_video;
pub use self::codec::glasses_stop_video;
pub use self::codec::glasses_switch_music;
pub use self::codec::glasses_take_photo;
pub use self::codec::glasses_voice_recording;
pub use self::codec::glasses_volume_step;
pub use self::codec::glasses_wifi_passphrase;
pub use self::events::FfiGlassesBatterySource;
pub use self::events::FfiGlassesCountSource;
pub use self::events::FfiGlassesEndCause;
pub use self::events::FfiGlassesEvent;
pub use self::events::FfiGlassesFileAbort;
pub use self::events::FfiGlassesFileEvent;
pub use self::events::FfiGlassesFileKind;
pub use self::events::FfiGlassesMalformedReason;
pub use self::events::FfiGlassesOpusBandwidth;
pub use self::events::FfiGlassesOpusMode;
pub use self::events::FfiGlassesOpusToc;
pub use self::events::FfiGlassesResidual;
pub use self::events::FfiGlassesSwitchReport;
pub use self::events::FfiGlassesSwitchStates;
pub use self::events::FfiGlassesTransferProgress;
pub use self::events::FfiGlassesVersions;
pub use self::events::FfiGlassesVoiceEvent;
pub use self::events::FfiGlassesVoicePacket;
pub use self::events::glasses_parse_frame;
pub use self::events::glasses_parse_opus_toc;
pub use self::events::glasses_voice_bits_per_sample;
pub use self::events::glasses_voice_channels;
pub use self::events::glasses_voice_sample_rate_hz;
pub use self::objects::FfiGlassesDeframed;
pub use self::objects::FfiGlassesParsed;
pub use self::objects::GlassesDeframer;
pub use self::objects::GlassesFileReassembler;
pub use self::objects::GlassesParser;
pub use self::objects::GlassesSwitchStates;
pub use self::objects::GlassesVoiceStream;
pub use self::objects::glasses_encode_file_frame;
pub use self::objects::glasses_max_file_bytes;
pub use self::vocabulary::FfiGlassesCommand;
pub use self::vocabulary::FfiGlassesDecodeError;
pub use self::vocabulary::FfiGlassesDeviceAction;
pub use self::vocabulary::FfiGlassesEvidence;
pub use self::vocabulary::FfiGlassesGatt;
pub use self::vocabulary::FfiGlassesGestureAction;
pub use self::vocabulary::FfiGlassesGestureSlot;
pub use self::vocabulary::FfiGlassesLedLevel;
pub use self::vocabulary::FfiGlassesOrientation;
pub use self::vocabulary::FfiGlassesUnimplementedOpcode;
pub use self::vocabulary::FfiGlassesVolumeChannel;
pub use self::vocabulary::FfiGlassesWifiService;
pub use self::vocabulary::glasses_all_commands;
pub use self::vocabulary::glasses_command_code;
pub use self::vocabulary::glasses_command_evidence;
pub use self::vocabulary::glasses_command_from_code;
pub use self::vocabulary::glasses_device_action_evidence;
pub use self::vocabulary::glasses_device_actions;
pub use self::vocabulary::glasses_gatt;
pub use self::vocabulary::glasses_gesture_action_from_value;
pub use self::vocabulary::glasses_gesture_action_value;
pub use self::vocabulary::glasses_gesture_actions;
pub use self::vocabulary::glasses_gesture_slot_command;
pub use self::vocabulary::glasses_gesture_slots;
pub use self::vocabulary::glasses_is_drivable;
pub use self::vocabulary::glasses_led_level_from_value;
pub use self::vocabulary::glasses_led_level_value;
pub use self::vocabulary::glasses_led_levels;
pub use self::vocabulary::glasses_switch_state_burst_order;
pub use self::vocabulary::glasses_vendor_named_unimplemented;
pub use self::vocabulary::glasses_volume_channel_code;
pub use self::vocabulary::glasses_volume_channels;
