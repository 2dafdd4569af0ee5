//! The Luma smart-glasses wire protocol, without input or output.
//!
//! This crate owns the byte layer and the decisions over it: the opcode vocabulary, the frame
//! envelope and its checksum, the streaming demuxers, the Wi-Fi file API's URLs and reply parsers,
//! and the RTP, H.264 and AAC depacketisers. It opens no socket, holds no radio and reads no clock.
//! Every function states in its contract what it returns, over the specification functions beside
//! it, and the laws that relate several functions stand at the end of each module as public proof
//! functions.
//!
//! | module | what it holds |
//! |---|---|
//! | [`gatt`] | the service and characteristic UUIDs, and the write mode, as data |
//! | [`frame`] | the `AB 55` / `AC 55` envelope, the checksum, the streaming deframer |
//! | [`opcodes`] | every opcode with its [`Evidence`] level |
//! | [`commands`] | one builder per command |
//! | [`parser`] | control bytes to [`parser::DeviceEvent`], and the settings accumulator |
//! | [`voice`] | the wake-word stream state machine and the Opus packet header |
//! | [`fileapi`] | the URLs, the JSON replies, the KiB completeness rule, the sync order |
//! | [`sdp`], [`rtp`], [`h264`], [`aac`] | the format parameters, RTP, and the two depacketisers |
//! | [`reassembly`] | the `52 58` framing of the file stream |
//! | [`timing`] | the recommended durations, named |
//! | [`client`] | what a client decides, apart from its sockets, its radio and its codec |
//! | [`ffi`] | the boundary to other languages |
//! | [`ranges`], [`text`], [`wire`] | byte ranges, text and big-endian integers |
//!
//! Every multi-byte field on this wire is big-endian. Numbers are not consistently encoded, and the
//! inconsistency is the wire's: the decoders follow the field, never a family rule. The `0x48`
//! switch-state read has no `0x48` reply: the firmware answers with a burst of ten frames, each
//! keyed by that setting's own setter opcode.
pub mod aac;
pub mod client;
pub mod commands;
pub mod ffi;
pub mod fileapi;
pub mod frame;
pub mod gatt;
pub mod h264;
pub mod opcodes;
pub mod parser;
pub mod ranges;
pub mod reassembly;
pub mod rtp;
pub mod sdp;
pub mod text;
pub mod timing;
pub mod voice;
pub mod wire;

pub use crate::aac::AacError;
pub use crate::aac::AuHeader;
pub use crate::aac::AuHeaderConfig;
pub use crate::aac::AudioSpecificConfig;
pub use crate::commands::LedLevel;
pub use crate::fileapi::download_is_complete;
pub use crate::fileapi::expected_byte_range;
pub use crate::fileapi::DeleteReply;
pub use crate::fileapi::FileEntry;
pub use crate::fileapi::FileList;
pub use crate::fileapi::Folder;
pub use crate::fileapi::FolderListing;
pub use crate::fileapi::MediaKind;
pub use crate::fileapi::SyncPlan;
pub use crate::fileapi::SyncStep;
pub use crate::fileapi::Timestamp;
pub use crate::fileapi::HOST as WIFI_HOST;
pub use crate::fileapi::PASSPHRASE as WIFI_PASSPHRASE;
pub use crate::fileapi::PHONE_ADDRESS as WIFI_PHONE_ADDRESS;
pub use crate::frame::checksum;
pub use crate::frame::decode_app;
pub use crate::frame::decode_device;
pub use crate::frame::drain;
pub use crate::frame::encode;
pub use crate::frame::encode_command;
pub use crate::frame::encode_device;
pub use crate::frame::is_partial_frame_prefix;
pub use crate::frame::DecodeError;
pub use crate::frame::Deframer;
pub use crate::frame::Frame;
pub use crate::frame::Residual;
pub use crate::frame::APP_HEADER;
pub use crate::frame::DEVICE_HEADER;
pub use crate::frame::FRAME_OVERHEAD;
pub use crate::frame::MAX_LENGTH_FIELD;
pub use crate::frame::MIN_LENGTH_FIELD;
pub use crate::h264::AccessUnit;
pub use crate::h264::DepacketizerStats;
pub use crate::h264::NAL_IDR;
pub use crate::h264::NAL_PPS;
pub use crate::h264::NAL_SPS;
pub use crate::h264::START_CODE;
pub use crate::opcodes::AppCommand;
pub use crate::opcodes::DeviceUpload;
pub use crate::opcodes::Evidence;
pub use crate::opcodes::GestureAction;
pub use crate::opcodes::GestureSlot;
pub use crate::opcodes::VolumeChannel;
pub use crate::opcodes::SWITCH_STATE_BURST_ORDER;
pub use crate::opcodes::VENDOR_NAMED_UNIMPLEMENTED;
pub use crate::reassembly::decode_file_frame;
pub use crate::reassembly::drain_file_frames;
pub use crate::reassembly::encode_file_frame;
pub use crate::reassembly::FileAbort;
pub use crate::reassembly::FileEvent;
pub use crate::reassembly::FileFrameError;
pub use crate::reassembly::FileKind;
pub use crate::reassembly::FileOpcode;
pub use crate::reassembly::FileReassembler;
pub use crate::reassembly::ReassembledFile;
pub use crate::reassembly::TransferProgress;
pub use crate::reassembly::CAPTURED_CHUNK_BYTES;
pub use crate::reassembly::FILE_FRAME_OVERHEAD;
pub use crate::reassembly::FILE_HEADER;
pub use crate::reassembly::FILE_TRAILER;
pub use crate::reassembly::MAX_FILE_BYTES;
pub use crate::rtp::RtpError;
pub use crate::rtp::RtpHeader;
pub use crate::rtp::RtpPacket;
pub use crate::rtp::SequenceReport;
pub use crate::rtp::SequenceTracker;
pub use crate::sdp::Fmtp;
pub use crate::timing::CAPABILITIES_PUSH_DELAY;
pub use crate::timing::PHOTO_CAPTURE_TYPICAL;
pub use crate::timing::SSID_ARRIVAL_TYPICAL;
pub use crate::timing::SSID_SETTLE;
pub use crate::timing::VOICE_HARD_CAP;
pub use crate::timing::VOICE_IDLE_GAP;
pub use crate::timing::VOICE_INTERRUPT_REPEAT_GAP;
pub use crate::voice::EndCause;
pub use crate::voice::OpusBandwidth;
pub use crate::voice::OpusMode;
pub use crate::voice::OpusToc;
pub use crate::voice::VoiceEvent;
pub use crate::voice::VoicePacket;
pub use crate::voice::VoiceStream;
pub use crate::voice::BITS_PER_SAMPLE;
pub use crate::voice::CAPTURED_PACKET_BYTES;
pub use crate::voice::CHANNELS;
pub use crate::voice::REQUESTED_SAMPLE_RATE_HZ;
