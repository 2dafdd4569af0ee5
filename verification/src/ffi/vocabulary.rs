//! The vocabulary of the boundary: its own copies of the protocol's enumerations, and the tables
//! over them.
use crate::commands::LedLevel;
use crate::frame::DecodeError;
use crate::gatt;
use crate::opcodes;
use crate::opcodes::AppCommand;
use crate::opcodes::Evidence;
use crate::opcodes::GestureAction;
use crate::opcodes::GestureSlot;
use crate::opcodes::VolumeChannel;
use crate::parser::DeviceAction;
use crate::parser::Orientation;
use crate::parser::WifiService;
use vstd::prelude::*;

verus! {

/// How strongly an opcode or a flag is evidenced. Crosses the boundary because a UI binding built
/// on a [`Self::ClientOnly`] value renders a state no device has ever reported.
#[derive(Debug, Clone, Copy, PartialEq, Eq, Structural)]
pub enum FfiGlassesEvidence {
    Capture,
    DeviceProbe,
    ClientOnly,
}

/// What crosses the boundary for a [`Evidence`].
pub open spec fn evidence_out(evidence: Evidence) -> FfiGlassesEvidence {
    match evidence {
        Evidence::Capture => FfiGlassesEvidence::Capture,
        Evidence::DeviceProbe => FfiGlassesEvidence::DeviceProbe,
        Evidence::ClientOnly => FfiGlassesEvidence::ClientOnly,
    }
}

impl From<Evidence> for FfiGlassesEvidence {
    fn from(evidence: Evidence) -> (r: Self)
        ensures
            r == evidence_out(evidence),
    {
        match evidence {
            Evidence::Capture => FfiGlassesEvidence::Capture,
            Evidence::DeviceProbe => FfiGlassesEvidence::DeviceProbe,
            Evidence::ClientOnly => FfiGlassesEvidence::ClientOnly,
        }
    }
}

impl vstd::std_specs::convert::FromSpecImpl<Evidence> for FfiGlassesEvidence {
    open spec fn obeys_from_spec() -> bool {
        true
    }

    open spec fn from_spec(evidence: Evidence) -> Self {
        evidence_out(evidence)
    }
}

/// App to device opcode. The wire byte is [`glasses_command_code`].
#[derive(Debug, Clone, Copy, PartialEq, Eq, Structural)]
pub enum FfiGlassesCommand {
    SetLed,
    SetRecordDuration,
    WearDetection,
    VoiceCommand,
    SetGestureSwipeForward,
    SetGestureSwipeBack,
    SetGestureSingleTap,
    SetGestureDoubleTap,
    SetGestureTripleTap,
    FactoryReset,
    GetBattery,
    TakePhoto,
    StartVideo,
    StopVideo,
    SwitchMusic,
    PlayPause,
    Volume,
    AnswerHangup,
    VoiceRecording,
    PullImage,
    PullThumbnailStatus,
    OpenWifiFiles,
    GetFileCount,
    FileDownloadComplete,
    GetDeviceStatus,
    GetSwitchStates,
    GetVersions,
    InterruptVoice,
    RetransmitVoice,
    SendPhoneTime,
    Reboot,
    Orientation,
    OfflineVoiceLang,
    EnterUpgrade,
    GetProjectName,
    SendIspVersion,
    OpenWifiLive,
    GetVolumes,
    SetVolume,
    GetVoiceDisableState,
    GetCapabilities,
}

/// What crosses the boundary for a [`AppCommand`].
pub open spec fn command_out(command: AppCommand) -> FfiGlassesCommand {
    match command {
        AppCommand::SetLed => FfiGlassesCommand::SetLed,
        AppCommand::SetRecordDuration => FfiGlassesCommand::SetRecordDuration,
        AppCommand::WearDetection => FfiGlassesCommand::WearDetection,
        AppCommand::VoiceCommand => FfiGlassesCommand::VoiceCommand,
        AppCommand::SetGestureSwipeForward => FfiGlassesCommand::SetGestureSwipeForward,
        AppCommand::SetGestureSwipeBack => FfiGlassesCommand::SetGestureSwipeBack,
        AppCommand::SetGestureSingleTap => FfiGlassesCommand::SetGestureSingleTap,
        AppCommand::SetGestureDoubleTap => FfiGlassesCommand::SetGestureDoubleTap,
        AppCommand::SetGestureTripleTap => FfiGlassesCommand::SetGestureTripleTap,
        AppCommand::FactoryReset => FfiGlassesCommand::FactoryReset,
        AppCommand::GetBattery => FfiGlassesCommand::GetBattery,
        AppCommand::TakePhoto => FfiGlassesCommand::TakePhoto,
        AppCommand::StartVideo => FfiGlassesCommand::StartVideo,
        AppCommand::StopVideo => FfiGlassesCommand::StopVideo,
        AppCommand::SwitchMusic => FfiGlassesCommand::SwitchMusic,
        AppCommand::PlayPause => FfiGlassesCommand::PlayPause,
        AppCommand::Volume => FfiGlassesCommand::Volume,
        AppCommand::AnswerHangup => FfiGlassesCommand::AnswerHangup,
        AppCommand::VoiceRecording => FfiGlassesCommand::VoiceRecording,
        AppCommand::PullImage => FfiGlassesCommand::PullImage,
        AppCommand::PullThumbnailStatus => FfiGlassesCommand::PullThumbnailStatus,
        AppCommand::OpenWifiFiles => FfiGlassesCommand::OpenWifiFiles,
        AppCommand::GetFileCount => FfiGlassesCommand::GetFileCount,
        AppCommand::FileDownloadComplete => FfiGlassesCommand::FileDownloadComplete,
        AppCommand::GetDeviceStatus => FfiGlassesCommand::GetDeviceStatus,
        AppCommand::GetSwitchStates => FfiGlassesCommand::GetSwitchStates,
        AppCommand::GetVersions => FfiGlassesCommand::GetVersions,
        AppCommand::InterruptVoice => FfiGlassesCommand::InterruptVoice,
        AppCommand::RetransmitVoice => FfiGlassesCommand::RetransmitVoice,
        AppCommand::SendPhoneTime => FfiGlassesCommand::SendPhoneTime,
        AppCommand::Reboot => FfiGlassesCommand::Reboot,
        AppCommand::Orientation => FfiGlassesCommand::Orientation,
        AppCommand::OfflineVoiceLang => FfiGlassesCommand::OfflineVoiceLang,
        AppCommand::EnterUpgrade => FfiGlassesCommand::EnterUpgrade,
        AppCommand::GetProjectName => FfiGlassesCommand::GetProjectName,
        AppCommand::SendIspVersion => FfiGlassesCommand::SendIspVersion,
        AppCommand::OpenWifiLive => FfiGlassesCommand::OpenWifiLive,
        AppCommand::GetVolumes => FfiGlassesCommand::GetVolumes,
        AppCommand::SetVolume => FfiGlassesCommand::SetVolume,
        AppCommand::GetVoiceDisableState => FfiGlassesCommand::GetVoiceDisableState,
        AppCommand::GetCapabilities => FfiGlassesCommand::GetCapabilities,
    }
}

impl From<AppCommand> for FfiGlassesCommand {
    fn from(command: AppCommand) -> (r: Self)
        ensures
            r == command_out(command),
    {
        match command {
            AppCommand::SetLed => FfiGlassesCommand::SetLed,
            AppCommand::SetRecordDuration => FfiGlassesCommand::SetRecordDuration,
            AppCommand::WearDetection => FfiGlassesCommand::WearDetection,
            AppCommand::VoiceCommand => FfiGlassesCommand::VoiceCommand,
            AppCommand::SetGestureSwipeForward => FfiGlassesCommand::SetGestureSwipeForward,
            AppCommand::SetGestureSwipeBack => FfiGlassesCommand::SetGestureSwipeBack,
            AppCommand::SetGestureSingleTap => FfiGlassesCommand::SetGestureSingleTap,
            AppCommand::SetGestureDoubleTap => FfiGlassesCommand::SetGestureDoubleTap,
            AppCommand::SetGestureTripleTap => FfiGlassesCommand::SetGestureTripleTap,
            AppCommand::FactoryReset => FfiGlassesCommand::FactoryReset,
            AppCommand::GetBattery => FfiGlassesCommand::GetBattery,
            AppCommand::TakePhoto => FfiGlassesCommand::TakePhoto,
            AppCommand::StartVideo => FfiGlassesCommand::StartVideo,
            AppCommand::StopVideo => FfiGlassesCommand::StopVideo,
            AppCommand::SwitchMusic => FfiGlassesCommand::SwitchMusic,
            AppCommand::PlayPause => FfiGlassesCommand::PlayPause,
            AppCommand::Volume => FfiGlassesCommand::Volume,
            AppCommand::AnswerHangup => FfiGlassesCommand::AnswerHangup,
            AppCommand::VoiceRecording => FfiGlassesCommand::VoiceRecording,
            AppCommand::PullImage => FfiGlassesCommand::PullImage,
            AppCommand::PullThumbnailStatus => FfiGlassesCommand::PullThumbnailStatus,
            AppCommand::OpenWifiFiles => FfiGlassesCommand::OpenWifiFiles,
            AppCommand::GetFileCount => FfiGlassesCommand::GetFileCount,
            AppCommand::FileDownloadComplete => FfiGlassesCommand::FileDownloadComplete,
            AppCommand::GetDeviceStatus => FfiGlassesCommand::GetDeviceStatus,
            AppCommand::GetSwitchStates => FfiGlassesCommand::GetSwitchStates,
            AppCommand::GetVersions => FfiGlassesCommand::GetVersions,
            AppCommand::InterruptVoice => FfiGlassesCommand::InterruptVoice,
            AppCommand::RetransmitVoice => FfiGlassesCommand::RetransmitVoice,
            AppCommand::SendPhoneTime => FfiGlassesCommand::SendPhoneTime,
            AppCommand::Reboot => FfiGlassesCommand::Reboot,
            AppCommand::Orientation => FfiGlassesCommand::Orientation,
            AppCommand::OfflineVoiceLang => FfiGlassesCommand::OfflineVoiceLang,
            AppCommand::EnterUpgrade => FfiGlassesCommand::EnterUpgrade,
            AppCommand::GetProjectName => FfiGlassesCommand::GetProjectName,
            AppCommand::SendIspVersion => FfiGlassesCommand::SendIspVersion,
            AppCommand::OpenWifiLive => FfiGlassesCommand::OpenWifiLive,
            AppCommand::GetVolumes => FfiGlassesCommand::GetVolumes,
            AppCommand::SetVolume => FfiGlassesCommand::SetVolume,
            AppCommand::GetVoiceDisableState => FfiGlassesCommand::GetVoiceDisableState,
            AppCommand::GetCapabilities => FfiGlassesCommand::GetCapabilities,
        }
    }
}

impl vstd::std_specs::convert::FromSpecImpl<AppCommand> for FfiGlassesCommand {
    open spec fn obeys_from_spec() -> bool {
        true
    }

    open spec fn from_spec(command: AppCommand) -> Self {
        command_out(command)
    }
}

/// The [`AppCommand`] that came across the boundary.
pub open spec fn command_in(command: FfiGlassesCommand) -> AppCommand {
    match command {
        FfiGlassesCommand::SetLed => AppCommand::SetLed,
        FfiGlassesCommand::SetRecordDuration => AppCommand::SetRecordDuration,
        FfiGlassesCommand::WearDetection => AppCommand::WearDetection,
        FfiGlassesCommand::VoiceCommand => AppCommand::VoiceCommand,
        FfiGlassesCommand::SetGestureSwipeForward => AppCommand::SetGestureSwipeForward,
        FfiGlassesCommand::SetGestureSwipeBack => AppCommand::SetGestureSwipeBack,
        FfiGlassesCommand::SetGestureSingleTap => AppCommand::SetGestureSingleTap,
        FfiGlassesCommand::SetGestureDoubleTap => AppCommand::SetGestureDoubleTap,
        FfiGlassesCommand::SetGestureTripleTap => AppCommand::SetGestureTripleTap,
        FfiGlassesCommand::FactoryReset => AppCommand::FactoryReset,
        FfiGlassesCommand::GetBattery => AppCommand::GetBattery,
        FfiGlassesCommand::TakePhoto => AppCommand::TakePhoto,
        FfiGlassesCommand::StartVideo => AppCommand::StartVideo,
        FfiGlassesCommand::StopVideo => AppCommand::StopVideo,
        FfiGlassesCommand::SwitchMusic => AppCommand::SwitchMusic,
        FfiGlassesCommand::PlayPause => AppCommand::PlayPause,
        FfiGlassesCommand::Volume => AppCommand::Volume,
        FfiGlassesCommand::AnswerHangup => AppCommand::AnswerHangup,
        FfiGlassesCommand::VoiceRecording => AppCommand::VoiceRecording,
        FfiGlassesCommand::PullImage => AppCommand::PullImage,
        FfiGlassesCommand::PullThumbnailStatus => AppCommand::PullThumbnailStatus,
        FfiGlassesCommand::OpenWifiFiles => AppCommand::OpenWifiFiles,
        FfiGlassesCommand::GetFileCount => AppCommand::GetFileCount,
        FfiGlassesCommand::FileDownloadComplete => AppCommand::FileDownloadComplete,
        FfiGlassesCommand::GetDeviceStatus => AppCommand::GetDeviceStatus,
        FfiGlassesCommand::GetSwitchStates => AppCommand::GetSwitchStates,
        FfiGlassesCommand::GetVersions => AppCommand::GetVersions,
        FfiGlassesCommand::InterruptVoice => AppCommand::InterruptVoice,
        FfiGlassesCommand::RetransmitVoice => AppCommand::RetransmitVoice,
        FfiGlassesCommand::SendPhoneTime => AppCommand::SendPhoneTime,
        FfiGlassesCommand::Reboot => AppCommand::Reboot,
        FfiGlassesCommand::Orientation => AppCommand::Orientation,
        FfiGlassesCommand::OfflineVoiceLang => AppCommand::OfflineVoiceLang,
        FfiGlassesCommand::EnterUpgrade => AppCommand::EnterUpgrade,
        FfiGlassesCommand::GetProjectName => AppCommand::GetProjectName,
        FfiGlassesCommand::SendIspVersion => AppCommand::SendIspVersion,
        FfiGlassesCommand::OpenWifiLive => AppCommand::OpenWifiLive,
        FfiGlassesCommand::GetVolumes => AppCommand::GetVolumes,
        FfiGlassesCommand::SetVolume => AppCommand::SetVolume,
        FfiGlassesCommand::GetVoiceDisableState => AppCommand::GetVoiceDisableState,
        FfiGlassesCommand::GetCapabilities => AppCommand::GetCapabilities,
    }
}

impl From<FfiGlassesCommand> for AppCommand {
    fn from(command: FfiGlassesCommand) -> (r: Self)
        ensures
            r == command_in(command),
    {
        match command {
            FfiGlassesCommand::SetLed => AppCommand::SetLed,
            FfiGlassesCommand::SetRecordDuration => AppCommand::SetRecordDuration,
            FfiGlassesCommand::WearDetection => AppCommand::WearDetection,
            FfiGlassesCommand::VoiceCommand => AppCommand::VoiceCommand,
            FfiGlassesCommand::SetGestureSwipeForward => AppCommand::SetGestureSwipeForward,
            FfiGlassesCommand::SetGestureSwipeBack => AppCommand::SetGestureSwipeBack,
            FfiGlassesCommand::SetGestureSingleTap => AppCommand::SetGestureSingleTap,
            FfiGlassesCommand::SetGestureDoubleTap => AppCommand::SetGestureDoubleTap,
            FfiGlassesCommand::SetGestureTripleTap => AppCommand::SetGestureTripleTap,
            FfiGlassesCommand::FactoryReset => AppCommand::FactoryReset,
            FfiGlassesCommand::GetBattery => AppCommand::GetBattery,
            FfiGlassesCommand::TakePhoto => AppCommand::TakePhoto,
            FfiGlassesCommand::StartVideo => AppCommand::StartVideo,
            FfiGlassesCommand::StopVideo => AppCommand::StopVideo,
            FfiGlassesCommand::SwitchMusic => AppCommand::SwitchMusic,
            FfiGlassesCommand::PlayPause => AppCommand::PlayPause,
            FfiGlassesCommand::Volume => AppCommand::Volume,
            FfiGlassesCommand::AnswerHangup => AppCommand::AnswerHangup,
            FfiGlassesCommand::VoiceRecording => AppCommand::VoiceRecording,
            FfiGlassesCommand::PullImage => AppCommand::PullImage,
            FfiGlassesCommand::PullThumbnailStatus => AppCommand::PullThumbnailStatus,
            FfiGlassesCommand::OpenWifiFiles => AppCommand::OpenWifiFiles,
            FfiGlassesCommand::GetFileCount => AppCommand::GetFileCount,
            FfiGlassesCommand::FileDownloadComplete => AppCommand::FileDownloadComplete,
            FfiGlassesCommand::GetDeviceStatus => AppCommand::GetDeviceStatus,
            FfiGlassesCommand::GetSwitchStates => AppCommand::GetSwitchStates,
            FfiGlassesCommand::GetVersions => AppCommand::GetVersions,
            FfiGlassesCommand::InterruptVoice => AppCommand::InterruptVoice,
            FfiGlassesCommand::RetransmitVoice => AppCommand::RetransmitVoice,
            FfiGlassesCommand::SendPhoneTime => AppCommand::SendPhoneTime,
            FfiGlassesCommand::Reboot => AppCommand::Reboot,
            FfiGlassesCommand::Orientation => AppCommand::Orientation,
            FfiGlassesCommand::OfflineVoiceLang => AppCommand::OfflineVoiceLang,
            FfiGlassesCommand::EnterUpgrade => AppCommand::EnterUpgrade,
            FfiGlassesCommand::GetProjectName => AppCommand::GetProjectName,
            FfiGlassesCommand::SendIspVersion => AppCommand::SendIspVersion,
            FfiGlassesCommand::OpenWifiLive => AppCommand::OpenWifiLive,
            FfiGlassesCommand::GetVolumes => AppCommand::GetVolumes,
            FfiGlassesCommand::SetVolume => AppCommand::SetVolume,
            FfiGlassesCommand::GetVoiceDisableState => AppCommand::GetVoiceDisableState,
            FfiGlassesCommand::GetCapabilities => AppCommand::GetCapabilities,
        }
    }
}

impl vstd::std_specs::convert::FromSpecImpl<FfiGlassesCommand> for AppCommand {
    open spec fn obeys_from_spec() -> bool {
        true
    }

    open spec fn from_spec(command: FfiGlassesCommand) -> Self {
        command_in(command)
    }
}

/// One touchpad gesture slot.
#[derive(Debug, Clone, Copy, PartialEq, Eq, Structural)]
pub enum FfiGlassesGestureSlot {
    SwipeForward,
    SwipeBack,
    SingleTap,
    DoubleTap,
    TripleTap,
}

/// What crosses the boundary for a [`GestureSlot`].
pub open spec fn slot_out(slot: GestureSlot) -> FfiGlassesGestureSlot {
    match slot {
        GestureSlot::SwipeForward => FfiGlassesGestureSlot::SwipeForward,
        GestureSlot::SwipeBack => FfiGlassesGestureSlot::SwipeBack,
        GestureSlot::SingleTap => FfiGlassesGestureSlot::SingleTap,
        GestureSlot::DoubleTap => FfiGlassesGestureSlot::DoubleTap,
        GestureSlot::TripleTap => FfiGlassesGestureSlot::TripleTap,
    }
}

impl From<GestureSlot> for FfiGlassesGestureSlot {
    fn from(slot: GestureSlot) -> (r: Self)
        ensures
            r == slot_out(slot),
    {
        match slot {
            GestureSlot::SwipeForward => FfiGlassesGestureSlot::SwipeForward,
            GestureSlot::SwipeBack => FfiGlassesGestureSlot::SwipeBack,
            GestureSlot::SingleTap => FfiGlassesGestureSlot::SingleTap,
            GestureSlot::DoubleTap => FfiGlassesGestureSlot::DoubleTap,
            GestureSlot::TripleTap => FfiGlassesGestureSlot::TripleTap,
        }
    }
}

impl vstd::std_specs::convert::FromSpecImpl<GestureSlot> for FfiGlassesGestureSlot {
    open spec fn obeys_from_spec() -> bool {
        true
    }

    open spec fn from_spec(slot: GestureSlot) -> Self {
        slot_out(slot)
    }
}

/// The [`GestureSlot`] that came across the boundary.
pub open spec fn slot_in(slot: FfiGlassesGestureSlot) -> GestureSlot {
    match slot {
        FfiGlassesGestureSlot::SwipeForward => GestureSlot::SwipeForward,
        FfiGlassesGestureSlot::SwipeBack => GestureSlot::SwipeBack,
        FfiGlassesGestureSlot::SingleTap => GestureSlot::SingleTap,
        FfiGlassesGestureSlot::DoubleTap => GestureSlot::DoubleTap,
        FfiGlassesGestureSlot::TripleTap => GestureSlot::TripleTap,
    }
}

impl From<FfiGlassesGestureSlot> for GestureSlot {
    fn from(slot: FfiGlassesGestureSlot) -> (r: Self)
        ensures
            r == slot_in(slot),
    {
        match slot {
            FfiGlassesGestureSlot::SwipeForward => GestureSlot::SwipeForward,
            FfiGlassesGestureSlot::SwipeBack => GestureSlot::SwipeBack,
            FfiGlassesGestureSlot::SingleTap => GestureSlot::SingleTap,
            FfiGlassesGestureSlot::DoubleTap => GestureSlot::DoubleTap,
            FfiGlassesGestureSlot::TripleTap => GestureSlot::TripleTap,
        }
    }
}

impl vstd::std_specs::convert::FromSpecImpl<FfiGlassesGestureSlot> for GestureSlot {
    open spec fn obeys_from_spec() -> bool {
        true
    }

    open spec fn from_spec(slot: FfiGlassesGestureSlot) -> Self {
        slot_in(slot)
    }
}

/// What a gesture slot is bound to.
#[derive(Debug, Clone, Copy, PartialEq, Eq, Structural)]
pub enum FfiGlassesGestureAction {
    VolumeDown,
    VolumeUp,
    PlayPause,
    NextTrack,
    PreviousTrack,
}

/// What crosses the boundary for a [`GestureAction`].
pub open spec fn gesture_out(gesture: GestureAction) -> FfiGlassesGestureAction {
    match gesture {
        GestureAction::VolumeDown => FfiGlassesGestureAction::VolumeDown,
        GestureAction::VolumeUp => FfiGlassesGestureAction::VolumeUp,
        GestureAction::PlayPause => FfiGlassesGestureAction::PlayPause,
        GestureAction::NextTrack => FfiGlassesGestureAction::NextTrack,
        GestureAction::PreviousTrack => FfiGlassesGestureAction::PreviousTrack,
    }
}

impl From<GestureAction> for FfiGlassesGestureAction {
    fn from(gesture: GestureAction) -> (r: Self)
        ensures
            r == gesture_out(gesture),
    {
        match gesture {
            GestureAction::VolumeDown => FfiGlassesGestureAction::VolumeDown,
            GestureAction::VolumeUp => FfiGlassesGestureAction::VolumeUp,
            GestureAction::PlayPause => FfiGlassesGestureAction::PlayPause,
            GestureAction::NextTrack => FfiGlassesGestureAction::NextTrack,
            GestureAction::PreviousTrack => FfiGlassesGestureAction::PreviousTrack,
        }
    }
}

impl vstd::std_specs::convert::FromSpecImpl<GestureAction> for FfiGlassesGestureAction {
    open spec fn obeys_from_spec() -> bool {
        true
    }

    open spec fn from_spec(gesture: GestureAction) -> Self {
        gesture_out(gesture)
    }
}

/// The [`GestureAction`] that came across the boundary.
pub open spec fn gesture_in(gesture: FfiGlassesGestureAction) -> GestureAction {
    match gesture {
        FfiGlassesGestureAction::VolumeDown => GestureAction::VolumeDown,
        FfiGlassesGestureAction::VolumeUp => GestureAction::VolumeUp,
        FfiGlassesGestureAction::PlayPause => GestureAction::PlayPause,
        FfiGlassesGestureAction::NextTrack => GestureAction::NextTrack,
        FfiGlassesGestureAction::PreviousTrack => GestureAction::PreviousTrack,
    }
}

impl From<FfiGlassesGestureAction> for GestureAction {
    fn from(gesture: FfiGlassesGestureAction) -> (r: Self)
        ensures
            r == gesture_in(gesture),
    {
        match gesture {
            FfiGlassesGestureAction::VolumeDown => GestureAction::VolumeDown,
            FfiGlassesGestureAction::VolumeUp => GestureAction::VolumeUp,
            FfiGlassesGestureAction::PlayPause => GestureAction::PlayPause,
            FfiGlassesGestureAction::NextTrack => GestureAction::NextTrack,
            FfiGlassesGestureAction::PreviousTrack => GestureAction::PreviousTrack,
        }
    }
}

impl vstd::std_specs::convert::FromSpecImpl<FfiGlassesGestureAction> for GestureAction {
    open spec fn obeys_from_spec() -> bool {
        true
    }

    open spec fn from_spec(gesture: FfiGlassesGestureAction) -> Self {
        gesture_in(gesture)
    }
}

/// The three independently-addressable output levels.
#[derive(Debug, Clone, Copy, PartialEq, Eq, Structural)]
pub enum FfiGlassesVolumeChannel {
    System,
    Media,
    Call,
}

/// What crosses the boundary for a [`VolumeChannel`].
pub open spec fn channel_out(channel: VolumeChannel) -> FfiGlassesVolumeChannel {
    match channel {
        VolumeChannel::System => FfiGlassesVolumeChannel::System,
        VolumeChannel::Media => FfiGlassesVolumeChannel::Media,
        VolumeChannel::Call => FfiGlassesVolumeChannel::Call,
    }
}

impl From<VolumeChannel> for FfiGlassesVolumeChannel {
    fn from(channel: VolumeChannel) -> (r: Self)
        ensures
            r == channel_out(channel),
    {
        match channel {
            VolumeChannel::System => FfiGlassesVolumeChannel::System,
            VolumeChannel::Media => FfiGlassesVolumeChannel::Media,
            VolumeChannel::Call => FfiGlassesVolumeChannel::Call,
        }
    }
}

impl vstd::std_specs::convert::FromSpecImpl<VolumeChannel> for FfiGlassesVolumeChannel {
    open spec fn obeys_from_spec() -> bool {
        true
    }

    open spec fn from_spec(channel: VolumeChannel) -> Self {
        channel_out(channel)
    }
}

/// The [`VolumeChannel`] that came across the boundary.
pub open spec fn channel_in(channel: FfiGlassesVolumeChannel) -> VolumeChannel {
    match channel {
        FfiGlassesVolumeChannel::System => VolumeChannel::System,
        FfiGlassesVolumeChannel::Media => VolumeChannel::Media,
        FfiGlassesVolumeChannel::Call => VolumeChannel::Call,
    }
}

impl From<FfiGlassesVolumeChannel> for VolumeChannel {
    fn from(channel: FfiGlassesVolumeChannel) -> (r: Self)
        ensures
            r == channel_in(channel),
    {
        match channel {
            FfiGlassesVolumeChannel::System => VolumeChannel::System,
            FfiGlassesVolumeChannel::Media => VolumeChannel::Media,
            FfiGlassesVolumeChannel::Call => VolumeChannel::Call,
        }
    }
}

impl vstd::std_specs::convert::FromSpecImpl<FfiGlassesVolumeChannel> for VolumeChannel {
    open spec fn obeys_from_spec() -> bool {
        true
    }

    open spec fn from_spec(channel: FfiGlassesVolumeChannel) -> Self {
        channel_in(channel)
    }
}

/// Indicator-LED brightness. There is no "off".
#[derive(Debug, Clone, Copy, PartialEq, Eq, Structural)]
pub enum FfiGlassesLedLevel {
    Low,
    Mid,
    High,
}

/// What crosses the boundary for a [`LedLevel`].
pub open spec fn led_out(led: LedLevel) -> FfiGlassesLedLevel {
    match led {
        LedLevel::Low => FfiGlassesLedLevel::Low,
        LedLevel::Mid => FfiGlassesLedLevel::Mid,
        LedLevel::High => FfiGlassesLedLevel::High,
    }
}

impl From<LedLevel> for FfiGlassesLedLevel {
    fn from(led: LedLevel) -> (r: Self)
        ensures
            r == led_out(led),
    {
        match led {
            LedLevel::Low => FfiGlassesLedLevel::Low,
            LedLevel::Mid => FfiGlassesLedLevel::Mid,
            LedLevel::High => FfiGlassesLedLevel::High,
        }
    }
}

impl vstd::std_specs::convert::FromSpecImpl<LedLevel> for FfiGlassesLedLevel {
    open spec fn obeys_from_spec() -> bool {
        true
    }

    open spec fn from_spec(led: LedLevel) -> Self {
        led_out(led)
    }
}

/// The [`LedLevel`] that came across the boundary.
pub open spec fn led_in(led: FfiGlassesLedLevel) -> LedLevel {
    match led {
        FfiGlassesLedLevel::Low => LedLevel::Low,
        FfiGlassesLedLevel::Mid => LedLevel::Mid,
        FfiGlassesLedLevel::High => LedLevel::High,
    }
}

impl From<FfiGlassesLedLevel> for LedLevel {
    fn from(led: FfiGlassesLedLevel) -> (r: Self)
        ensures
            r == led_in(led),
    {
        match led {
            FfiGlassesLedLevel::Low => LedLevel::Low,
            FfiGlassesLedLevel::Mid => LedLevel::Mid,
            FfiGlassesLedLevel::High => LedLevel::High,
        }
    }
}

impl vstd::std_specs::convert::FromSpecImpl<FfiGlassesLedLevel> for LedLevel {
    open spec fn obeys_from_spec() -> bool {
        true
    }

    open spec fn from_spec(led: FfiGlassesLedLevel) -> Self {
        led_in(led)
    }
}

/// Capture orientation.
#[derive(Debug, Clone, Copy, PartialEq, Eq, Structural)]
pub enum FfiGlassesOrientation {
    Portrait,
    Landscape,
}

/// What crosses the boundary for a [`Orientation`].
pub open spec fn orientation_out(orientation: Orientation) -> FfiGlassesOrientation {
    match orientation {
        Orientation::Portrait => FfiGlassesOrientation::Portrait,
        Orientation::Landscape => FfiGlassesOrientation::Landscape,
    }
}

impl From<Orientation> for FfiGlassesOrientation {
    fn from(orientation: Orientation) -> (r: Self)
        ensures
            r == orientation_out(orientation),
    {
        match orientation {
            Orientation::Portrait => FfiGlassesOrientation::Portrait,
            Orientation::Landscape => FfiGlassesOrientation::Landscape,
        }
    }
}

impl vstd::std_specs::convert::FromSpecImpl<Orientation> for FfiGlassesOrientation {
    open spec fn obeys_from_spec() -> bool {
        true
    }

    open spec fn from_spec(orientation: Orientation) -> Self {
        orientation_out(orientation)
    }
}

/// The [`Orientation`] that came across the boundary.
pub open spec fn orientation_in(orientation: FfiGlassesOrientation) -> Orientation {
    match orientation {
        FfiGlassesOrientation::Portrait => Orientation::Portrait,
        FfiGlassesOrientation::Landscape => Orientation::Landscape,
    }
}

impl From<FfiGlassesOrientation> for Orientation {
    fn from(orientation: FfiGlassesOrientation) -> (r: Self)
        ensures
            r == orientation_in(orientation),
    {
        match orientation {
            FfiGlassesOrientation::Portrait => Orientation::Portrait,
            FfiGlassesOrientation::Landscape => Orientation::Landscape,
        }
    }
}

impl vstd::std_specs::convert::FromSpecImpl<FfiGlassesOrientation> for Orientation {
    open spec fn obeys_from_spec() -> bool {
        true
    }

    open spec fn from_spec(orientation: FfiGlassesOrientation) -> Self {
        orientation_in(orientation)
    }
}

/// Which of the two Wi-Fi modes: the JSON file API, or the RTSP live stream.
#[derive(Debug, Clone, Copy, PartialEq, Eq, Structural)]
pub enum FfiGlassesWifiService {
    Files,
    Live,
}

/// What crosses the boundary for a [`WifiService`].
pub open spec fn service_out(service: WifiService) -> FfiGlassesWifiService {
    match service {
        WifiService::Files => FfiGlassesWifiService::Files,
        WifiService::Live => FfiGlassesWifiService::Live,
    }
}

impl From<WifiService> for FfiGlassesWifiService {
    fn from(service: WifiService) -> (r: Self)
        ensures
            r == service_out(service),
    {
        match service {
            WifiService::Files => FfiGlassesWifiService::Files,
            WifiService::Live => FfiGlassesWifiService::Live,
        }
    }
}

impl vstd::std_specs::convert::FromSpecImpl<WifiService> for FfiGlassesWifiService {
    open spec fn obeys_from_spec() -> bool {
        true
    }

    open spec fn from_spec(service: WifiService) -> Self {
        service_out(service)
    }
}

/// The [`WifiService`] that came across the boundary.
pub open spec fn service_in(service: FfiGlassesWifiService) -> WifiService {
    match service {
        FfiGlassesWifiService::Files => WifiService::Files,
        FfiGlassesWifiService::Live => WifiService::Live,
    }
}

impl From<FfiGlassesWifiService> for WifiService {
    fn from(service: FfiGlassesWifiService) -> (r: Self)
        ensures
            r == service_in(service),
    {
        match service {
            FfiGlassesWifiService::Files => WifiService::Files,
            FfiGlassesWifiService::Live => WifiService::Live,
        }
    }
}

impl vstd::std_specs::convert::FromSpecImpl<FfiGlassesWifiService> for WifiService {
    open spec fn obeys_from_spec() -> bool {
        true
    }

    open spec fn from_spec(service: FfiGlassesWifiService) -> Self {
        service_in(service)
    }
}

/// One flag of the `0x45` action-sync frame. Index 9 is file-import mode, not "Wi-Fi active".
#[derive(Debug, Clone, Copy, PartialEq, Eq, Structural)]
pub enum FfiGlassesDeviceAction {
    TakePhoto,
    AudioRecord,
    VideoRecord,
    VolumeUp,
    VolumeDown,
    NodHead,
    ShakeHead,
    PlayPause,
    WearingDetection,
    ImportingMode,
}

/// What crosses the boundary for a [`DeviceAction`].
pub open spec fn action_out(action: DeviceAction) -> FfiGlassesDeviceAction {
    match action {
        DeviceAction::TakePhoto => FfiGlassesDeviceAction::TakePhoto,
        DeviceAction::AudioRecord => FfiGlassesDeviceAction::AudioRecord,
        DeviceAction::VideoRecord => FfiGlassesDeviceAction::VideoRecord,
        DeviceAction::VolumeUp => FfiGlassesDeviceAction::VolumeUp,
        DeviceAction::VolumeDown => FfiGlassesDeviceAction::VolumeDown,
        DeviceAction::NodHead => FfiGlassesDeviceAction::NodHead,
        DeviceAction::ShakeHead => FfiGlassesDeviceAction::ShakeHead,
        DeviceAction::PlayPause => FfiGlassesDeviceAction::PlayPause,
        DeviceAction::WearingDetection => FfiGlassesDeviceAction::WearingDetection,
        DeviceAction::ImportingMode => FfiGlassesDeviceAction::ImportingMode,
    }
}

impl From<DeviceAction> for FfiGlassesDeviceAction {
    fn from(action: DeviceAction) -> (r: Self)
        ensures
            r == action_out(action),
    {
        match action {
            DeviceAction::TakePhoto => FfiGlassesDeviceAction::TakePhoto,
            DeviceAction::AudioRecord => FfiGlassesDeviceAction::AudioRecord,
            DeviceAction::VideoRecord => FfiGlassesDeviceAction::VideoRecord,
            DeviceAction::VolumeUp => FfiGlassesDeviceAction::VolumeUp,
            DeviceAction::VolumeDown => FfiGlassesDeviceAction::VolumeDown,
            DeviceAction::NodHead => FfiGlassesDeviceAction::NodHead,
            DeviceAction::ShakeHead => FfiGlassesDeviceAction::ShakeHead,
            DeviceAction::PlayPause => FfiGlassesDeviceAction::PlayPause,
            DeviceAction::WearingDetection => FfiGlassesDeviceAction::WearingDetection,
            DeviceAction::ImportingMode => FfiGlassesDeviceAction::ImportingMode,
        }
    }
}

impl vstd::std_specs::convert::FromSpecImpl<DeviceAction> for FfiGlassesDeviceAction {
    open spec fn obeys_from_spec() -> bool {
        true
    }

    open spec fn from_spec(action: DeviceAction) -> Self {
        action_out(action)
    }
}

/// The [`DeviceAction`] that came across the boundary.
pub open spec fn action_in(action: FfiGlassesDeviceAction) -> DeviceAction {
    match action {
        FfiGlassesDeviceAction::TakePhoto => DeviceAction::TakePhoto,
        FfiGlassesDeviceAction::AudioRecord => DeviceAction::AudioRecord,
        FfiGlassesDeviceAction::VideoRecord => DeviceAction::VideoRecord,
        FfiGlassesDeviceAction::VolumeUp => DeviceAction::VolumeUp,
        FfiGlassesDeviceAction::VolumeDown => DeviceAction::VolumeDown,
        FfiGlassesDeviceAction::NodHead => DeviceAction::NodHead,
        FfiGlassesDeviceAction::ShakeHead => DeviceAction::ShakeHead,
        FfiGlassesDeviceAction::PlayPause => DeviceAction::PlayPause,
        FfiGlassesDeviceAction::WearingDetection => DeviceAction::WearingDetection,
        FfiGlassesDeviceAction::ImportingMode => DeviceAction::ImportingMode,
    }
}

impl From<FfiGlassesDeviceAction> for DeviceAction {
    fn from(action: FfiGlassesDeviceAction) -> (r: Self)
        ensures
            r == action_in(action),
    {
        match action {
            FfiGlassesDeviceAction::TakePhoto => DeviceAction::TakePhoto,
            FfiGlassesDeviceAction::AudioRecord => DeviceAction::AudioRecord,
            FfiGlassesDeviceAction::VideoRecord => DeviceAction::VideoRecord,
            FfiGlassesDeviceAction::VolumeUp => DeviceAction::VolumeUp,
            FfiGlassesDeviceAction::VolumeDown => DeviceAction::VolumeDown,
            FfiGlassesDeviceAction::NodHead => DeviceAction::NodHead,
            FfiGlassesDeviceAction::ShakeHead => DeviceAction::ShakeHead,
            FfiGlassesDeviceAction::PlayPause => DeviceAction::PlayPause,
            FfiGlassesDeviceAction::WearingDetection => DeviceAction::WearingDetection,
            FfiGlassesDeviceAction::ImportingMode => DeviceAction::ImportingMode,
        }
    }
}

impl vstd::std_specs::convert::FromSpecImpl<FfiGlassesDeviceAction> for DeviceAction {
    open spec fn obeys_from_spec() -> bool {
        true
    }

    open spec fn from_spec(action: FfiGlassesDeviceAction) -> Self {
        action_in(action)
    }
}

/// Why a byte sequence is not a frame. `Truncated` and `BadLength` stay distinct because the
/// deframer waits on the first and resyncs on the second.
#[derive(Debug, Clone, Copy, PartialEq, Eq, Structural)]
pub enum FfiGlassesDecodeError {
    TooShort,
    BadHeader,
    BadLength,
    Truncated,
    ChecksumMismatch,
}

/// What crosses the boundary for a [`DecodeError`].
pub open spec fn decode_error_out(decode_error: DecodeError) -> FfiGlassesDecodeError {
    match decode_error {
        DecodeError::TooShort => FfiGlassesDecodeError::TooShort,
        DecodeError::BadHeader => FfiGlassesDecodeError::BadHeader,
        DecodeError::BadLength => FfiGlassesDecodeError::BadLength,
        DecodeError::Truncated => FfiGlassesDecodeError::Truncated,
        DecodeError::ChecksumMismatch => FfiGlassesDecodeError::ChecksumMismatch,
    }
}

impl From<DecodeError> for FfiGlassesDecodeError {
    fn from(decode_error: DecodeError) -> (r: Self)
        ensures
            r == decode_error_out(decode_error),
    {
        match decode_error {
            DecodeError::TooShort => FfiGlassesDecodeError::TooShort,
            DecodeError::BadHeader => FfiGlassesDecodeError::BadHeader,
            DecodeError::BadLength => FfiGlassesDecodeError::BadLength,
            DecodeError::Truncated => FfiGlassesDecodeError::Truncated,
            DecodeError::ChecksumMismatch => FfiGlassesDecodeError::ChecksumMismatch,
        }
    }
}

impl vstd::std_specs::convert::FromSpecImpl<DecodeError> for FfiGlassesDecodeError {
    open spec fn obeys_from_spec() -> bool {
        true
    }

    open spec fn from_spec(decode_error: DecodeError) -> Self {
        decode_error_out(decode_error)
    }
}

// ---- opcode tables --------------------------------------------------------------------

/// The wire byte for an opcode.
pub fn glasses_command_code(cmd: FfiGlassesCommand) -> (code: u8)
    ensures
        code == command_in(cmd).code(),
{
    AppCommand::from(cmd).code()
}

/// Classify an outbound byte. `None` is a real answer: the encoder takes raw bytes precisely so
/// that an unknown opcode can be probed.
pub fn glasses_command_from_code(code: u8) -> (r: Option<FfiGlassesCommand>)
    ensures
        r == (match AppCommand::of_code(code) {
            Some(c) => Some(command_out(c)),
            None => None,
        }),
{
    match AppCommand::from_code(code) {
        Some(c) => Some(FfiGlassesCommand::from(c)),
        None => None,
    }
}

/// What backs this opcode.
pub fn glasses_command_evidence(cmd: FfiGlassesCommand) -> (e: FfiGlassesEvidence)
    ensures
        e == evidence_out(command_in(cmd).evidence()),
{
    FfiGlassesEvidence::from(AppCommand::from(cmd).evidence())
}

/// Every app to device opcode, ascending by wire byte.
pub fn glasses_all_commands() -> (all: Vec<FfiGlassesCommand>)
    ensures
        all@ == AppCommand::ALL@.map_values(|x: AppCommand| command_out(x)),
{
    let table = AppCommand::ALL;
    let mut all: Vec<FfiGlassesCommand> = Vec::new();
    for i in 0..table.len()
        invariant
            table@ == AppCommand::ALL@,
            all@ == AppCommand::ALL@.map_values(|x: AppCommand| command_out(x)).take(i as int),
    {
        all.push(FfiGlassesCommand::from(table[i]));
        assert(all@ =~= AppCommand::ALL@.map_values(|x: AppCommand| command_out(x)).take(i + 1));
    }
    assert(all@ =~= AppCommand::ALL@.map_values(|x: AppCommand| command_out(x)));
    all
}

/// The exact order of the `0x48` switch-state burst, as ten separate frames. There is no `0x48`
/// reply; these are the ten opcodes the answer actually arrives under.
pub fn glasses_switch_state_burst_order() -> (all: Vec<FfiGlassesCommand>)
    ensures
        all@ == opcodes::SWITCH_STATE_BURST_ORDER@.map_values(|x: AppCommand| command_out(x)),
{
    let table = opcodes::SWITCH_STATE_BURST_ORDER;
    let mut all: Vec<FfiGlassesCommand> = Vec::new();
    for i in 0..table.len()
        invariant
            table@ == opcodes::SWITCH_STATE_BURST_ORDER@,
            all@ == opcodes::SWITCH_STATE_BURST_ORDER@.map_values(|x: AppCommand| command_out(x)).take(i as int),
    {
        all.push(FfiGlassesCommand::from(table[i]));
        assert(all@ =~= opcodes::SWITCH_STATE_BURST_ORDER@.map_values(|x: AppCommand| command_out(x)).take(i + 1));
    }
    assert(all@ =~= opcodes::SWITCH_STATE_BURST_ORDER@.map_values(|x: AppCommand| command_out(x)));
    all
}

/// An opcode that is named and that no capture has produced.
#[derive(Debug, Clone, PartialEq, Eq)]
pub struct FfiGlassesUnimplementedOpcode {
    pub code: u8,
    /// The identifier it is known by: a search key, never user-facing copy.
    pub vendor_name: String,
}

impl View for FfiGlassesUnimplementedOpcode {
    type V = (u8, Seq<char>);

    open spec fn view(&self) -> (u8, Seq<char>) {
        (self.code, self.vendor_name@)
    }
}

/// The five named opcodes nobody has evidence for.
pub fn glasses_vendor_named_unimplemented() -> (all: Vec<FfiGlassesUnimplementedOpcode>)
    ensures
        all@.len() == 5,
        forall|i: int|
            0 <= i < 5 ==> (#[trigger] all@[i])@ == (
                opcodes::VENDOR_NAMED_UNIMPLEMENTED@[i].0,
                opcodes::VENDOR_NAMED_UNIMPLEMENTED@[i].1@,
            ),
{
    let table = opcodes::VENDOR_NAMED_UNIMPLEMENTED;
    let mut all: Vec<FfiGlassesUnimplementedOpcode> = Vec::new();
    for i in 0..5usize
        invariant
            table@ == opcodes::VENDOR_NAMED_UNIMPLEMENTED@,
            all@.len() == i,
            forall|k: int|
                0 <= k < i ==> (#[trigger] all@[k])@ == (table@[k].0, table@[k].1@),
    {
        let (code, name) = table[i];
        all.push(FfiGlassesUnimplementedOpcode { code, vendor_name: String::from_str(name) });
    }
    all
}

/// All five gesture slots, in the order the burst emits them.
pub fn glasses_gesture_slots() -> (all: Vec<FfiGlassesGestureSlot>)
    ensures
        all@ == GestureSlot::ALL@.map_values(|x: GestureSlot| slot_out(x)),
{
    let table = GestureSlot::ALL;
    let mut all: Vec<FfiGlassesGestureSlot> = Vec::new();
    for i in 0..table.len()
        invariant
            table@ == GestureSlot::ALL@,
            all@ == GestureSlot::ALL@.map_values(|x: GestureSlot| slot_out(x)).take(i as int),
    {
        all.push(FfiGlassesGestureSlot::from(table[i]));
        assert(all@ =~= GestureSlot::ALL@.map_values(|x: GestureSlot| slot_out(x)).take(i + 1));
    }
    assert(all@ =~= GestureSlot::ALL@.map_values(|x: GestureSlot| slot_out(x)));
    all
}

/// The setter opcode that carries a slot: the same byte, stated rather than assumed.
pub fn glasses_gesture_slot_command(slot: FfiGlassesGestureSlot) -> (c: FfiGlassesCommand)
    ensures
        c == command_out(slot_in(slot).command()),
{
    FfiGlassesCommand::from(GestureSlot::from(slot).command())
}

/// Decode a slot frame's value byte. Accepts the ASCII digit every captured firmware sends and a raw
/// `0..=4`; anything else is `None` rather than a silent clamp.
pub fn glasses_gesture_action_from_value(byte: u8) -> (r: Option<FfiGlassesGestureAction>)
    ensures
        r == gesture_value_out(byte),
{
    match GestureAction::from_value(byte) {
        Some(a) => Some(FfiGlassesGestureAction::from(a)),
        None => None,
    }
}

/// The binding that a value byte stands for.
pub open spec fn gesture_value_out(byte: u8) -> Option<FfiGlassesGestureAction> {
    match GestureAction::of_value(byte) {
        Some(a) => Some(gesture_out(a)),
        None => None,
    }
}

/// Every binding a slot can take, in ordinal order: the list a settings picker offers.
pub fn glasses_gesture_actions() -> (all: Vec<FfiGlassesGestureAction>)
    ensures
        all@ == GestureAction::ALL@.map_values(|x: GestureAction| gesture_out(x)),
{
    let table = GestureAction::ALL;
    let mut all: Vec<FfiGlassesGestureAction> = Vec::new();
    for i in 0..table.len()
        invariant
            table@ == GestureAction::ALL@,
            all@ == GestureAction::ALL@.map_values(|x: GestureAction| gesture_out(x)).take(i as int),
    {
        all.push(FfiGlassesGestureAction::from(table[i]));
        assert(all@ =~= GestureAction::ALL@.map_values(|x: GestureAction| gesture_out(x)).take(i + 1));
    }
    assert(all@ =~= GestureAction::ALL@.map_values(|x: GestureAction| gesture_out(x)));
    all
}

/// The value byte a slot frame carries for this binding: the ASCII digit. The inverse of
/// [`glasses_gesture_action_from_value`].
pub fn glasses_gesture_action_value(action: FfiGlassesGestureAction) -> (byte: u8)
    ensures
        byte == gesture_in(action).ascii(),
{
    GestureAction::from(action).ascii()
}

/// The three LED brightnesses, dim to bright.
pub fn glasses_led_levels() -> (all: Vec<FfiGlassesLedLevel>)
    ensures
        all@ == LedLevel::ALL@.map_values(|x: LedLevel| led_out(x)),
{
    let table = LedLevel::ALL;
    let mut all: Vec<FfiGlassesLedLevel> = Vec::new();
    for i in 0..table.len()
        invariant
            table@ == LedLevel::ALL@,
            all@ == LedLevel::ALL@.map_values(|x: LedLevel| led_out(x)).take(i as int),
    {
        all.push(FfiGlassesLedLevel::from(table[i]));
        assert(all@ =~= LedLevel::ALL@.map_values(|x: LedLevel| led_out(x)).take(i + 1));
    }
    assert(all@ =~= LedLevel::ALL@.map_values(|x: LedLevel| led_out(x)));
    all
}

/// Map a reported LED level, `0..=2`, back to the enumeration that a setter takes. Out of range is
/// `None` rather than a clamp, which would push a value the device never reported back at it.
pub fn glasses_led_level_from_value(level: u8) -> (r: Option<FfiGlassesLedLevel>)
    ensures
        match r {
            Some(l) => led_in(l).ascii() == 0x30 + level,
            None => level > 2,
        },
{
    match LedLevel::from_level(level) {
        Some(l) => Some(FfiGlassesLedLevel::from(l)),
        None => None,
    }
}

/// The `0..=2` level this brightness reports as. The inverse of
/// [`glasses_led_level_from_value`].
pub fn glasses_led_level_value(level: FfiGlassesLedLevel) -> (value: u8)
    ensures
        value == led_in(level).ascii() - 0x30,
{
    LedLevel::from(level).ascii() - 0x30
}

/// The three output channels, in the order a `0x69` reply lists them.
pub fn glasses_volume_channels() -> (all: Vec<FfiGlassesVolumeChannel>)
    ensures
        all@ == VolumeChannel::ALL@.map_values(|x: VolumeChannel| channel_out(x)),
{
    let table = VolumeChannel::ALL;
    let mut all: Vec<FfiGlassesVolumeChannel> = Vec::new();
    for i in 0..table.len()
        invariant
            table@ == VolumeChannel::ALL@,
            all@ == VolumeChannel::ALL@.map_values(|x: VolumeChannel| channel_out(x)).take(i as int),
    {
        all.push(FfiGlassesVolumeChannel::from(table[i]));
        assert(all@ =~= VolumeChannel::ALL@.map_values(|x: VolumeChannel| channel_out(x)).take(i + 1));
    }
    assert(all@ =~= VolumeChannel::ALL@.map_values(|x: VolumeChannel| channel_out(x)));
    all
}

/// The channel byte `0x70` carries.
pub fn glasses_volume_channel_code(channel: FfiGlassesVolumeChannel) -> (code: u8)
    ensures
        code == channel_in(channel).code(),
{
    VolumeChannel::from(channel).code()
}

/// Every action flag of the `0x45` frame, in payload-index order.
pub fn glasses_device_actions() -> (all: Vec<FfiGlassesDeviceAction>)
    ensures
        all@ == DeviceAction::ALL@.map_values(|x: DeviceAction| action_out(x)),
{
    let table = DeviceAction::ALL;
    let mut all: Vec<FfiGlassesDeviceAction> = Vec::new();
    for i in 0..table.len()
        invariant
            table@ == DeviceAction::ALL@,
            all@ == DeviceAction::ALL@.map_values(|x: DeviceAction| action_out(x)).take(i as int),
    {
        all.push(FfiGlassesDeviceAction::from(table[i]));
        assert(all@ =~= DeviceAction::ALL@.map_values(|x: DeviceAction| action_out(x)).take(i + 1));
    }
    assert(all@ =~= DeviceAction::ALL@.map_values(|x: DeviceAction| action_out(x)));
    all
}

/// What backs one action flag. Three of the ten have never been seen set on any device.
pub fn glasses_device_action_evidence(action: FfiGlassesDeviceAction) -> (e: FfiGlassesEvidence)
    ensures
        e == evidence_out(action_in(action).evidence()),
{
    FfiGlassesEvidence::from(DeviceAction::from(action).evidence())
}

// ---- GATT -----------------------------------------------------------------------------

/// The GATT topology, so that each client converts to its own UUID type once at the edge.
#[derive(Debug, Clone, PartialEq, Eq)]
pub struct FfiGlassesGatt {
    pub service: String,
    pub write: String,
    pub control_notify: String,
    pub file_notify: String,
    /// Both notify characteristics, control first.
    pub notify_all: Vec<String>,
    /// `true` means an ATT Write Request.
    pub write_with_response: bool,
}

pub fn glasses_gatt() -> (g: FfiGlassesGatt)
    ensures
        g.service@ == gatt::SERVICE@,
        g.write@ == gatt::WRITE@,
        g.control_notify@ == gatt::CONTROL_NOTIFY@,
        g.file_notify@ == gatt::FILE_NOTIFY@,
        g.notify_all@.len() == 2,
        g.notify_all@[0]@ == gatt::CONTROL_NOTIFY@,
        g.notify_all@[1]@ == gatt::FILE_NOTIFY@,
        g.write_with_response == gatt::WRITE_WITH_RESPONSE,
{
    let mut notify_all: Vec<String> = Vec::new();
    notify_all.push(String::from_str(gatt::CONTROL_NOTIFY));
    notify_all.push(String::from_str(gatt::FILE_NOTIFY));
    FfiGlassesGatt {
        service: String::from_str(gatt::SERVICE),
        write: String::from_str(gatt::WRITE),
        control_notify: String::from_str(gatt::CONTROL_NOTIFY),
        file_notify: String::from_str(gatt::FILE_NOTIFY),
        notify_all,
        write_with_response: gatt::WRITE_WITH_RESPONSE,
    }
}

/// Whether one of the UUIDs holds `needle`, whatever the case of its letters.
pub open spec fn offers(uuids: Seq<String>, needle: Seq<char>) -> bool {
    exists|i: int|
        0 <= i < uuids.len() && crate::text::occurs(
            needle,
            crate::text::upper_text((#[trigger] uuids[i])@),
        )
}

/// Can this characteristic set be driven? Needs the write characteristic plus a notify. Matching is
/// case-insensitive substring, so a 16-bit and a 128-bit spelling both resolve.
pub fn glasses_is_drivable(characteristic_uuids: Vec<String>) -> (b: bool)
    ensures
        b == (offers(characteristic_uuids@, gatt::WRITE@) && (offers(
            characteristic_uuids@,
            gatt::CONTROL_NOTIFY@,
        ) || offers(characteristic_uuids@, gatt::FILE_NOTIFY@))),
{
    let mut uuids: Vec<&str> = Vec::new();
    for i in 0..characteristic_uuids.len()
        invariant
            uuids@.len() == i,
            forall|k: int| 0 <= k < i ==> (#[trigger] uuids@[k])@ == characteristic_uuids@[k]@,
    {
        uuids.push(characteristic_uuids[i].as_str());
    }
    proof {
        lemma_same_offers(characteristic_uuids@, uuids@, gatt::WRITE@);
        lemma_same_offers(characteristic_uuids@, uuids@, gatt::CONTROL_NOTIFY@);
        lemma_same_offers(characteristic_uuids@, uuids@, gatt::FILE_NOTIFY@);
    }
    gatt::is_drivable(uuids.as_slice())
}

proof fn lemma_same_offers(owned: Seq<String>, lent: Seq<&str>, needle: Seq<char>)
    requires
        owned.len() == lent.len(),
        forall|k: int| 0 <= k < lent.len() ==> (#[trigger] lent[k])@ == owned[k]@,
    ensures
        offers(owned, needle) == gatt::offers(lent, needle),
{
    if offers(owned, needle) {
        let i = choose|i: int|
            0 <= i < owned.len() && crate::text::occurs(
                needle,
                crate::text::upper_text((#[trigger] owned[i])@),
            );
        assert(crate::text::occurs(needle, crate::text::upper_text(lent[i]@)));
    }
}

// ---- laws -----------------------------------------------------------------------------

/// A [`AppCommand`] comes back from the boundary as it went out, and the other way round.
pub proof fn lemma_command_round_trip(inside: AppCommand, outside: FfiGlassesCommand)
    ensures
        command_in(command_out(inside)) == inside,
        command_out(command_in(outside)) == outside,
{
}

/// A [`GestureSlot`] comes back from the boundary as it went out, and the other way round.
pub proof fn lemma_slot_round_trip(inside: GestureSlot, outside: FfiGlassesGestureSlot)
    ensures
        slot_in(slot_out(inside)) == inside,
        slot_out(slot_in(outside)) == outside,
{
}

/// A [`GestureAction`] comes back from the boundary as it went out, and the other way round.
pub proof fn lemma_gesture_round_trip(inside: GestureAction, outside: FfiGlassesGestureAction)
    ensures
        gesture_in(gesture_out(inside)) == inside,
        gesture_out(gesture_in(outside)) == outside,
{
}

/// A [`VolumeChannel`] comes back from the boundary as it went out, and the other way round.
pub proof fn lemma_channel_round_trip(inside: VolumeChannel, outside: FfiGlassesVolumeChannel)
    ensures
        channel_in(channel_out(inside)) == inside,
        channel_out(channel_in(outside)) == outside,
{
}

/// A [`LedLevel`] comes back from the boundary as it went out, and the other way round.
pub proof fn lemma_led_round_trip(inside: LedLevel, outside: FfiGlassesLedLevel)
    ensures
        led_in(led_out(inside)) == inside,
        led_out(led_in(outside)) == outside,
{
}

/// A [`Orientation`] comes back from the boundary as it went out, and the other way round.
pub proof fn lemma_orientation_round_trip(inside: Orientation, outside: FfiGlassesOrientation)
    ensures
        orientation_in(orientation_out(inside)) == inside,
        orientation_out(orientation_in(outside)) == outside,
{
}

/// A [`WifiService`] comes back from the boundary as it went out, and the other way round.
pub proof fn lemma_service_round_trip(inside: WifiService, outside: FfiGlassesWifiService)
    ensures
        service_in(service_out(inside)) == inside,
        service_out(service_in(outside)) == outside,
{
}

/// A [`DeviceAction`] comes back from the boundary as it went out, and the other way round.
pub proof fn lemma_action_round_trip(inside: DeviceAction, outside: FfiGlassesDeviceAction)
    ensures
        action_in(action_out(inside)) == inside,
        action_out(action_in(outside)) == outside,
{
}

/// Every opcode is found again by its wire byte, on the boundary as inside.
pub proof fn lemma_commands_round_trip_by_byte(cmd: FfiGlassesCommand)
    ensures
        AppCommand::of_code(command_in(cmd).code()) == Some(command_in(cmd)),
        command_out(command_in(cmd)) == cmd,
{
}

/// A binding is found again by its value byte.
pub proof fn lemma_bindings_round_trip_by_value(action: FfiGlassesGestureAction)
    ensures
        gesture_value_out(gesture_in(action).ascii()) == Some(action),
{
}

/// An evidence keeps its name across the boundary.
pub proof fn lemma_evidence_out_keeps_its_name(evidence: Evidence)
    ensures
        evidence == Evidence::Capture <==> evidence_out(evidence) == FfiGlassesEvidence::Capture,
        evidence == Evidence::DeviceProbe
            <==> evidence_out(evidence) == FfiGlassesEvidence::DeviceProbe,
        evidence == Evidence::ClientOnly
            <==> evidence_out(evidence) == FfiGlassesEvidence::ClientOnly,
{
}

/// A command keeps its name across the boundary.
pub proof fn lemma_command_out_keeps_its_name(command: AppCommand)
    ensures
        command == AppCommand::SetLed <==> command_out(command) == FfiGlassesCommand::SetLed,
        command == AppCommand::SetRecordDuration
            <==> command_out(command) == FfiGlassesCommand::SetRecordDuration,
        command == AppCommand::WearDetection
            <==> command_out(command) == FfiGlassesCommand::WearDetection,
        command == AppCommand::VoiceCommand
            <==> command_out(command) == FfiGlassesCommand::VoiceCommand,
        command == AppCommand::SetGestureSwipeForward
            <==> command_out(command) == FfiGlassesCommand::SetGestureSwipeForward,
        command == AppCommand::SetGestureSwipeBack
            <==> command_out(command) == FfiGlassesCommand::SetGestureSwipeBack,
        command == AppCommand::SetGestureSingleTap
            <==> command_out(command) == FfiGlassesCommand::SetGestureSingleTap,
        command == AppCommand::SetGestureDoubleTap
            <==> command_out(command) == FfiGlassesCommand::SetGestureDoubleTap,
        command == AppCommand::SetGestureTripleTap
            <==> command_out(command) == FfiGlassesCommand::SetGestureTripleTap,
        command == AppCommand::FactoryReset
            <==> command_out(command) == FfiGlassesCommand::FactoryReset,
        command == AppCommand::GetBattery
            <==> command_out(command) == FfiGlassesCommand::GetBattery,
        command == AppCommand::TakePhoto <==> command_out(command) == FfiGlassesCommand::TakePhoto,
        command == AppCommand::StartVideo
            <==> command_out(command) == FfiGlassesCommand::StartVideo,
        command == AppCommand::StopVideo <==> command_out(command) == FfiGlassesCommand::StopVideo,
        command == AppCommand::SwitchMusic
            <==> command_out(command) == FfiGlassesCommand::SwitchMusic,
        command == AppCommand::PlayPause <==> command_out(command) == FfiGlassesCommand::PlayPause,
        command == AppCommand::Volume <==> command_out(command) == FfiGlassesCommand::Volume,
        command == AppCommand::AnswerHangup
            <==> command_out(command) == FfiGlassesCommand::AnswerHangup,
        command == AppCommand::VoiceRecording
            <==> command_out(command) == FfiGlassesCommand::VoiceRecording,
        command == AppCommand::PullImage <==> command_out(command) == FfiGlassesCommand::PullImage,
        command == AppCommand::PullThumbnailStatus
            <==> command_out(command) == FfiGlassesCommand::PullThumbnailStatus,
        command == AppCommand::OpenWifiFiles
            <==> command_out(command) == FfiGlassesCommand::OpenWifiFiles,
        command == AppCommand::GetFileCount
            <==> command_out(command) == FfiGlassesCommand::GetFileCount,
        command == AppCommand::FileDownloadComplete
            <==> command_out(command) == FfiGlassesCommand::FileDownloadComplete,
        command == AppCommand::GetDeviceStatus
            <==> command_out(command) == FfiGlassesCommand::GetDeviceStatus,
        command == AppCommand::GetSwitchStates
            <==> command_out(command) == FfiGlassesCommand::GetSwitchStates,
        command == AppCommand::GetVersions
            <==> command_out(command) == FfiGlassesCommand::GetVersions,
        command == AppCommand::InterruptVoice
            <==> command_out(command) == FfiGlassesCommand::InterruptVoice,
        command == AppCommand::RetransmitVoice
            <==> command_out(command) == FfiGlassesCommand::RetransmitVoice,
        command == AppCommand::SendPhoneTime
            <==> command_out(command) == FfiGlassesCommand::SendPhoneTime,
        command == AppCommand::Reboot <==> command_out(command) == FfiGlassesCommand::Reboot,
        command == AppCommand::Orientation
            <==> command_out(command) == FfiGlassesCommand::Orientation,
        command == AppCommand::OfflineVoiceLang
            <==> command_out(command) == FfiGlassesCommand::OfflineVoiceLang,
        command == AppCommand::EnterUpgrade
            <==> command_out(command) == FfiGlassesCommand::EnterUpgrade,
        command == AppCommand::GetProjectName
            <==> command_out(command) == FfiGlassesCommand::GetProjectName,
        command == AppCommand::SendIspVersion
            <==> command_out(command) == FfiGlassesCommand::SendIspVersion,
        command == AppCommand::OpenWifiLive
            <==> command_out(command) == FfiGlassesCommand::OpenWifiLive,
        command == AppCommand::GetVolumes
            <==> command_out(command) == FfiGlassesCommand::GetVolumes,
        command == AppCommand::SetVolume <==> command_out(command) == FfiGlassesCommand::SetVolume,
        command == AppCommand::GetVoiceDisableState
            <==> command_out(command) == FfiGlassesCommand::GetVoiceDisableState,
        command == AppCommand::GetCapabilities
            <==> command_out(command) == FfiGlassesCommand::GetCapabilities,
{
}

/// A command keeps its name back across the boundary.
pub proof fn lemma_command_in_keeps_its_name(command: FfiGlassesCommand)
    ensures
        command == FfiGlassesCommand::SetLed <==> command_in(command) == AppCommand::SetLed,
        command == FfiGlassesCommand::SetRecordDuration
            <==> command_in(command) == AppCommand::SetRecordDuration,
        command == FfiGlassesCommand::WearDetection
            <==> command_in(command) == AppCommand::WearDetection,
        command == FfiGlassesCommand::VoiceCommand
            <==> command_in(command) == AppCommand::VoiceCommand,
        command == FfiGlassesCommand::SetGestureSwipeForward
            <==> command_in(command) == AppCommand::SetGestureSwipeForward,
        command == FfiGlassesCommand::SetGestureSwipeBack
            <==> command_in(command) == AppCommand::SetGestureSwipeBack,
        command == FfiGlassesCommand::SetGestureSingleTap
            <==> command_in(command) == AppCommand::SetGestureSingleTap,
        command == FfiGlassesCommand::SetGestureDoubleTap
            <==> command_in(command) == AppCommand::SetGestureDoubleTap,
        command == FfiGlassesCommand::SetGestureTripleTap
            <==> command_in(command) == AppCommand::SetGestureTripleTap,
        command == FfiGlassesCommand::FactoryReset
            <==> command_in(command) == AppCommand::FactoryReset,
        command == FfiGlassesCommand::GetBattery <==> command_in(command) == AppCommand::GetBattery,
        command == FfiGlassesCommand::TakePhoto <==> command_in(command) == AppCommand::TakePhoto,
        command == FfiGlassesCommand::StartVideo <==> command_in(command) == AppCommand::StartVideo,
        command == FfiGlassesCommand::StopVideo <==> command_in(command) == AppCommand::StopVideo,
        command == FfiGlassesCommand::SwitchMusic
            <==> command_in(command) == AppCommand::SwitchMusic,
        command == FfiGlassesCommand::PlayPause <==> command_in(command) == AppCommand::PlayPause,
        command == FfiGlassesCommand::Volume <==> command_in(command) == AppCommand::Volume,
        command == FfiGlassesCommand::AnswerHangup
            <==> command_in(command) == AppCommand::AnswerHangup,
        command == FfiGlassesCommand::VoiceRecording
            <==> command_in(command) == AppCommand::VoiceRecording,
        command == FfiGlassesCommand::PullImage <==> command_in(command) == AppCommand::PullImage,
        command == FfiGlassesCommand::PullThumbnailStatus
            <==> command_in(command) == AppCommand::PullThumbnailStatus,
        command == FfiGlassesCommand::OpenWifiFiles
            <==> command_in(command) == AppCommand::OpenWifiFiles,
        command == FfiGlassesCommand::GetFileCount
            <==> command_in(command) == AppCommand::GetFileCount,
        command == FfiGlassesCommand::FileDownloadComplete
            <==> command_in(command) == AppCommand::FileDownloadComplete,
        command == FfiGlassesCommand::GetDeviceStatus
            <==> command_in(command) == AppCommand::GetDeviceStatus,
        command == FfiGlassesCommand::GetSwitchStates
            <==> command_in(command) == AppCommand::GetSwitchStates,
        command == FfiGlassesCommand::GetVersions
            <==> command_in(command) == AppCommand::GetVersions,
        command == FfiGlassesCommand::InterruptVoice
            <==> command_in(command) == AppCommand::InterruptVoice,
        command == FfiGlassesCommand::RetransmitVoice
            <==> command_in(command) == AppCommand::RetransmitVoice,
        command == FfiGlassesCommand::SendPhoneTime
            <==> command_in(command) == AppCommand::SendPhoneTime,
        command == FfiGlassesCommand::Reboot <==> command_in(command) == AppCommand::Reboot,
        command == FfiGlassesCommand::Orientation
            <==> command_in(command) == AppCommand::Orientation,
        command == FfiGlassesCommand::OfflineVoiceLang
            <==> command_in(command) == AppCommand::OfflineVoiceLang,
        command == FfiGlassesCommand::EnterUpgrade
            <==> command_in(command) == AppCommand::EnterUpgrade,
        command == FfiGlassesCommand::GetProjectName
            <==> command_in(command) == AppCommand::GetProjectName,
        command == FfiGlassesCommand::SendIspVersion
            <==> command_in(command) == AppCommand::SendIspVersion,
        command == FfiGlassesCommand::OpenWifiLive
            <==> command_in(command) == AppCommand::OpenWifiLive,
        command == FfiGlassesCommand::GetVolumes <==> command_in(command) == AppCommand::GetVolumes,
        command == FfiGlassesCommand::SetVolume <==> command_in(command) == AppCommand::SetVolume,
        command == FfiGlassesCommand::GetVoiceDisableState
            <==> command_in(command) == AppCommand::GetVoiceDisableState,
        command == FfiGlassesCommand::GetCapabilities
            <==> command_in(command) == AppCommand::GetCapabilities,
{
}

/// A slot keeps its name across the boundary.
pub proof fn lemma_slot_out_keeps_its_name(slot: GestureSlot)
    ensures
        slot == GestureSlot::SwipeForward
            <==> slot_out(slot) == FfiGlassesGestureSlot::SwipeForward,
        slot == GestureSlot::SwipeBack <==> slot_out(slot) == FfiGlassesGestureSlot::SwipeBack,
        slot == GestureSlot::SingleTap <==> slot_out(slot) == FfiGlassesGestureSlot::SingleTap,
        slot == GestureSlot::DoubleTap <==> slot_out(slot) == FfiGlassesGestureSlot::DoubleTap,
        slot == GestureSlot::TripleTap <==> slot_out(slot) == FfiGlassesGestureSlot::TripleTap,
{
}

/// A slot keeps its name back across the boundary.
pub proof fn lemma_slot_in_keeps_its_name(slot: FfiGlassesGestureSlot)
    ensures
        slot == FfiGlassesGestureSlot::SwipeForward <==> slot_in(slot) == GestureSlot::SwipeForward,
        slot == FfiGlassesGestureSlot::SwipeBack <==> slot_in(slot) == GestureSlot::SwipeBack,
        slot == FfiGlassesGestureSlot::SingleTap <==> slot_in(slot) == GestureSlot::SingleTap,
        slot == FfiGlassesGestureSlot::DoubleTap <==> slot_in(slot) == GestureSlot::DoubleTap,
        slot == FfiGlassesGestureSlot::TripleTap <==> slot_in(slot) == GestureSlot::TripleTap,
{
}

/// A gesture keeps its name across the boundary.
pub proof fn lemma_gesture_out_keeps_its_name(gesture: GestureAction)
    ensures
        gesture == GestureAction::VolumeDown
            <==> gesture_out(gesture) == FfiGlassesGestureAction::VolumeDown,
        gesture == GestureAction::VolumeUp
            <==> gesture_out(gesture) == FfiGlassesGestureAction::VolumeUp,
        gesture == GestureAction::PlayPause
            <==> gesture_out(gesture) == FfiGlassesGestureAction::PlayPause,
        gesture == GestureAction::NextTrack
            <==> gesture_out(gesture) == FfiGlassesGestureAction::NextTrack,
        gesture == GestureAction::PreviousTrack
            <==> gesture_out(gesture) == FfiGlassesGestureAction::PreviousTrack,
{
}

/// A gesture keeps its name back across the boundary.
pub proof fn lemma_gesture_in_keeps_its_name(gesture: FfiGlassesGestureAction)
    ensures
        gesture == FfiGlassesGestureAction::VolumeDown
            <==> gesture_in(gesture) == GestureAction::VolumeDown,
        gesture == FfiGlassesGestureAction::VolumeUp
            <==> gesture_in(gesture) == GestureAction::VolumeUp,
        gesture == FfiGlassesGestureAction::PlayPause
            <==> gesture_in(gesture) == GestureAction::PlayPause,
        gesture == FfiGlassesGestureAction::NextTrack
            <==> gesture_in(gesture) == GestureAction::NextTrack,
        gesture == FfiGlassesGestureAction::PreviousTrack
            <==> gesture_in(gesture) == GestureAction::PreviousTrack,
{
}

/// A channel keeps its name across the boundary.
pub proof fn lemma_channel_out_keeps_its_name(channel: VolumeChannel)
    ensures
        channel == VolumeChannel::System
            <==> channel_out(channel) == FfiGlassesVolumeChannel::System,
        channel == VolumeChannel::Media <==> channel_out(channel) == FfiGlassesVolumeChannel::Media,
        channel == VolumeChannel::Call <==> channel_out(channel) == FfiGlassesVolumeChannel::Call,
{
}

/// A channel keeps its name back across the boundary.
pub proof fn lemma_channel_in_keeps_its_name(channel: FfiGlassesVolumeChannel)
    ensures
        channel == FfiGlassesVolumeChannel::System
            <==> channel_in(channel) == VolumeChannel::System,
        channel == FfiGlassesVolumeChannel::Media <==> channel_in(channel) == VolumeChannel::Media,
        channel == FfiGlassesVolumeChannel::Call <==> channel_in(channel) == VolumeChannel::Call,
{
}

/// A led keeps its name across the boundary.
pub proof fn lemma_led_out_keeps_its_name(led: LedLevel)
    ensures
        led == LedLevel::Low <==> led_out(led) == FfiGlassesLedLevel::Low,
        led == LedLevel::Mid <==> led_out(led) == FfiGlassesLedLevel::Mid,
        led == LedLevel::High <==> led_out(led) == FfiGlassesLedLevel::High,
{
}

/// A led keeps its name back across the boundary.
pub proof fn lemma_led_in_keeps_its_name(led: FfiGlassesLedLevel)
    ensures
        led == FfiGlassesLedLevel::Low <==> led_in(led) == LedLevel::Low,
        led == FfiGlassesLedLevel::Mid <==> led_in(led) == LedLevel::Mid,
        led == FfiGlassesLedLevel::High <==> led_in(led) == LedLevel::High,
{
}

/// An orientation keeps its name across the boundary.
pub proof fn lemma_orientation_out_keeps_its_name(orientation: Orientation)
    ensures
        orientation == Orientation::Portrait
            <==> orientation_out(orientation) == FfiGlassesOrientation::Portrait,
        orientation == Orientation::Landscape
            <==> orientation_out(orientation) == FfiGlassesOrientation::Landscape,
{
}

/// An orientation keeps its name back across the boundary.
pub proof fn lemma_orientation_in_keeps_its_name(orientation: FfiGlassesOrientation)
    ensures
        orientation == FfiGlassesOrientation::Portrait
            <==> orientation_in(orientation) == Orientation::Portrait,
        orientation == FfiGlassesOrientation::Landscape
            <==> orientation_in(orientation) == Orientation::Landscape,
{
}

/// A service keeps its name across the boundary.
pub proof fn lemma_service_out_keeps_its_name(service: WifiService)
    ensures
        service == WifiService::Files <==> service_out(service) == FfiGlassesWifiService::Files,
        service == WifiService::Live <==> service_out(service) == FfiGlassesWifiService::Live,
{
}

/// A service keeps its name back across the boundary.
pub proof fn lemma_service_in_keeps_its_name(service: FfiGlassesWifiService)
    ensures
        service == FfiGlassesWifiService::Files <==> service_in(service) == WifiService::Files,
        service == FfiGlassesWifiService::Live <==> service_in(service) == WifiService::Live,
{
}

/// An action keeps its name across the boundary.
pub proof fn lemma_action_out_keeps_its_name(action: DeviceAction)
    ensures
        action == DeviceAction::TakePhoto
            <==> action_out(action) == FfiGlassesDeviceAction::TakePhoto,
        action == DeviceAction::AudioRecord
            <==> action_out(action) == FfiGlassesDeviceAction::AudioRecord,
        action == DeviceAction::VideoRecord
            <==> action_out(action) == FfiGlassesDeviceAction::VideoRecord,
        action == DeviceAction::VolumeUp
            <==> action_out(action) == FfiGlassesDeviceAction::VolumeUp,
        action == DeviceAction::VolumeDown
            <==> action_out(action) == FfiGlassesDeviceAction::VolumeDown,
        action == DeviceAction::NodHead <==> action_out(action) == FfiGlassesDeviceAction::NodHead,
        action == DeviceAction::ShakeHead
            <==> action_out(action) == FfiGlassesDeviceAction::ShakeHead,
        action == DeviceAction::PlayPause
            <==> action_out(action) == FfiGlassesDeviceAction::PlayPause,
        action == DeviceAction::WearingDetection
            <==> action_out(action) == FfiGlassesDeviceAction::WearingDetection,
        action == DeviceAction::ImportingMode
            <==> action_out(action) == FfiGlassesDeviceAction::ImportingMode,
{
}

/// An action keeps its name back across the boundary.
pub proof fn lemma_action_in_keeps_its_name(action: FfiGlassesDeviceAction)
    ensures
        action == FfiGlassesDeviceAction::TakePhoto
            <==> action_in(action) == DeviceAction::TakePhoto,
        action == FfiGlassesDeviceAction::AudioRecord
            <==> action_in(action) == DeviceAction::AudioRecord,
        action == FfiGlassesDeviceAction::VideoRecord
            <==> action_in(action) == DeviceAction::VideoRecord,
        action == FfiGlassesDeviceAction::VolumeUp <==> action_in(action) == DeviceAction::VolumeUp,
        action == FfiGlassesDeviceAction::VolumeDown
            <==> action_in(action) == DeviceAction::VolumeDown,
        action == FfiGlassesDeviceAction::NodHead <==> action_in(action) == DeviceAction::NodHead,
        action == FfiGlassesDeviceAction::ShakeHead
            <==> action_in(action) == DeviceAction::ShakeHead,
        action == FfiGlassesDeviceAction::PlayPause
            <==> action_in(action) == DeviceAction::PlayPause,
        action == FfiGlassesDeviceAction::WearingDetection
            <==> action_in(action) == DeviceAction::WearingDetection,
        action == FfiGlassesDeviceAction::ImportingMode
            <==> action_in(action) == DeviceAction::ImportingMode,
{
}

/// A decode error keeps its name across the boundary.
pub proof fn lemma_decode_error_out_keeps_its_name(decode_error: DecodeError)
    ensures
        decode_error == DecodeError::TooShort
            <==> decode_error_out(decode_error) == FfiGlassesDecodeError::TooShort,
        decode_error == DecodeError::BadHeader
            <==> decode_error_out(decode_error) == FfiGlassesDecodeError::BadHeader,
        decode_error == DecodeError::BadLength
            <==> decode_error_out(decode_error) == FfiGlassesDecodeError::BadLength,
        decode_error == DecodeError::Truncated
            <==> decode_error_out(decode_error) == FfiGlassesDecodeError::Truncated,
        decode_error == DecodeError::ChecksumMismatch
            <==> decode_error_out(decode_error) == FfiGlassesDecodeError::ChecksumMismatch,
{
}

/// A binding's byte gives the action that the byte or its ASCII digit numbers.
pub proof fn lemma_what_a_binding_byte_gives(byte: u8)
    ensures
        gesture_value_out(byte) == (match GestureAction::of_value(byte) {
            Some(action) => Some(gesture_out(action)),
            None => None,
        }),
{
}

/// A characteristic is offered when some name has its number in it, in upper or lower case.
pub proof fn lemma_what_is_offered(uuids: Seq<String>, needle: Seq<char>)
    ensures
        offers(uuids, needle) <==> exists|i: int|
            0 <= i < uuids.len() && crate::text::occurs(
                needle,
                crate::text::upper_text((#[trigger] uuids[i])@),
            ),
{
}

// ---- what the operations give back -----------------------------------------------------------

/// Commands, slots and channels by their bytes, across the boundary and back.
pub proof fn lemma_what_the_bytes_across_the_boundary_are(
    cmd: FfiGlassesCommand,
    slot: FfiGlassesGestureSlot,
    action: FfiGlassesGestureAction,
    channel: FfiGlassesVolumeChannel,
    level: FfiGlassesLedLevel,
    code: u8,
    r: Option<FfiGlassesCommand>,
    c: FfiGlassesCommand,
    l: Option<FfiGlassesLedLevel>,
)
    ensures
        call_ensures(glasses_command_code, (cmd,), code) && call_ensures(
            glasses_command_from_code,
            (code,),
            r,
        ) ==> r == Some(cmd),
        call_ensures(glasses_command_from_code, (code,), r) ==> (r is None <==> AppCommand::of_code(
            code,
        ) is None),
        call_ensures(glasses_gesture_slot_command, (slot,), c) ==> c == match slot {
            FfiGlassesGestureSlot::SwipeForward => FfiGlassesCommand::SetGestureSwipeForward,
            FfiGlassesGestureSlot::SwipeBack => FfiGlassesCommand::SetGestureSwipeBack,
            FfiGlassesGestureSlot::SingleTap => FfiGlassesCommand::SetGestureSingleTap,
            FfiGlassesGestureSlot::DoubleTap => FfiGlassesCommand::SetGestureDoubleTap,
            FfiGlassesGestureSlot::TripleTap => FfiGlassesCommand::SetGestureTripleTap,
        },
        call_ensures(glasses_gesture_action_value, (action,), code) ==> code == match action {
            FfiGlassesGestureAction::VolumeDown => 0x30u8,
            FfiGlassesGestureAction::VolumeUp => 0x31,
            FfiGlassesGestureAction::PlayPause => 0x32,
            FfiGlassesGestureAction::NextTrack => 0x33,
            FfiGlassesGestureAction::PreviousTrack => 0x34,
        },
        call_ensures(glasses_volume_channel_code, (channel,), code) ==> code == match channel {
            FfiGlassesVolumeChannel::System => 0u8,
            FfiGlassesVolumeChannel::Media => 1,
            FfiGlassesVolumeChannel::Call => 2,
        },
        call_ensures(glasses_led_level_value, (level,), code) ==> code == match level {
            FfiGlassesLedLevel::Low => 0u8,
            FfiGlassesLedLevel::Mid => 1,
            FfiGlassesLedLevel::High => 2,
        },
        call_ensures(glasses_led_level_from_value, (code,), l) ==> l == (if code == 0 {
            Some(FfiGlassesLedLevel::Low)
        } else if code == 1 {
            Some(FfiGlassesLedLevel::Mid)
        } else if code == 2 {
            Some(FfiGlassesLedLevel::High)
        } else {
            None
        }),
{
    lemma_commands_round_trip_by_byte(cmd);
}

/// The service and its characteristics by name: commands are written to `AA13` and acknowledged,
/// and both `AA14` and `AA15` notify.
pub proof fn lemma_what_the_profile_is(g: FfiGlassesGatt)
    ensures
        call_ensures(glasses_gatt, (), g) ==> {
            &&& g.service@ == "AA12"@
            &&& g.write@ == "AA13"@
            &&& g.control_notify@ == "AA14"@
            &&& g.file_notify@ == "AA15"@
            &&& g.notify_all@.len() == 2
            &&& g.notify_all@[0]@ == "AA14"@
            &&& g.notify_all@[1]@ == "AA15"@
            &&& g.write_with_response
        },
{
}

/// Glasses can be driven where `AA13` is offered and one of `AA14` and `AA15` is.
pub proof fn lemma_what_can_be_driven(uuids: Vec<String>, b: bool)
    ensures
        call_ensures(glasses_is_drivable, (uuids,), b) ==> b == (offers(uuids@, "AA13"@) && (offers(
            uuids@,
            "AA14"@,
        ) || offers(uuids@, "AA15"@))),
{
}

} // verus!
