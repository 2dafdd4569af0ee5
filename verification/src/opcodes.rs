//! The smart-glasses opcode vocabulary.
//!
//! Every opcode carries an [`Evidence`] level, a fact about bytes seen on the wire. Direction is
//! not a property of the byte: `0x45` and `0x69` are each both an app to device request and a
//! device to app frame, and most setters are echoed back verbatim as an ack, so the frame codec
//! never classifies.
use vstd::prelude::*;

verus! {

/// How strongly an opcode is evidenced, strongest first.
#[derive(Debug, Clone, Copy, PartialEq, Eq, PartialOrd, Ord, Hash, Structural)]
pub enum Evidence {
    /// Observed on the wire in the packet captures, in at least one direction.
    Capture,
    /// Not in any capture, but exercised against real hardware.
    DeviceProbe,
    /// Declared by a client or the protocol paper only; nobody has seen the device send or
    /// accept it.
    ClientOnly,
}

/// App to device command bytes.
#[derive(Debug, Clone, Copy, PartialEq, Eq, PartialOrd, Ord, Hash, Structural)]
pub enum AppCommand {
    /// `0x01`: indicator-LED brightness, an ASCII digit 0 to 2; there is no off value.
    SetLed,
    /// `0x02`: recording duration in seconds, 2-byte big-endian.
    SetRecordDuration,
    /// `0x04`: wear detection on/off.
    WearDetection,
    /// `0x06`: voice command (wake word) on/off.
    VoiceCommand,
    /// `0x07`: touchpad swipe-forward binding.
    SetGestureSwipeForward,
    /// `0x08`: touchpad swipe-back binding.
    SetGestureSwipeBack,
    /// `0x09`: single-tap binding.
    SetGestureSingleTap,
    /// `0x10`: double-tap binding; slot ids are decimal-looking, this is not hex sixteen.
    SetGestureDoubleTap,
    /// `0x11`: triple-tap binding.
    SetGestureTripleTap,
    /// `0x14`: factory reset.
    FactoryReset,
    /// `0x17`: battery read; the reply's two digits are ASCII and overflow at 100 %.
    GetBattery,
    /// `0x22`: take photo: `0x30` photo only, `0x31` photo plus the AI image.
    TakePhoto,
    /// `0x23`: start video.
    StartVideo,
    /// `0x24`: stop video.
    StopVideo,
    /// `0x30`: previous/next track.
    SwitchMusic,
    /// `0x31`: pause/play.
    PlayPause,
    /// `0x32`: relative volume, moves the system channel only.
    Volume,
    /// `0x33`: call control.
    AnswerHangup,
    /// `0x34`: manual voice recording.
    VoiceRecording,
    /// `0x36`: pull image by index; the ack exists, the data path does not.
    PullImage,
    /// `0x37`: pull thumbnail status; never answered.
    PullThumbnailStatus,
    /// `0x39`: raise the SoftAP serving the file API.
    OpenWifiFiles,
    /// `0x40`: how many files are waiting; the reply is a `0x42`.
    GetFileCount,
    /// `0x44`: end of download / ISP power-down.
    FileDownloadComplete,
    /// `0x45`: read the action-sync state.
    GetDeviceStatus,
    /// `0x48`: read the settings; the reply is a burst, never a `0x48` frame.
    GetSwitchStates,
    /// `0x55`: firmware versions.
    GetVersions,
    /// `0x56`: interrupt the microphone: the only thing that closes it.
    InterruptVoice,
    /// `0x57`: ask the device to retransmit voice.
    RetransmitVoice,
    /// `0x59`: push the phone's wall clock in plain hex, not BCD.
    SendPhoneTime,
    /// `0x60`: reboot.
    Reboot,
    /// `0x61`: capture orientation.
    Orientation,
    /// `0x62`: offline voice language; never reported in the burst.
    OfflineVoiceLang,
    /// `0x63`: enter upgrade mode.
    EnterUpgrade,
    /// `0x64`: project and customer codes.
    GetProjectName,
    /// `0x65`: report the just-flashed ISP version.
    SendIspVersion,
    /// `0x67`: raise the SoftAP serving the live stream.
    OpenWifiLive,
    /// `0x69`: read all three output levels.
    GetVolumes,
    /// `0x70`: set one output level.
    SetVolume,
    /// `0x71`: which voice features are disabled.
    GetVoiceDisableState,
    /// `0x95`: device capability word; also pushed unsolicited after link-up.
    GetCapabilities,
}

impl AppCommand {
    /// Every app to device opcode, ascending by wire byte.
    pub const ALL: [AppCommand; 41] = [
        AppCommand::SetLed,
        AppCommand::SetRecordDuration,
        AppCommand::WearDetection,
        AppCommand::VoiceCommand,
        AppCommand::SetGestureSwipeForward,
        AppCommand::SetGestureSwipeBack,
        AppCommand::SetGestureSingleTap,
        AppCommand::SetGestureDoubleTap,
        AppCommand::SetGestureTripleTap,
        AppCommand::FactoryReset,
        AppCommand::GetBattery,
        AppCommand::TakePhoto,
        AppCommand::StartVideo,
        AppCommand::StopVideo,
        AppCommand::SwitchMusic,
        AppCommand::PlayPause,
        AppCommand::Volume,
        AppCommand::AnswerHangup,
        AppCommand::VoiceRecording,
        AppCommand::PullImage,
        AppCommand::PullThumbnailStatus,
        AppCommand::OpenWifiFiles,
        AppCommand::GetFileCount,
        AppCommand::FileDownloadComplete,
        AppCommand::GetDeviceStatus,
        AppCommand::GetSwitchStates,
        AppCommand::GetVersions,
        AppCommand::InterruptVoice,
        AppCommand::RetransmitVoice,
        AppCommand::SendPhoneTime,
        AppCommand::Reboot,
        AppCommand::Orientation,
        AppCommand::OfflineVoiceLang,
        AppCommand::EnterUpgrade,
        AppCommand::GetProjectName,
        AppCommand::SendIspVersion,
        AppCommand::OpenWifiLive,
        AppCommand::GetVolumes,
        AppCommand::SetVolume,
        AppCommand::GetVoiceDisableState,
        AppCommand::GetCapabilities,
    ];

    /// The wire byte.
    pub open spec fn spec_code(self) -> u8 {
        match self {
            AppCommand::SetLed => 0x01,
            AppCommand::SetRecordDuration => 0x02,
            AppCommand::WearDetection => 0x04,
            AppCommand::VoiceCommand => 0x06,
            AppCommand::SetGestureSwipeForward => 0x07,
            AppCommand::SetGestureSwipeBack => 0x08,
            AppCommand::SetGestureSingleTap => 0x09,
            AppCommand::SetGestureDoubleTap => 0x10,
            AppCommand::SetGestureTripleTap => 0x11,
            AppCommand::FactoryReset => 0x14,
            AppCommand::GetBattery => 0x17,
            AppCommand::TakePhoto => 0x22,
            AppCommand::StartVideo => 0x23,
            AppCommand::StopVideo => 0x24,
            AppCommand::SwitchMusic => 0x30,
            AppCommand::PlayPause => 0x31,
            AppCommand::Volume => 0x32,
            AppCommand::AnswerHangup => 0x33,
            AppCommand::VoiceRecording => 0x34,
            AppCommand::PullImage => 0x36,
            AppCommand::PullThumbnailStatus => 0x37,
            AppCommand::OpenWifiFiles => 0x39,
            AppCommand::GetFileCount => 0x40,
            AppCommand::FileDownloadComplete => 0x44,
            AppCommand::GetDeviceStatus => 0x45,
            AppCommand::GetSwitchStates => 0x48,
            AppCommand::GetVersions => 0x55,
            AppCommand::InterruptVoice => 0x56,
            AppCommand::RetransmitVoice => 0x57,
            AppCommand::SendPhoneTime => 0x59,
            AppCommand::Reboot => 0x60,
            AppCommand::Orientation => 0x61,
            AppCommand::OfflineVoiceLang => 0x62,
            AppCommand::EnterUpgrade => 0x63,
            AppCommand::GetProjectName => 0x64,
            AppCommand::SendIspVersion => 0x65,
            AppCommand::OpenWifiLive => 0x67,
            AppCommand::GetVolumes => 0x69,
            AppCommand::SetVolume => 0x70,
            AppCommand::GetVoiceDisableState => 0x71,
            AppCommand::GetCapabilities => 0x95,
        }
    }

    /// The wire byte.
    #[verifier::when_used_as_spec(spec_code)]
    pub fn code(self) -> (code: u8)
        ensures
            code == self.code(),
    {
        match self {
            AppCommand::SetLed => 0x01,
            AppCommand::SetRecordDuration => 0x02,
            AppCommand::WearDetection => 0x04,
            AppCommand::VoiceCommand => 0x06,
            AppCommand::SetGestureSwipeForward => 0x07,
            AppCommand::SetGestureSwipeBack => 0x08,
            AppCommand::SetGestureSingleTap => 0x09,
            AppCommand::SetGestureDoubleTap => 0x10,
            AppCommand::SetGestureTripleTap => 0x11,
            AppCommand::FactoryReset => 0x14,
            AppCommand::GetBattery => 0x17,
            AppCommand::TakePhoto => 0x22,
            AppCommand::StartVideo => 0x23,
            AppCommand::StopVideo => 0x24,
            AppCommand::SwitchMusic => 0x30,
            AppCommand::PlayPause => 0x31,
            AppCommand::Volume => 0x32,
            AppCommand::AnswerHangup => 0x33,
            AppCommand::VoiceRecording => 0x34,
            AppCommand::PullImage => 0x36,
            AppCommand::PullThumbnailStatus => 0x37,
            AppCommand::OpenWifiFiles => 0x39,
            AppCommand::GetFileCount => 0x40,
            AppCommand::FileDownloadComplete => 0x44,
            AppCommand::GetDeviceStatus => 0x45,
            AppCommand::GetSwitchStates => 0x48,
            AppCommand::GetVersions => 0x55,
            AppCommand::InterruptVoice => 0x56,
            AppCommand::RetransmitVoice => 0x57,
            AppCommand::SendPhoneTime => 0x59,
            AppCommand::Reboot => 0x60,
            AppCommand::Orientation => 0x61,
            AppCommand::OfflineVoiceLang => 0x62,
            AppCommand::EnterUpgrade => 0x63,
            AppCommand::GetProjectName => 0x64,
            AppCommand::SendIspVersion => 0x65,
            AppCommand::OpenWifiLive => 0x67,
            AppCommand::GetVolumes => 0x69,
            AppCommand::SetVolume => 0x70,
            AppCommand::GetVoiceDisableState => 0x71,
            AppCommand::GetCapabilities => 0x95,
        }
    }

    /// Every variant has its place in [`Self::ALL`].
    proof fn lemma_all_complete(self) -> (i: int)
        ensures
            0 <= i < Self::ALL@.len(),
            Self::ALL@[i] == self,
    {
        match self {
            AppCommand::SetLed => 0,
            AppCommand::SetRecordDuration => 1,
            AppCommand::WearDetection => 2,
            AppCommand::VoiceCommand => 3,
            AppCommand::SetGestureSwipeForward => 4,
            AppCommand::SetGestureSwipeBack => 5,
            AppCommand::SetGestureSingleTap => 6,
            AppCommand::SetGestureDoubleTap => 7,
            AppCommand::SetGestureTripleTap => 8,
            AppCommand::FactoryReset => 9,
            AppCommand::GetBattery => 10,
            AppCommand::TakePhoto => 11,
            AppCommand::StartVideo => 12,
            AppCommand::StopVideo => 13,
            AppCommand::SwitchMusic => 14,
            AppCommand::PlayPause => 15,
            AppCommand::Volume => 16,
            AppCommand::AnswerHangup => 17,
            AppCommand::VoiceRecording => 18,
            AppCommand::PullImage => 19,
            AppCommand::PullThumbnailStatus => 20,
            AppCommand::OpenWifiFiles => 21,
            AppCommand::GetFileCount => 22,
            AppCommand::FileDownloadComplete => 23,
            AppCommand::GetDeviceStatus => 24,
            AppCommand::GetSwitchStates => 25,
            AppCommand::GetVersions => 26,
            AppCommand::InterruptVoice => 27,
            AppCommand::RetransmitVoice => 28,
            AppCommand::SendPhoneTime => 29,
            AppCommand::Reboot => 30,
            AppCommand::Orientation => 31,
            AppCommand::OfflineVoiceLang => 32,
            AppCommand::EnterUpgrade => 33,
            AppCommand::GetProjectName => 34,
            AppCommand::SendIspVersion => 35,
            AppCommand::OpenWifiLive => 36,
            AppCommand::GetVolumes => 37,
            AppCommand::SetVolume => 38,
            AppCommand::GetVoiceDisableState => 39,
            AppCommand::GetCapabilities => 40,
        }
    }

    /// The variant with this wire byte, if there is one.
    pub open spec fn of_code(code: u8) -> Option<AppCommand> {
        match code {
            0x01 => Some(AppCommand::SetLed),
            0x02 => Some(AppCommand::SetRecordDuration),
            0x04 => Some(AppCommand::WearDetection),
            0x06 => Some(AppCommand::VoiceCommand),
            0x07 => Some(AppCommand::SetGestureSwipeForward),
            0x08 => Some(AppCommand::SetGestureSwipeBack),
            0x09 => Some(AppCommand::SetGestureSingleTap),
            0x10 => Some(AppCommand::SetGestureDoubleTap),
            0x11 => Some(AppCommand::SetGestureTripleTap),
            0x14 => Some(AppCommand::FactoryReset),
            0x17 => Some(AppCommand::GetBattery),
            0x22 => Some(AppCommand::TakePhoto),
            0x23 => Some(AppCommand::StartVideo),
            0x24 => Some(AppCommand::StopVideo),
            0x30 => Some(AppCommand::SwitchMusic),
            0x31 => Some(AppCommand::PlayPause),
            0x32 => Some(AppCommand::Volume),
            0x33 => Some(AppCommand::AnswerHangup),
            0x34 => Some(AppCommand::VoiceRecording),
            0x36 => Some(AppCommand::PullImage),
            0x37 => Some(AppCommand::PullThumbnailStatus),
            0x39 => Some(AppCommand::OpenWifiFiles),
            0x40 => Some(AppCommand::GetFileCount),
            0x44 => Some(AppCommand::FileDownloadComplete),
            0x45 => Some(AppCommand::GetDeviceStatus),
            0x48 => Some(AppCommand::GetSwitchStates),
            0x55 => Some(AppCommand::GetVersions),
            0x56 => Some(AppCommand::InterruptVoice),
            0x57 => Some(AppCommand::RetransmitVoice),
            0x59 => Some(AppCommand::SendPhoneTime),
            0x60 => Some(AppCommand::Reboot),
            0x61 => Some(AppCommand::Orientation),
            0x62 => Some(AppCommand::OfflineVoiceLang),
            0x63 => Some(AppCommand::EnterUpgrade),
            0x64 => Some(AppCommand::GetProjectName),
            0x65 => Some(AppCommand::SendIspVersion),
            0x67 => Some(AppCommand::OpenWifiLive),
            0x69 => Some(AppCommand::GetVolumes),
            0x70 => Some(AppCommand::SetVolume),
            0x71 => Some(AppCommand::GetVoiceDisableState),
            0x95 => Some(AppCommand::GetCapabilities),
            _ => None,
        }
    }

    /// The variant with this wire byte, or `None` if there is none.
    pub fn from_code(code: u8) -> (r: Option<AppCommand>)
        ensures
            r == Self::of_code(code),
            match r {
                Some(c) => c.code() == code,
                None => forall|c: AppCommand| c.code() != code,
            },
    {
        match code {
            0x01 => Some(AppCommand::SetLed),
            0x02 => Some(AppCommand::SetRecordDuration),
            0x04 => Some(AppCommand::WearDetection),
            0x06 => Some(AppCommand::VoiceCommand),
            0x07 => Some(AppCommand::SetGestureSwipeForward),
            0x08 => Some(AppCommand::SetGestureSwipeBack),
            0x09 => Some(AppCommand::SetGestureSingleTap),
            0x10 => Some(AppCommand::SetGestureDoubleTap),
            0x11 => Some(AppCommand::SetGestureTripleTap),
            0x14 => Some(AppCommand::FactoryReset),
            0x17 => Some(AppCommand::GetBattery),
            0x22 => Some(AppCommand::TakePhoto),
            0x23 => Some(AppCommand::StartVideo),
            0x24 => Some(AppCommand::StopVideo),
            0x30 => Some(AppCommand::SwitchMusic),
            0x31 => Some(AppCommand::PlayPause),
            0x32 => Some(AppCommand::Volume),
            0x33 => Some(AppCommand::AnswerHangup),
            0x34 => Some(AppCommand::VoiceRecording),
            0x36 => Some(AppCommand::PullImage),
            0x37 => Some(AppCommand::PullThumbnailStatus),
            0x39 => Some(AppCommand::OpenWifiFiles),
            0x40 => Some(AppCommand::GetFileCount),
            0x44 => Some(AppCommand::FileDownloadComplete),
            0x45 => Some(AppCommand::GetDeviceStatus),
            0x48 => Some(AppCommand::GetSwitchStates),
            0x55 => Some(AppCommand::GetVersions),
            0x56 => Some(AppCommand::InterruptVoice),
            0x57 => Some(AppCommand::RetransmitVoice),
            0x59 => Some(AppCommand::SendPhoneTime),
            0x60 => Some(AppCommand::Reboot),
            0x61 => Some(AppCommand::Orientation),
            0x62 => Some(AppCommand::OfflineVoiceLang),
            0x63 => Some(AppCommand::EnterUpgrade),
            0x64 => Some(AppCommand::GetProjectName),
            0x65 => Some(AppCommand::SendIspVersion),
            0x67 => Some(AppCommand::OpenWifiLive),
            0x69 => Some(AppCommand::GetVolumes),
            0x70 => Some(AppCommand::SetVolume),
            0x71 => Some(AppCommand::GetVoiceDisableState),
            0x95 => Some(AppCommand::GetCapabilities),
            _ => None,
        }
    }

    /// What backs this opcode.
    pub open spec fn spec_evidence(self) -> Evidence {
        match self {
            AppCommand::SetLed
            | AppCommand::SetRecordDuration
            | AppCommand::WearDetection
            | AppCommand::VoiceCommand
            | AppCommand::SetGestureSwipeForward
            | AppCommand::SetGestureSwipeBack
            | AppCommand::SetGestureSingleTap
            | AppCommand::SetGestureDoubleTap
            | AppCommand::SetGestureTripleTap
            | AppCommand::GetBattery
            | AppCommand::TakePhoto
            | AppCommand::StartVideo
            | AppCommand::StopVideo
            | AppCommand::SwitchMusic
            | AppCommand::PlayPause
            | AppCommand::Volume
            | AppCommand::VoiceRecording
            | AppCommand::OpenWifiFiles
            | AppCommand::GetFileCount
            | AppCommand::FileDownloadComplete
            | AppCommand::GetDeviceStatus
            | AppCommand::GetSwitchStates
            | AppCommand::GetVersions
            | AppCommand::InterruptVoice
            | AppCommand::SendPhoneTime
            | AppCommand::Orientation
            | AppCommand::GetProjectName
            | AppCommand::OpenWifiLive
            | AppCommand::GetVolumes
            | AppCommand::SetVolume
            | AppCommand::GetVoiceDisableState
            | AppCommand::GetCapabilities => Evidence::Capture,
            AppCommand::PullImage
            | AppCommand::PullThumbnailStatus => Evidence::DeviceProbe,
            AppCommand::FactoryReset
            | AppCommand::AnswerHangup
            | AppCommand::RetransmitVoice
            | AppCommand::Reboot
            | AppCommand::OfflineVoiceLang
            | AppCommand::EnterUpgrade
            | AppCommand::SendIspVersion => Evidence::ClientOnly,
        }
    }

    /// What backs this opcode.
    #[verifier::when_used_as_spec(spec_evidence)]
    pub fn evidence(self) -> (level: Evidence)
        ensures
            level == self.evidence(),
    {
        match self {
            AppCommand::SetLed
            | AppCommand::SetRecordDuration
            | AppCommand::WearDetection
            | AppCommand::VoiceCommand
            | AppCommand::SetGestureSwipeForward
            | AppCommand::SetGestureSwipeBack
            | AppCommand::SetGestureSingleTap
            | AppCommand::SetGestureDoubleTap
            | AppCommand::SetGestureTripleTap
            | AppCommand::GetBattery
            | AppCommand::TakePhoto
            | AppCommand::StartVideo
            | AppCommand::StopVideo
            | AppCommand::SwitchMusic
            | AppCommand::PlayPause
            | AppCommand::Volume
            | AppCommand::VoiceRecording
            | AppCommand::OpenWifiFiles
            | AppCommand::GetFileCount
            | AppCommand::FileDownloadComplete
            | AppCommand::GetDeviceStatus
            | AppCommand::GetSwitchStates
            | AppCommand::GetVersions
            | AppCommand::InterruptVoice
            | AppCommand::SendPhoneTime
            | AppCommand::Orientation
            | AppCommand::GetProjectName
            | AppCommand::OpenWifiLive
            | AppCommand::GetVolumes
            | AppCommand::SetVolume
            | AppCommand::GetVoiceDisableState
            | AppCommand::GetCapabilities => Evidence::Capture,
            AppCommand::PullImage
            | AppCommand::PullThumbnailStatus => Evidence::DeviceProbe,
            AppCommand::FactoryReset
            | AppCommand::AnswerHangup
            | AppCommand::RetransmitVoice
            | AppCommand::Reboot
            | AppCommand::OfflineVoiceLang
            | AppCommand::EnterUpgrade
            | AppCommand::SendIspVersion => Evidence::ClientOnly,
        }
    }
}

/// Device to app push bytes. A byte that is not one of these is usually the echo of a
/// setter, not corruption.
#[derive(Debug, Clone, Copy, PartialEq, Eq, PartialOrd, Ord, Hash, Structural)]
pub enum DeviceUpload {
    /// `0x25`: the SoftAP's SSID.
    WifiName,
    /// `0x42`: how many files are waiting.
    ThumbnailCount,
    /// `0x45`: the ten action-sync flags.
    ActionSync,
    /// `0x46`: one voice packet.
    VoiceData,
    /// `0x49`: the device abandoned the voice capture.
    AbandonVoice,
    /// `0x51`: the wearer cancelled the spoken answer.
    CancelAiBroadcast,
    /// `0x52`: the AI image failed.
    HdImageFailed,
    /// `0x53`: battery push, with a raw percentage.
    ChargeBattery,
    /// `0x69`: the three output levels.
    Volumes,
    /// `0x96`: ISP upgrade finished.
    IspUpgradeDone,
    /// `0x97`: wake-word capture started.
    VoiceUploadStart,
    /// `0x99`: voice capture ended; never sent by this firmware.
    VoiceUploadEnd,
}

impl DeviceUpload {
    /// Every device to app push opcode, ascending by wire byte.
    pub const ALL: [DeviceUpload; 12] = [
        DeviceUpload::WifiName,
        DeviceUpload::ThumbnailCount,
        DeviceUpload::ActionSync,
        DeviceUpload::VoiceData,
        DeviceUpload::AbandonVoice,
        DeviceUpload::CancelAiBroadcast,
        DeviceUpload::HdImageFailed,
        DeviceUpload::ChargeBattery,
        DeviceUpload::Volumes,
        DeviceUpload::IspUpgradeDone,
        DeviceUpload::VoiceUploadStart,
        DeviceUpload::VoiceUploadEnd,
    ];

    /// The wire byte.
    pub open spec fn spec_code(self) -> u8 {
        match self {
            DeviceUpload::WifiName => 0x25,
            DeviceUpload::ThumbnailCount => 0x42,
            DeviceUpload::ActionSync => 0x45,
            DeviceUpload::VoiceData => 0x46,
            DeviceUpload::AbandonVoice => 0x49,
            DeviceUpload::CancelAiBroadcast => 0x51,
            DeviceUpload::HdImageFailed => 0x52,
            DeviceUpload::ChargeBattery => 0x53,
            DeviceUpload::Volumes => 0x69,
            DeviceUpload::IspUpgradeDone => 0x96,
            DeviceUpload::VoiceUploadStart => 0x97,
            DeviceUpload::VoiceUploadEnd => 0x99,
        }
    }

    /// The wire byte.
    #[verifier::when_used_as_spec(spec_code)]
    pub fn code(self) -> (code: u8)
        ensures
            code == self.code(),
    {
        match self {
            DeviceUpload::WifiName => 0x25,
            DeviceUpload::ThumbnailCount => 0x42,
            DeviceUpload::ActionSync => 0x45,
            DeviceUpload::VoiceData => 0x46,
            DeviceUpload::AbandonVoice => 0x49,
            DeviceUpload::CancelAiBroadcast => 0x51,
            DeviceUpload::HdImageFailed => 0x52,
            DeviceUpload::ChargeBattery => 0x53,
            DeviceUpload::Volumes => 0x69,
            DeviceUpload::IspUpgradeDone => 0x96,
            DeviceUpload::VoiceUploadStart => 0x97,
            DeviceUpload::VoiceUploadEnd => 0x99,
        }
    }

    /// Every variant has its place in [`Self::ALL`].
    proof fn lemma_all_complete(self) -> (i: int)
        ensures
            0 <= i < Self::ALL@.len(),
            Self::ALL@[i] == self,
    {
        match self {
            DeviceUpload::WifiName => 0,
            DeviceUpload::ThumbnailCount => 1,
            DeviceUpload::ActionSync => 2,
            DeviceUpload::VoiceData => 3,
            DeviceUpload::AbandonVoice => 4,
            DeviceUpload::CancelAiBroadcast => 5,
            DeviceUpload::HdImageFailed => 6,
            DeviceUpload::ChargeBattery => 7,
            DeviceUpload::Volumes => 8,
            DeviceUpload::IspUpgradeDone => 9,
            DeviceUpload::VoiceUploadStart => 10,
            DeviceUpload::VoiceUploadEnd => 11,
        }
    }

    /// The variant with this wire byte, if there is one.
    pub open spec fn of_code(code: u8) -> Option<DeviceUpload> {
        match code {
            0x25 => Some(DeviceUpload::WifiName),
            0x42 => Some(DeviceUpload::ThumbnailCount),
            0x45 => Some(DeviceUpload::ActionSync),
            0x46 => Some(DeviceUpload::VoiceData),
            0x49 => Some(DeviceUpload::AbandonVoice),
            0x51 => Some(DeviceUpload::CancelAiBroadcast),
            0x52 => Some(DeviceUpload::HdImageFailed),
            0x53 => Some(DeviceUpload::ChargeBattery),
            0x69 => Some(DeviceUpload::Volumes),
            0x96 => Some(DeviceUpload::IspUpgradeDone),
            0x97 => Some(DeviceUpload::VoiceUploadStart),
            0x99 => Some(DeviceUpload::VoiceUploadEnd),
            _ => None,
        }
    }

    /// The variant with this wire byte, or `None` if there is none.
    pub fn from_code(code: u8) -> (r: Option<DeviceUpload>)
        ensures
            r == Self::of_code(code),
            match r {
                Some(c) => c.code() == code,
                None => forall|c: DeviceUpload| c.code() != code,
            },
    {
        match code {
            0x25 => Some(DeviceUpload::WifiName),
            0x42 => Some(DeviceUpload::ThumbnailCount),
            0x45 => Some(DeviceUpload::ActionSync),
            0x46 => Some(DeviceUpload::VoiceData),
            0x49 => Some(DeviceUpload::AbandonVoice),
            0x51 => Some(DeviceUpload::CancelAiBroadcast),
            0x52 => Some(DeviceUpload::HdImageFailed),
            0x53 => Some(DeviceUpload::ChargeBattery),
            0x69 => Some(DeviceUpload::Volumes),
            0x96 => Some(DeviceUpload::IspUpgradeDone),
            0x97 => Some(DeviceUpload::VoiceUploadStart),
            0x99 => Some(DeviceUpload::VoiceUploadEnd),
            _ => None,
        }
    }

    /// What backs this opcode.
    pub open spec fn spec_evidence(self) -> Evidence {
        match self {
            DeviceUpload::WifiName
            | DeviceUpload::ThumbnailCount
            | DeviceUpload::ActionSync
            | DeviceUpload::VoiceData
            | DeviceUpload::ChargeBattery
            | DeviceUpload::Volumes
            | DeviceUpload::VoiceUploadStart => Evidence::Capture,
            DeviceUpload::AbandonVoice
            | DeviceUpload::CancelAiBroadcast
            | DeviceUpload::HdImageFailed
            | DeviceUpload::IspUpgradeDone
            | DeviceUpload::VoiceUploadEnd => Evidence::ClientOnly,
        }
    }

    /// What backs this opcode.
    #[verifier::when_used_as_spec(spec_evidence)]
    pub fn evidence(self) -> (level: Evidence)
        ensures
            level == self.evidence(),
    {
        match self {
            DeviceUpload::WifiName
            | DeviceUpload::ThumbnailCount
            | DeviceUpload::ActionSync
            | DeviceUpload::VoiceData
            | DeviceUpload::ChargeBattery
            | DeviceUpload::Volumes
            | DeviceUpload::VoiceUploadStart => Evidence::Capture,
            DeviceUpload::AbandonVoice
            | DeviceUpload::CancelAiBroadcast
            | DeviceUpload::HdImageFailed
            | DeviceUpload::IspUpgradeDone
            | DeviceUpload::VoiceUploadEnd => Evidence::ClientOnly,
        }
    }
}

/// The five touchpad gesture slots reported in the `0x48` burst. The slot ids are on the wire;
/// which physical gesture a slot is rests on the captured defaults.
#[derive(Debug, Clone, Copy, PartialEq, Eq, PartialOrd, Ord, Hash, Structural)]
pub enum GestureSlot {
    /// `0x07`: swipe forward, captured default '0'.
    SwipeForward,
    /// `0x08`: swipe back, captured default '1'.
    SwipeBack,
    /// `0x09`: single tap, captured default '2'.
    SingleTap,
    /// `0x10`: double tap, captured default '4'.
    DoubleTap,
    /// `0x11`: triple tap, captured default '3'.
    TripleTap,
}

impl GestureSlot {
    /// All five slots, in the order the burst emits them.
    pub const ALL: [GestureSlot; 5] = [
        GestureSlot::SwipeForward,
        GestureSlot::SwipeBack,
        GestureSlot::SingleTap,
        GestureSlot::DoubleTap,
        GestureSlot::TripleTap,
    ];

    /// The wire byte.
    pub open spec fn spec_code(self) -> u8 {
        match self {
            GestureSlot::SwipeForward => 0x07,
            GestureSlot::SwipeBack => 0x08,
            GestureSlot::SingleTap => 0x09,
            GestureSlot::DoubleTap => 0x10,
            GestureSlot::TripleTap => 0x11,
        }
    }

    /// The wire byte.
    #[verifier::when_used_as_spec(spec_code)]
    pub fn code(self) -> (code: u8)
        ensures
            code == self.code(),
    {
        match self {
            GestureSlot::SwipeForward => 0x07,
            GestureSlot::SwipeBack => 0x08,
            GestureSlot::SingleTap => 0x09,
            GestureSlot::DoubleTap => 0x10,
            GestureSlot::TripleTap => 0x11,
        }
    }

    /// Every variant has its place in [`Self::ALL`].
    proof fn lemma_all_complete(self) -> (i: int)
        ensures
            0 <= i < Self::ALL@.len(),
            Self::ALL@[i] == self,
    {
        match self {
            GestureSlot::SwipeForward => 0,
            GestureSlot::SwipeBack => 1,
            GestureSlot::SingleTap => 2,
            GestureSlot::DoubleTap => 3,
            GestureSlot::TripleTap => 4,
        }
    }

    /// The variant with this wire byte, if there is one.
    pub open spec fn of_code(code: u8) -> Option<GestureSlot> {
        match code {
            0x07 => Some(GestureSlot::SwipeForward),
            0x08 => Some(GestureSlot::SwipeBack),
            0x09 => Some(GestureSlot::SingleTap),
            0x10 => Some(GestureSlot::DoubleTap),
            0x11 => Some(GestureSlot::TripleTap),
            _ => None,
        }
    }

    /// The variant with this wire byte, or `None` if there is none.
    pub fn from_code(code: u8) -> (r: Option<GestureSlot>)
        ensures
            r == Self::of_code(code),
            match r {
                Some(c) => c.code() == code,
                None => forall|c: GestureSlot| c.code() != code,
            },
    {
        match code {
            0x07 => Some(GestureSlot::SwipeForward),
            0x08 => Some(GestureSlot::SwipeBack),
            0x09 => Some(GestureSlot::SingleTap),
            0x10 => Some(GestureSlot::DoubleTap),
            0x11 => Some(GestureSlot::TripleTap),
            _ => None,
        }
    }

    /// The ASCII digit each slot carries on a factory-default unit, in [`Self::ALL`] order.
    pub const CAPTURED_DEFAULTS: [u8; 5] = [0x30, 0x31, 0x32, 0x34, 0x33];

    /// The setter command that carries this slot.
    pub open spec fn spec_command(self) -> AppCommand {
        match self {
            GestureSlot::SwipeForward => AppCommand::SetGestureSwipeForward,
            GestureSlot::SwipeBack => AppCommand::SetGestureSwipeBack,
            GestureSlot::SingleTap => AppCommand::SetGestureSingleTap,
            GestureSlot::DoubleTap => AppCommand::SetGestureDoubleTap,
            GestureSlot::TripleTap => AppCommand::SetGestureTripleTap,
        }
    }

    /// The setter command that carries this slot: the same byte.
    #[verifier::when_used_as_spec(spec_command)]
    pub fn command(self) -> (c: AppCommand)
        ensures
            c == self.command(),
            c.code() == self.code(),
    {
        match self {
            GestureSlot::SwipeForward => AppCommand::SetGestureSwipeForward,
            GestureSlot::SwipeBack => AppCommand::SetGestureSwipeBack,
            GestureSlot::SingleTap => AppCommand::SetGestureSingleTap,
            GestureSlot::DoubleTap => AppCommand::SetGestureDoubleTap,
            GestureSlot::TripleTap => AppCommand::SetGestureTripleTap,
        }
    }
}

/// The action a gesture slot is bound to.
#[derive(Debug, Clone, Copy, PartialEq, Eq, PartialOrd, Ord, Hash, Structural)]
pub enum GestureAction {
    VolumeDown,
    VolumeUp,
    PlayPause,
    NextTrack,
    PreviousTrack,
}

impl GestureAction {
    pub const ALL: [GestureAction; 5] = [
        GestureAction::VolumeDown,
        GestureAction::VolumeUp,
        GestureAction::PlayPause,
        GestureAction::NextTrack,
        GestureAction::PreviousTrack,
    ];

    /// The digit's numeric value, not the wire byte.
    pub open spec fn spec_ordinal(self) -> u8 {
        match self {
            GestureAction::VolumeDown => 0,
            GestureAction::VolumeUp => 1,
            GestureAction::PlayPause => 2,
            GestureAction::NextTrack => 3,
            GestureAction::PreviousTrack => 4,
        }
    }

    /// The digit's numeric value, not the wire byte.
    #[verifier::when_used_as_spec(spec_ordinal)]
    pub fn ordinal(self) -> (n: u8)
        ensures
            n == self.ordinal(),
    {
        match self {
            GestureAction::VolumeDown => 0,
            GestureAction::VolumeUp => 1,
            GestureAction::PlayPause => 2,
            GestureAction::NextTrack => 3,
            GestureAction::PreviousTrack => 4,
        }
    }

    /// The ASCII byte that appears in a slot frame.
    pub open spec fn spec_ascii(self) -> u8 {
        (0x30 + self.ordinal()) as u8
    }

    /// The ASCII byte that appears in a slot frame.
    #[verifier::when_used_as_spec(spec_ascii)]
    pub fn ascii(self) -> (byte: u8)
        ensures
            byte == self.ascii(),
    {
        0x30 + self.ordinal()
    }

    /// The action that a slot frame's value byte stands for: the ASCII digit every captured
    /// firmware sends, or a raw ordinal. Anything else is no action rather than a clamp.
    pub open spec fn of_value(byte: u8) -> Option<GestureAction> {
        match digit_value(byte) {
            0 => Some(GestureAction::VolumeDown),
            1 => Some(GestureAction::VolumeUp),
            2 => Some(GestureAction::PlayPause),
            3 => Some(GestureAction::NextTrack),
            4 => Some(GestureAction::PreviousTrack),
            _ => None,
        }
    }

    /// Decode a slot frame's value byte.
    pub fn from_value(byte: u8) -> (r: Option<GestureAction>)
        ensures
            r == GestureAction::of_value(byte),
    {
        let ordinal: u8 = if byte >= 0x30 && byte <= 0x39 {
            byte - 0x30
        } else {
            byte
        };
        match ordinal {
            0 => Some(GestureAction::VolumeDown),
            1 => Some(GestureAction::VolumeUp),
            2 => Some(GestureAction::PlayPause),
            3 => Some(GestureAction::NextTrack),
            4 => Some(GestureAction::PreviousTrack),
            _ => None,
        }
    }
}

/// A byte read as an ASCII digit where it is one, and as a raw number where it is not.
pub open spec fn digit_value(byte: u8) -> u8 {
    if 0x30 <= byte <= 0x39 {
        (byte - 0x30) as u8
    } else {
        byte
    }
}

/// The three independently addressable output levels.
#[derive(Debug, Clone, Copy, PartialEq, Eq, PartialOrd, Ord, Hash, Structural)]
pub enum VolumeChannel {
    /// `0x00`: system sounds.
    System,
    /// `0x01`: media.
    Media,
    /// `0x02`: calls.
    Call,
}

impl VolumeChannel {
    /// In the order a `0x69` reply lists them.
    pub const ALL: [VolumeChannel; 3] = [
        VolumeChannel::System,
        VolumeChannel::Media,
        VolumeChannel::Call,
    ];

    /// The wire byte.
    pub open spec fn spec_code(self) -> u8 {
        match self {
            VolumeChannel::System => 0x00,
            VolumeChannel::Media => 0x01,
            VolumeChannel::Call => 0x02,
        }
    }

    /// The wire byte.
    #[verifier::when_used_as_spec(spec_code)]
    pub fn code(self) -> (code: u8)
        ensures
            code == self.code(),
    {
        match self {
            VolumeChannel::System => 0x00,
            VolumeChannel::Media => 0x01,
            VolumeChannel::Call => 0x02,
        }
    }

    /// Every variant has its place in [`Self::ALL`].
    proof fn lemma_all_complete(self) -> (i: int)
        ensures
            0 <= i < Self::ALL@.len(),
            Self::ALL@[i] == self,
    {
        match self {
            VolumeChannel::System => 0,
            VolumeChannel::Media => 1,
            VolumeChannel::Call => 2,
        }
    }

    /// The variant with this wire byte, if there is one.
    pub open spec fn of_code(code: u8) -> Option<VolumeChannel> {
        match code {
            0x00 => Some(VolumeChannel::System),
            0x01 => Some(VolumeChannel::Media),
            0x02 => Some(VolumeChannel::Call),
            _ => None,
        }
    }

    /// The variant with this wire byte, or `None` if there is none.
    pub fn from_code(code: u8) -> (r: Option<VolumeChannel>)
        ensures
            r == Self::of_code(code),
            match r {
                Some(c) => c.code() == code,
                None => forall|c: VolumeChannel| c.code() != code,
            },
    {
        match code {
            0x00 => Some(VolumeChannel::System),
            0x01 => Some(VolumeChannel::Media),
            0x02 => Some(VolumeChannel::Call),
            _ => None,
        }
    }
}

/// The exact order of the `0x48` switch-state burst, as ten separate frames. The offline voice
/// language is never reported.
pub const SWITCH_STATE_BURST_ORDER: [AppCommand; 10] = [
    AppCommand::SetLed,
    AppCommand::SetRecordDuration,
    AppCommand::WearDetection,
    AppCommand::VoiceCommand,
    AppCommand::SetGestureSwipeForward,
    AppCommand::SetGestureSwipeBack,
    AppCommand::SetGestureSingleTap,
    AppCommand::SetGestureDoubleTap,
    AppCommand::SetGestureTripleTap,
    AppCommand::Orientation,
];

/// Opcodes that have a name but that no client implements and no capture has produced. They are
/// deliberately not commands.
pub const VENDOR_NAMED_UNIMPLEMENTED: [(u8, &'static str); 5] = [
    (0x03, "microphone"),
    (0x16, "capacity"),
    (0x35, "camera style"),
    (0x43, "gesture recover"),
    (0x50, "camera mode"),
];

/// No two commands share a wire byte, nor do two uploads, two slots or two volume channels.
pub proof fn lemma_codes_are_distinct()
    ensures
        forall|a: AppCommand, b: AppCommand| a.code() == b.code() ==> a == b,
        forall|a: DeviceUpload, b: DeviceUpload| a.code() == b.code() ==> a == b,
        forall|a: GestureSlot, b: GestureSlot| a.code() == b.code() ==> a == b,
        forall|a: VolumeChannel, b: VolumeChannel| a.code() == b.code() ==> a == b,
        forall|a: GestureAction, b: GestureAction| a.ordinal() == b.ordinal() ==> a == b,
{
}

/// The lists are complete, and ascend by wire byte.
pub proof fn lemma_lists_are_complete()
    ensures
        forall|c: AppCommand| #[trigger] AppCommand::ALL@.contains(c),
        forall|c: DeviceUpload| #[trigger] DeviceUpload::ALL@.contains(c),
        forall|c: GestureSlot| #[trigger] GestureSlot::ALL@.contains(c),
        forall|c: VolumeChannel| #[trigger] VolumeChannel::ALL@.contains(c),
        forall|i: int, j: int|
            0 <= i < j < AppCommand::ALL@.len() ==> (#[trigger] AppCommand::ALL@[i]).code() < (
            #[trigger] AppCommand::ALL@[j]).code(),
        forall|i: int, j: int|
            0 <= i < j < DeviceUpload::ALL@.len() ==> (#[trigger] DeviceUpload::ALL@[i]).code() < (
            #[trigger] DeviceUpload::ALL@[j]).code(),
{
    assert forall|c: AppCommand| #[trigger] AppCommand::ALL@.contains(c) by {
        let i = c.lemma_all_complete();
    }
    assert forall|c: DeviceUpload| #[trigger] DeviceUpload::ALL@.contains(c) by {
        let i = c.lemma_all_complete();
    }
    assert forall|c: GestureSlot| #[trigger] GestureSlot::ALL@.contains(c) by {
        let i = c.lemma_all_complete();
    }
    assert forall|c: VolumeChannel| #[trigger] VolumeChannel::ALL@.contains(c) by {
        let i = c.lemma_all_complete();
    }
}

/// Exactly two bytes are used in both directions.
pub proof fn lemma_shared_bytes(c: AppCommand, u: DeviceUpload)
    ensures
        c.code() == u.code() <==> {
            ||| c == AppCommand::GetDeviceStatus && u == DeviceUpload::ActionSync
            ||| c == AppCommand::GetVolumes && u == DeviceUpload::Volumes
        },
{
}

/// A slot frame's value byte survives: both the ASCII digit and the raw ordinal of an action
/// decode to it.
pub proof fn lemma_gesture_value_round_trip(a: GestureAction)
    ensures
        GestureAction::of_value(a.ascii()) == Some(a),
        GestureAction::of_value(a.ordinal()) == Some(a),
{
}

/// No byte that merely has a name is a command.
pub proof fn lemma_named_bytes_are_not_commands(i: int, c: AppCommand)
    requires
        0 <= i < VENDOR_NAMED_UNIMPLEMENTED@.len(),
    ensures
        c.code() != VENDOR_NAMED_UNIMPLEMENTED@[i].0,
{
}

/// The byte that each command is on the wire.
pub proof fn lemma_the_byte_of_each_command(c: AppCommand)
    ensures
        c == AppCommand::SetLed <==> c.code() == 0x01,
        c == AppCommand::SetRecordDuration <==> c.code() == 0x02,
        c == AppCommand::WearDetection <==> c.code() == 0x04,
        c == AppCommand::VoiceCommand <==> c.code() == 0x06,
        c == AppCommand::SetGestureSwipeForward <==> c.code() == 0x07,
        c == AppCommand::SetGestureSwipeBack <==> c.code() == 0x08,
        c == AppCommand::SetGestureSingleTap <==> c.code() == 0x09,
        c == AppCommand::SetGestureDoubleTap <==> c.code() == 0x10,
        c == AppCommand::SetGestureTripleTap <==> c.code() == 0x11,
        c == AppCommand::FactoryReset <==> c.code() == 0x14,
        c == AppCommand::GetBattery <==> c.code() == 0x17,
        c == AppCommand::TakePhoto <==> c.code() == 0x22,
        c == AppCommand::StartVideo <==> c.code() == 0x23,
        c == AppCommand::StopVideo <==> c.code() == 0x24,
        c == AppCommand::SwitchMusic <==> c.code() == 0x30,
        c == AppCommand::PlayPause <==> c.code() == 0x31,
        c == AppCommand::Volume <==> c.code() == 0x32,
        c == AppCommand::AnswerHangup <==> c.code() == 0x33,
        c == AppCommand::VoiceRecording <==> c.code() == 0x34,
        c == AppCommand::PullImage <==> c.code() == 0x36,
        c == AppCommand::PullThumbnailStatus <==> c.code() == 0x37,
        c == AppCommand::OpenWifiFiles <==> c.code() == 0x39,
        c == AppCommand::GetFileCount <==> c.code() == 0x40,
        c == AppCommand::FileDownloadComplete <==> c.code() == 0x44,
        c == AppCommand::GetDeviceStatus <==> c.code() == 0x45,
        c == AppCommand::GetSwitchStates <==> c.code() == 0x48,
        c == AppCommand::GetVersions <==> c.code() == 0x55,
        c == AppCommand::InterruptVoice <==> c.code() == 0x56,
        c == AppCommand::RetransmitVoice <==> c.code() == 0x57,
        c == AppCommand::SendPhoneTime <==> c.code() == 0x59,
        c == AppCommand::Reboot <==> c.code() == 0x60,
        c == AppCommand::Orientation <==> c.code() == 0x61,
        c == AppCommand::OfflineVoiceLang <==> c.code() == 0x62,
        c == AppCommand::EnterUpgrade <==> c.code() == 0x63,
        c == AppCommand::GetProjectName <==> c.code() == 0x64,
        c == AppCommand::SendIspVersion <==> c.code() == 0x65,
        c == AppCommand::OpenWifiLive <==> c.code() == 0x67,
        c == AppCommand::GetVolumes <==> c.code() == 0x69,
        c == AppCommand::SetVolume <==> c.code() == 0x70,
        c == AppCommand::GetVoiceDisableState <==> c.code() == 0x71,
        c == AppCommand::GetCapabilities <==> c.code() == 0x95,
{
}

/// The byte that each push of the glasses is on the wire.
pub proof fn lemma_the_byte_of_each_push(u: DeviceUpload)
    ensures
        u == DeviceUpload::WifiName <==> u.code() == 0x25,
        u == DeviceUpload::ThumbnailCount <==> u.code() == 0x42,
        u == DeviceUpload::ActionSync <==> u.code() == 0x45,
        u == DeviceUpload::VoiceData <==> u.code() == 0x46,
        u == DeviceUpload::AbandonVoice <==> u.code() == 0x49,
        u == DeviceUpload::CancelAiBroadcast <==> u.code() == 0x51,
        u == DeviceUpload::HdImageFailed <==> u.code() == 0x52,
        u == DeviceUpload::ChargeBattery <==> u.code() == 0x53,
        u == DeviceUpload::Volumes <==> u.code() == 0x69,
        u == DeviceUpload::IspUpgradeDone <==> u.code() == 0x96,
        u == DeviceUpload::VoiceUploadStart <==> u.code() == 0x97,
        u == DeviceUpload::VoiceUploadEnd <==> u.code() == 0x99,
{
}

/// A byte names the command that is sent as this byte, or none.
pub proof fn lemma_a_byte_names_its_command(byte: u8)
    ensures
        match AppCommand::of_code(byte) {
            Some(c) => c.code() == byte,
            None => forall|c: AppCommand| #[trigger] c.code() != byte,
        },
        match DeviceUpload::of_code(byte) {
            Some(u) => u.code() == byte,
            None => forall|u: DeviceUpload| #[trigger] u.code() != byte,
        },
        match GestureSlot::of_code(byte) {
            Some(s) => s.code() == byte,
            None => forall|s: GestureSlot| #[trigger] s.code() != byte,
        },
        match VolumeChannel::of_code(byte) {
            Some(v) => v.code() == byte,
            None => forall|v: VolumeChannel| #[trigger] v.code() != byte,
        },
{
}

/// Commands that nothing was ever seen to answer are known from clients alone; two were tried on a
/// device; the rest were seen in captures.
pub proof fn lemma_what_backs_a_command(c: AppCommand, u: DeviceUpload)
    ensures
        c.evidence() == Evidence::ClientOnly <==> {
            ||| c.code() == 0x14
            ||| c.code() == 0x33
            ||| c.code() == 0x57
            ||| c.code() == 0x60
            ||| c.code() == 0x62
            ||| c.code() == 0x63
            ||| c.code() == 0x65
        },
        c.evidence() == Evidence::DeviceProbe <==> c.code() == 0x36 || c.code() == 0x37,
        u.evidence() == Evidence::ClientOnly <==> {
            ||| u.code() == 0x49
            ||| u.code() == 0x51
            ||| u.code() == 0x52
            ||| u.code() == 0x96
            ||| u.code() == 0x99
        },
        u.evidence() != Evidence::DeviceProbe,
{
}

/// A gesture slot and the command that sets it are the same byte, and a volume channel is its place
/// among system, media and call.
pub proof fn lemma_slots_and_channels_by_byte(slot: GestureSlot, channel: VolumeChannel)
    ensures
        slot.command().code() == slot.code(),
        slot == GestureSlot::SwipeForward <==> slot.code() == 0x07,
        slot == GestureSlot::SwipeBack <==> slot.code() == 0x08,
        slot == GestureSlot::SingleTap <==> slot.code() == 0x09,
        slot == GestureSlot::DoubleTap <==> slot.code() == 0x10,
        slot == GestureSlot::TripleTap <==> slot.code() == 0x11,
        channel == VolumeChannel::System <==> channel.code() == 0,
        channel == VolumeChannel::Media <==> channel.code() == 1,
        channel == VolumeChannel::Call <==> channel.code() == 2,
{
}

/// An action's ASCII byte is the digit of its number, and both give the action back; no other byte
/// does.
pub proof fn lemma_a_gesture_value_is_one_of_two_bytes(byte: u8, action: GestureAction)
    ensures
        action.ascii() == 0x30 + action.ordinal(),
        action == GestureAction::VolumeDown <==> action.ordinal() == 0,
        action == GestureAction::VolumeUp <==> action.ordinal() == 1,
        action == GestureAction::PlayPause <==> action.ordinal() == 2,
        action == GestureAction::NextTrack <==> action.ordinal() == 3,
        action == GestureAction::PreviousTrack <==> action.ordinal() == 4,
        GestureAction::of_value(byte) == Some(action) <==> byte == action.ordinal() || byte
            == action.ascii(),
{
}

/// The burst of settings by its bytes, in ascending order, and the named bytes that are no command.
pub proof fn lemma_the_burst_by_byte()
    ensures
        SWITCH_STATE_BURST_ORDER@.map_values(|c: AppCommand| c.code()) == seq![
            0x01u8,
            0x02,
            0x04,
            0x06,
            0x07,
            0x08,
            0x09,
            0x10,
            0x11,
            0x61,
        ],
        VENDOR_NAMED_UNIMPLEMENTED@.map_values(|n: (u8, &'static str)| n.0) == seq![
            0x03u8,
            0x16,
            0x35,
            0x43,
            0x50,
        ],
{
    assert(SWITCH_STATE_BURST_ORDER@.map_values(|c: AppCommand| c.code()) =~= seq![
        0x01u8,
        0x02,
        0x04,
        0x06,
        0x07,
        0x08,
        0x09,
        0x10,
        0x11,
        0x61,
    ]);
    assert(VENDOR_NAMED_UNIMPLEMENTED@.map_values(|n: (u8, &'static str)| n.0) =~= seq![
        0x03u8,
        0x16,
        0x35,
        0x43,
        0x50,
    ]);
}

/// The slots, the channels and the actions are listed in the order of their numbers.
pub proof fn lemma_the_lists_ascend(i: int, j: int)
    requires
        0 <= i < j,
    ensures
        j < 5 ==> GestureSlot::ALL@[i].code() < GestureSlot::ALL@[j].code(),
        j < 3 ==> VolumeChannel::ALL@[i].code() < VolumeChannel::ALL@[j].code(),
        j < 5 ==> GestureAction::ALL@[i].ordinal() < GestureAction::ALL@[j].ordinal(),
        i < 5 ==> GestureAction::ALL@[i].ordinal() == i,
{
}

} // verus!
