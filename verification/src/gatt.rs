//! The glasses GATT topology, as data.
//!
//! The radio is the client's. What lives here is the UUIDs and the one write mode, because those
//! are facts about the firmware that each client would otherwise carry its own copy of.
//!
//! Every write to the device in every capture is an ATT Write Request, and every one of them is
//! answered. A Write Command is fire-and-forget with no flow control, so a burst of settings writes
//! can be dropped by the controller with nothing returned to notice it by.
use crate::text;
use vstd::prelude::*;

verus! {

/// The control service. 16-bit short form; clients expand it against the SIG base.
pub const SERVICE: &'static str = "AA12";

/// App to device. Written as an ATT Write Request; see [`WRITE_WITH_RESPONSE`].
pub const WRITE: &'static str = "AA13";

/// Device to app control replies, and on this firmware the `0x46` voice stream too.
pub const CONTROL_NOTIFY: &'static str = "AA14";

/// Device to app file stream (`52 58` framing). Interleaves `AC 55` frames, which is why the
/// deframer hands its residual back rather than dropping it.
pub const FILE_NOTIFY: &'static str = "AA15";

/// Both notify characteristics, in the order a client should subscribe them: `AA14` carries every
/// control reply and the voice stream, while a failed `AA15` subscribe only costs file transfers.
pub const NOTIFY_ALL: [&'static str; 2] = [CONTROL_NOTIFY, FILE_NOTIFY];

/// Whether [`WRITE`] takes a Write Request (`true`) or a Write Command (`false`).
pub const WRITE_WITH_RESPONSE: bool = true;

/// Present on the peripheral, and never used by this protocol.
pub const PRESENT_BUT_UNUSED: [&'static str; 4] = ["AE00", "AE01", "AE02", "180F"];

/// Whether one of the UUIDs holds `needle`, whatever the case of its letters.
pub open spec fn offers(uuids: Seq<&str>, needle: Seq<char>) -> bool {
    exists|i: int|
        0 <= i < uuids.len() && text::occurs(needle, text::upper_text((#[trigger] uuids[i])@))
}

fn has(uuids: &[&str], needle: &str) -> (b: bool)
    ensures
        b == offers(uuids@, needle@),
{
    for i in 0..uuids.len()
        invariant
            forall|j: int|
                0 <= j < i ==> !text::occurs(needle@, text::upper_text((#[trigger] uuids@[j])@)),
    {
        if text::upper_contains(uuids[i], needle) {
            assert(text::occurs(needle@, text::upper_text(uuids@[i as int]@)));
            return true;
        }
    }
    false
}

/// Can this characteristic set be driven? Needs the write characteristic plus a notify.
///
/// Matching is case-insensitive substring, because a 16-bit UUID arrives from one platform as
/// `AA13` and from another as the full `0000aa13-0000-1000-8000-00805f9b34fb`.
pub fn is_drivable(characteristic_uuids: &[&str]) -> (b: bool)
    ensures
        b == (offers(characteristic_uuids@, WRITE@) && (offers(
            characteristic_uuids@,
            CONTROL_NOTIFY@,
        ) || offers(characteristic_uuids@, FILE_NOTIFY@))),
{
    has(characteristic_uuids, WRITE) && (has(characteristic_uuids, CONTROL_NOTIFY) || has(
        characteristic_uuids,
        FILE_NOTIFY,
    ))
}

/// The glasses can be driven where `AA13` is offered and one of `AA14` and `AA15` is, wherever in a
/// longer identifier and in either case.
pub proof fn lemma_what_can_be_driven(uuids: &[&str], b: bool)
    ensures
        call_ensures(is_drivable, (uuids,), b) ==> b == ((exists|i: int|
            0 <= i < uuids@.len() && text::occurs(
                "AA13"@,
                text::upper_text((#[trigger] uuids@[i])@),
            )) && ((exists|i: int|
            0 <= i < uuids@.len() && text::occurs(
                "AA14"@,
                text::upper_text((#[trigger] uuids@[i])@),
            )) || (exists|i: int|
            0 <= i < uuids@.len() && text::occurs(
                "AA15"@,
                text::upper_text((#[trigger] uuids@[i])@),
            )))),
{
}

} // verus!
