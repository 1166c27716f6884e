//! NZXT Kraken protocol.
//!
//! Two interfaces are involved. Commands, status and fan/pump duty go over the
//! HID interface as 64-byte reports, where the leading command byte doubles as
//! the HID report id. LCD images go over a separate bulk endpoint, in chunks,
//! after reserving space in one of the device's 16 image "buckets".
//!
//! This module holds everything that decides what goes on the wire and what a
//! reply means; the transfers themselves are made by the caller.

use vstd::prelude::*;
use vstd::string::StringExecFns;

use crate::config::Device;
use crate::curve::{build_curve, spec_curve, CURVE_LEN};
use crate::text::{chars_of, decimal, eq_ignore_ascii_case, spec_decimal, spec_eq_ignore_ascii_case};

verus! {

/// Length of every HID report.
pub const REPORT_LEN: usize = 64;

/// Bulk endpoint and interface that LCD images are written to.
pub const BULK_ENDPOINT: u8 = 0x02;

pub const BULK_INTERFACE: u8 = 0;

/// Total image memory on the device, in 1 KB pages.
pub const LCD_TOTAL_MEMORY: u32 = 24320;

/// Number of image buckets on the device.
pub const BUCKET_COUNT: u8 = 16;

/// How many reports are read while waiting for a particular reply.
pub const REPLY_ATTEMPTS: u8 = 12;

/// Length of the header that precedes an image on the bulk endpoint.
pub const IMAGE_HEADER_LEN: usize = 20;

/// A supported cooler and the few numbers that differ between models.
#[derive(Clone, Copy)]
pub struct Model {
    pub vid: u16,
    pub pid: u16,
    pub name: &'static str,
    pub resolution: (u32, u32),
    pub bulk_chunk: usize,
    /// Channel id, minimum duty.
    pub pump: ([u8; 3], u8),
    pub fan: ([u8; 3], u8),
    /// The 2023+ coolers moved to a different image upload path on firmware 2.
    pub modern: bool,
}

/// Number of supported coolers.
pub const MODEL_COUNT: usize = 5;

/// The supported coolers, in the order they are listed.
pub open spec fn spec_model(i: int) -> Model {
    if i == 0 {
        Model {
            vid: 0x1E71,
            pid: 0x3008,
            name: "NZXT Kraken Z (Z53, Z63 or Z73)",
            resolution: (320, 320),
            bulk_chunk: 512,
            pump: ([0x1, 0x0, 0x0], 20),
            fan: ([0x2, 0x0, 0x0], 0),
            modern: false,
        }
    } else if i == 1 {
        Model {
            vid: 0x1E71,
            pid: 0x300C,
            name: "NZXT Kraken 2023 Elite",
            resolution: (640, 640),
            bulk_chunk: 0x20_0000,
            pump: ([0x1, 0x1, 0x0], 20),
            fan: ([0x2, 0x1, 0x1], 0),
            modern: true,
        }
    } else if i == 2 {
        Model {
            vid: 0x1E71,
            pid: 0x300E,
            name: "NZXT Kraken 2023",
            resolution: (240, 240),
            bulk_chunk: 0x20_0000,
            pump: ([0x1, 0x1, 0x0], 20),
            fan: ([0x2, 0x1, 0x1], 0),
            modern: true,
        }
    } else if i == 3 {
        Model {
            vid: 0x1E71,
            pid: 0x3012,
            name: "NZXT Kraken 2024 Elite RGB",
            resolution: (640, 640),
            bulk_chunk: 0x20_0000,
            pump: ([0x1, 0x1, 0x0], 20),
            fan: ([0x2, 0x1, 0x1], 0),
            modern: true,
        }
    } else {
        Model {
            vid: 0x1E71,
            pid: 0x3014,
            name: "NZXT Kraken 2024 Plus",
            resolution: (240, 240),
            bulk_chunk: 0x20_0000,
            pump: ([0x1, 0x1, 0x0], 20),
            fan: ([0x2, 0x1, 0x1], 0),
            modern: true,
        }
    }
}

/// The supported coolers.
pub fn models() -> (v: Vec<Model>)
    ensures
        v@.len() == MODEL_COUNT,
        forall|i: int| 0 <= i < MODEL_COUNT ==> #[trigger] v@[i] == spec_model(i),
{
    let mut v: Vec<Model> = Vec::new();
    v.push(Model {
        vid: 0x1E71,
        pid: 0x3008,
        name: "NZXT Kraken Z (Z53, Z63 or Z73)",
        resolution: (320, 320),
        bulk_chunk: 512,
        pump: ([0x1, 0x0, 0x0], 20),
        fan: ([0x2, 0x0, 0x0], 0),
        modern: false,
    });
    v.push(Model {
        vid: 0x1E71,
        pid: 0x300C,
        name: "NZXT Kraken 2023 Elite",
        resolution: (640, 640),
        bulk_chunk: 2 * 1024 * 1024,
        pump: ([0x1, 0x1, 0x0], 20),
        fan: ([0x2, 0x1, 0x1], 0),
        modern: true,
    });
    v.push(Model {
        vid: 0x1E71,
        pid: 0x300E,
        name: "NZXT Kraken 2023",
        resolution: (240, 240),
        bulk_chunk: 2 * 1024 * 1024,
        pump: ([0x1, 0x1, 0x0], 20),
        fan: ([0x2, 0x1, 0x1], 0),
        modern: true,
    });
    v.push(Model {
        vid: 0x1E71,
        pid: 0x3012,
        name: "NZXT Kraken 2024 Elite RGB",
        resolution: (640, 640),
        bulk_chunk: 2 * 1024 * 1024,
        pump: ([0x1, 0x1, 0x0], 20),
        fan: ([0x2, 0x1, 0x1], 0),
        modern: true,
    });
    v.push(Model {
        vid: 0x1E71,
        pid: 0x3014,
        name: "NZXT Kraken 2024 Plus",
        resolution: (240, 240),
        bulk_chunk: 2 * 1024 * 1024,
        pump: ([0x1, 0x1, 0x0], 20),
        fan: ([0x2, 0x1, 0x1], 0),
        modern: true,
    });
    v
}

/// The first supported cooler with these USB ids, if any.
pub open spec fn spec_find_model(vid: u16, pid: u16) -> Option<Model> {
    if exists|i: int| 0 <= i < MODEL_COUNT && #[trigger] spec_model(i).vid == vid && spec_model(i).pid == pid {
        let i = choose|i: int|
            0 <= i < MODEL_COUNT && #[trigger] spec_model(i).vid == vid && spec_model(i).pid == pid
                && forall|j: int| 0 <= j < i ==> !(#[trigger] spec_model(j).vid == vid && spec_model(j).pid == pid);
        Some(spec_model(i))
    } else {
        None
    }
}

/// Law: no two supported coolers share a USB id pair, so each is found by its own ids.
pub proof fn lemma_models_distinct()
    ensures
        forall|i: int, j: int|
            0 <= i < MODEL_COUNT && 0 <= j < MODEL_COUNT && i != j ==> #[trigger] spec_model(i).pid
                != #[trigger] spec_model(j).pid,
        forall|i: int| 0 <= i < MODEL_COUNT ==> spec_find_model(#[trigger] spec_model(i).vid, spec_model(i).pid) == Some(spec_model(i)),
{
    assert forall|i: int| 0 <= i < MODEL_COUNT implies spec_find_model(#[trigger] spec_model(i).vid, spec_model(i).pid) == Some(spec_model(i)) by {
        let vid = spec_model(i).vid;
        let pid = spec_model(i).pid;
        assert(forall|j: int| 0 <= j < i ==> !(#[trigger] spec_model(j).vid == vid && spec_model(j).pid == pid));
        let k = choose|k: int|
            0 <= k < MODEL_COUNT && #[trigger] spec_model(k).vid == vid && spec_model(k).pid == pid
                && forall|j: int| 0 <= j < k ==> !(#[trigger] spec_model(j).vid == vid && spec_model(j).pid == pid);
        assert(k == i);
    }
}

/// The supported cooler with these USB ids, if any.
pub fn find_model(vid: u16, pid: u16) -> (m: Option<Model>)
    ensures
        m == spec_find_model(vid, pid),
{
    let all = models();
    let mut i: usize = 0;
    while i < all.len()
        invariant
            0 <= i <= MODEL_COUNT,
            all@.len() == MODEL_COUNT,
            forall|k: int| 0 <= k < MODEL_COUNT ==> #[trigger] all@[k] == spec_model(k),
            forall|j: int| 0 <= j < i ==> !(#[trigger] spec_model(j).vid == vid && spec_model(j).pid == pid),
        decreases MODEL_COUNT - i,
    {
        if all[i].vid == vid && all[i].pid == pid {
            proof {
                let k = choose|k: int|
                    0 <= k < MODEL_COUNT && #[trigger] spec_model(k).vid == vid && spec_model(k).pid == pid
                        && forall|j: int| 0 <= j < k ==> !(#[trigger] spec_model(j).vid == vid && spec_model(j).pid == pid);
                assert(spec_model(i as int).vid == vid && spec_model(i as int).pid == pid);
                assert(k == i);
            }
            return Some(all[i]);
        }
        i = i + 1;
    }
    None
}

// ------------------------------------------------------------------------
// Reports
// ------------------------------------------------------------------------

/// A report as sent: `data` truncated or zero-padded to 64 bytes.
pub open spec fn spec_report(data: Seq<u8>) -> Seq<u8> {
    Seq::new(REPORT_LEN as nat, |i: int| if i < data.len() { data[i] } else { 0u8 })
}

/// The 64-byte report that carries `data`: `data[0]` is the command byte, and
/// anything past 64 bytes is cut off.
pub fn report(data: &[u8]) -> (r: Vec<u8>)
    ensures
        r@ == spec_report(data@),
{
    let mut r: Vec<u8> = Vec::new();
    let mut i: usize = 0;
    while i < REPORT_LEN
        invariant
            0 <= i <= REPORT_LEN,
            r@.len() == i,
            forall|j: int| 0 <= j < i ==> #[trigger] r@[j] == spec_report(data@)[j],
        decreases REPORT_LEN - i,
    {
        if i < data.len() {
            r.push(data[i]);
        } else {
            r.push(0);
        }
        i = i + 1;
    }
    assert(r@ == spec_report(data@));
    r
}

/// Whether `msg` starts with the two bytes of `prefix`.
pub open spec fn has_prefix(msg: Seq<u8>, prefix: [u8; 2]) -> bool {
    msg.len() >= 2 && msg[0] == prefix[0] && msg[1] == prefix[1]
}

/// What to do with the report just read while waiting for a reply.
pub enum ReplyStep {
    /// This is the reply.
    Matched,
    /// Not it: read another report.
    ReadAgain,
    /// Not it, and the attempts are used up.
    GaveUp,
}

/// Waiting for a reply that starts with a given two-byte prefix. The device
/// interleaves unsolicited status reports, so replies are filtered rather
/// than simply read once: up to 12 reports are read before giving up.
pub struct ReplyWait {
    pub prefix: [u8; 2],
    pub left: u8,
}

/// One step of waiting: the state after judging a report that `matched` the
/// prefix or not, and what to do next.
pub open spec fn reply_next(w: ReplyWait, matched: bool) -> (ReplyWait, ReplyStep) {
    if matched {
        (w, ReplyStep::Matched)
    } else {
        let w2 = ReplyWait { prefix: w.prefix, left: (w.left - 1) as u8 };
        (w2, if w2.left == 0 { ReplyStep::GaveUp } else { ReplyStep::ReadAgain })
    }
}

/// The wait after `misses` reports in a row that were not the reply.
pub open spec fn after_misses(prefix: [u8; 2], misses: nat) -> (ReplyWait, ReplyStep)
    decreases misses,
{
    if misses == 0 {
        (ReplyWait { prefix, left: REPLY_ATTEMPTS }, ReplyStep::ReadAgain)
    } else {
        reply_next(after_misses(prefix, (misses - 1) as nat).0, false)
    }
}

impl ReplyWait {
    pub fn new(prefix: [u8; 2]) -> (w: ReplyWait)
        ensures
            w == after_misses(prefix, 0).0,
    {
        ReplyWait { prefix, left: REPLY_ATTEMPTS }
    }

    /// Judge one report read from the device.
    pub fn offer(&mut self, msg: &[u8]) -> (step: ReplyStep)
        requires
            old(self).left > 0,
        ensures
            (*final(self), step) == reply_next(*old(self), has_prefix(msg@, old(self).prefix)),
    {
        if msg.len() >= 2 && msg[0] == self.prefix[0] && msg[1] == self.prefix[1] {
            ReplyStep::Matched
        } else {
            self.left = self.left - 1;
            if self.left == 0 {
                ReplyStep::GaveUp
            } else {
                ReplyStep::ReadAgain
            }
        }
    }
}

/// Law: waiting for a reply reads at most twelve reports. After each of the
/// first eleven reports that are not the reply it reads again, and it gives
/// up on the twelfth.
pub proof fn lemma_reply_wait_bounded(prefix: [u8; 2], misses: nat)
    requires
        1 <= misses <= REPLY_ATTEMPTS,
    ensures
        after_misses(prefix, misses).0.left == REPLY_ATTEMPTS - misses,
        misses < REPLY_ATTEMPTS ==> after_misses(prefix, misses).1 is ReadAgain,
        misses == REPLY_ATTEMPTS ==> after_misses(prefix, misses).1 is GaveUp,
    decreases misses,
{
    if misses > 1 {
        lemma_reply_wait_bounded(prefix, (misses - 1) as nat);
    } else {
        assert(after_misses(prefix, 0).0.left == REPLY_ATTEMPTS);
    }
}

/// The error when the awaited reply never came: `no [75, 01] reply from the cooler`.
pub open spec fn spec_no_reply_message(prefix: [u8; 2]) -> Seq<char> {
    "no ["@ + crate::text::spec_hex_byte(prefix[0]) + ", "@ + crate::text::spec_hex_byte(prefix[1])
        + "] reply from the cooler"@
}

pub fn no_reply_message(prefix: [u8; 2]) -> (s: String)
    ensures
        s@ == spec_no_reply_message(prefix),
{
    let mut s = String::from_str("no [");
    crate::text::push_hex_byte(&mut s, prefix[0]);
    s.append(", ");
    crate::text::push_hex_byte(&mut s, prefix[1]);
    s.append("] reply from the cooler");
    s
}

/// The error when the cooler did not answer a read in time.
pub fn read_timeout_message() -> (s: String)
    ensures
        s@ == "timed out waiting for the cooler to reply"@,
{
    String::from_str("timed out waiting for the cooler to reply")
}

// ------------------------------------------------------------------------
// Status and speed
// ------------------------------------------------------------------------

/// What the cooler reports about itself. The liquid temperature is kept as
/// the two bytes the device sends: whole degrees, and tenths added to them.
pub struct Status {
    pub liquid_temp_whole: u8,
    pub liquid_temp_tenths: u8,
    pub pump_rpm: u16,
    pub pump_duty: u8,
    pub fan_rpm: u16,
    pub fan_duty: u8,
}

/// The status request and the prefix of its reply.
pub const STATUS_REQUEST: [u8; 2] = [0x74, 0x01];

pub const STATUS_REPLY: [u8; 2] = [0x75, 0x01];

/// A little-endian 16-bit value at `at`.
pub open spec fn le16(msg: Seq<u8>, at: int) -> u16 {
    (msg[at] as int + 256 * msg[at + 1] as int) as u16
}

/// Decode a status reply.
pub fn decode_status(msg: &[u8]) -> (s: Status)
    requires
        msg@.len() == REPORT_LEN,
    ensures
        s.liquid_temp_whole == msg@[15],
        s.liquid_temp_tenths == msg@[16],
        s.pump_rpm == le16(msg@, 17),
        s.pump_duty == msg@[19],
        s.fan_rpm == le16(msg@, 23),
        s.fan_duty == msg@[25],
{
    Status {
        liquid_temp_whole: msg[15],
        liquid_temp_tenths: msg[16],
        pump_rpm: msg[17] as u16 + (msg[18] as u16) * 256,
        pump_duty: msg[19],
        fan_rpm: msg[23] as u16 + (msg[24] as u16) * 256,
        fan_duty: msg[25],
    }
}

/// A cooling channel.
#[derive(Clone, Copy)]
pub enum Channel {
    Pump,
    Fan,
}

/// The channel id and minimum duty of `channel` on `model`.
pub open spec fn spec_channel(model: Model, channel: Channel) -> ([u8; 3], u8) {
    match channel {
        Channel::Pump => model.pump,
        Channel::Fan => model.fan,
    }
}

/// The report that uploads a duty curve for one channel: `0x72`, the channel
/// id, then the 40 duty bytes for 20 to 59 C, clamped to the channel's minimum
/// and 100.
pub fn curve_message(model: &Model, channel: Channel, points: &[[u8; 2]]) -> (msg: Vec<u8>)
    requires
        spec_channel(*model, channel).1 <= 100,
    ensures
        msg@.len() == 4 + CURVE_LEN,
        msg@[0] == 0x72,
        msg@.subrange(1, 4) == spec_channel(*model, channel).0@,
        msg@.subrange(4, 4 + CURVE_LEN as int) == spec_curve(points@, spec_channel(*model, channel).1, 100),
{
    let (cid, dmin) = match channel {
        Channel::Pump => model.pump,
        Channel::Fan => model.fan,
    };
    let curve = build_curve(points, dmin, 100);
    let mut msg: Vec<u8> = Vec::new();
    msg.push(0x72);
    msg.push(cid[0]);
    msg.push(cid[1]);
    msg.push(cid[2]);
    let mut i: usize = 0;
    while i < curve.len()
        invariant
            0 <= i <= curve@.len(),
            curve@.len() == CURVE_LEN,
            msg@.len() == 4 + i,
            msg@[0] == 0x72,
            msg@.subrange(1, 4) == cid@,
            forall|j: int| 0 <= j < i ==> #[trigger] msg@[4 + j] == curve@[j],
        decreases curve@.len() - i,
    {
        msg.push(curve[i]);
        proof {
            assert(msg@.subrange(1, 4) == cid@);
        }
        i = i + 1;
    }
    assert forall|j: int| 0 <= j < CURVE_LEN implies msg@.subrange(4, 4 + CURVE_LEN as int)[j] == curve@[j] by {
        assert(msg@[4 + j] == curve@[j]);
    }
    assert(msg@.subrange(4, 4 + CURVE_LEN as int) =~= curve@);
    msg
}

// ------------------------------------------------------------------------
// LCD settings
// ------------------------------------------------------------------------

/// The LCD information request and the prefix of its reply.
pub const LCD_INFO_REQUEST: [u8; 2] = [0x30, 0x01];

pub const LCD_INFO_REPLY: [u8; 2] = [0x31, 0x01];

/// Brightness and orientation index from an LCD information reply.
pub fn decode_lcd_info(msg: &[u8]) -> (r: (u8, u8))
    requires
        msg@.len() == REPORT_LEN,
    ensures
        r == (msg@[0x18], msg@[0x1A]),
{
    (msg[0x18], msg[0x1A])
}

/// The report that sets the backlight, capped at 100%, keeping `orientation`.
pub fn brightness_message(percent: u8, orientation: u8) -> (msg: Vec<u8>)
    ensures
        msg@ == seq![0x30u8, 0x02, 0x01, if percent < 100 { percent } else { 100 }, 0x0, 0x0, 0x1, orientation],
{
    let p = if percent < 100 { percent } else { 100 };
    vec![0x30, 0x02, 0x01, p, 0x0, 0x0, 0x1, orientation]
}

/// The report that puts the panel at orientation 0, keeping `brightness`.
/// Frames are rotated while rendering, so letting the device rotate too
/// would double the effect.
pub fn orientation_reset_message(brightness: u8) -> (msg: Vec<u8>)
    ensures
        msg@ == seq![0x30u8, 0x02, 0x01, brightness, 0x0, 0x0, 0x1, 0x0],
{
    vec![0x30, 0x02, 0x01, brightness, 0x0, 0x0, 0x1, 0x0]
}

// ------------------------------------------------------------------------
// Image buckets
// ------------------------------------------------------------------------

/// Prepares the device for an image upload; its reply prefix.
pub const IMAGE_START_REQUEST: [u8; 2] = [0x36, 0x03];

pub const IMAGE_START_REPLY: [u8; 2] = [0x37, 0x03];

/// Ends an image transfer (no reply).
pub const TRANSFER_END: [u8; 2] = [0x36, 0x02];

pub const BUCKET_QUERY_REPLY: [u8; 2] = [0x31, 0x04];

pub const BUCKET_DELETE_REPLY: [u8; 2] = [0x33, 0x02];

pub const BUCKET_SWITCH_REPLY: [u8; 2] = [0x39, 0x01];

pub const BUCKET_SETUP_REPLY: [u8; 2] = [0x33, 0x01];

pub const TRANSFER_START_REPLY: [u8; 2] = [0x37, 0x01];

/// Display mode that shows a bucket's image; the one that shows nothing.
pub const SWITCH_MODE_SHOW: u8 = 0x4;

pub const SWITCH_MODE_CLEAR: u8 = 0x2;

/// Asks what bucket `index` holds.
pub fn bucket_query_message(index: u8) -> (msg: Vec<u8>)
    ensures
        msg@ == seq![0x30u8, 0x04, index],
{
    vec![0x30, 0x04, index]
}

/// Deletes bucket `index`.
pub fn bucket_delete_message(index: u8) -> (msg: Vec<u8>)
    ensures
        msg@ == seq![0x32u8, 0x02, index],
{
    vec![0x32, 0x02, index]
}

/// Shows bucket `index` in display `mode`.
pub fn bucket_switch_message(index: u8, mode: u8) -> (msg: Vec<u8>)
    ensures
        msg@ == seq![0x38u8, 0x01, mode, index],
{
    vec![0x38, 0x01, mode, index]
}

/// Reserves `pages` pages at `address` for the buckets `start` to `end`.
pub fn bucket_setup_message(start: u8, end: u8, address: u16, pages: u16) -> (msg: Vec<u8>)
    ensures
        msg@ == seq![
            0x32u8,
            0x01,
            start,
            end,
            (address % 256) as u8,
            (address / 256) as u8,
            (pages % 256) as u8,
            (pages / 256) as u8,
            0x01,
        ],
{
    vec![
        0x32,
        0x01,
        start,
        end,
        (address % 256) as u8,
        (address / 256) as u8,
        (pages % 256) as u8,
        (pages / 256) as u8,
        0x01,
    ]
}

/// Starts the bulk transfer into bucket `index`.
pub fn transfer_start_message(index: u8) -> (msg: Vec<u8>)
    ensures
        msg@ == seq![0x36u8, 0x01, index],
{
    vec![0x36, 0x01, index]
}

/// Whether a reply reports success (byte 14 is 1).
pub fn reply_accepted(msg: &[u8]) -> (ok: bool)
    requires
        msg@.len() == REPORT_LEN,
    ensures
        ok == (msg@[14] == 1),
{
    msg[14] == 1
}

/// A bucket is free when its reply carries nothing from byte 15 on.
pub open spec fn bucket_is_free(b: Seq<u8>) -> bool {
    forall|i: int| 15 <= i < b.len() ==> b[i] == 0
}

/// The first free bucket among the query replies, if any.
pub fn first_free_bucket(buckets: &[[u8; REPORT_LEN]]) -> (r: Option<usize>)
    ensures
        r matches Some(i) ==> i < buckets@.len() && bucket_is_free(buckets@[i as int]@) && forall|j: int|
            0 <= j < i ==> !bucket_is_free(#[trigger] buckets@[j]@),
        r is None ==> forall|j: int| 0 <= j < buckets@.len() ==> !bucket_is_free(#[trigger] buckets@[j]@),
{
    let mut i: usize = 0;
    while i < buckets.len()
        invariant
            0 <= i <= buckets@.len(),
            forall|j: int| 0 <= j < i ==> !bucket_is_free(#[trigger] buckets@[j]@),
        decreases buckets@.len() - i,
    {
        let b = &buckets[i];
        let mut k: usize = 15;
        let mut free = true;
        while k < REPORT_LEN
            invariant
                15 <= k <= REPORT_LEN,
                b@.len() == REPORT_LEN,
                free == forall|m: int| 15 <= m < k ==> b@[m] == 0,
            decreases REPORT_LEN - k,
        {
            if b[k] != 0 {
                free = false;
            }
            k = k + 1;
        }
        if free {
            return Some(i);
        }
        i = i + 1;
    }
    None
}

/// Freeing a bucket for reuse: a bucket that held data needs deleting twice,
/// and a refusal means trying the next one.
pub struct BucketPrep {
    pub index: u8,
    pub filled: bool,
}

/// What preparing a bucket asks for next.
pub enum PrepAction {
    /// Delete this bucket and report whether the cooler accepted.
    Delete(u8),
    /// Every bucket refused.
    NoFreeBucket,
}

/// One step of bucket preparation: after a delete of `p.index` that the
/// cooler `accepted` or not, the next state and, when done, the bucket to use.
pub open spec fn prep_next(p: BucketPrep, accepted: bool) -> (BucketPrep, Option<u8>) {
    if !accepted {
        (BucketPrep { index: (p.index + 1) as u8, filled: true }, None)
    } else if p.filled {
        (BucketPrep { index: p.index, filled: false }, None)
    } else {
        (p, Some(p.index))
    }
}

/// How far preparation is from running out of buckets.
pub open spec fn prep_measure(p: BucketPrep) -> int {
    (BUCKET_COUNT - p.index) * 2 + if p.filled { 1int } else { 0 }
}

impl BucketPrep {
    pub fn new(index: u8, filled: bool) -> (p: BucketPrep)
        ensures
            p.index == index,
            p.filled == filled,
    {
        BucketPrep { index, filled }
    }

    pub fn action(&self) -> (a: PrepAction)
        ensures
            self.index >= BUCKET_COUNT ==> a is NoFreeBucket,
            self.index < BUCKET_COUNT ==> a == PrepAction::Delete(self.index),
    {
        if self.index >= BUCKET_COUNT {
            PrepAction::NoFreeBucket
        } else {
            PrepAction::Delete(self.index)
        }
    }

    /// Record the outcome of deleting the current bucket; the bucket to use
    /// once one has been freed.
    pub fn deleted(&mut self, accepted: bool) -> (ready: Option<u8>)
        requires
            old(self).index < BUCKET_COUNT,
        ensures
            (*final(self), ready) == prep_next(*old(self), accepted),
    {
        if !accepted {
            self.index = self.index + 1;
            self.filled = true;
            None
        } else if self.filled {
            self.filled = false;
            None
        } else {
            Some(self.index)
        }
    }
}

/// Law: preparation always ends. Every step that does not finish lowers the
/// measure, which never goes below zero while buckets remain; a finished
/// preparation hands out a bucket that exists and that was deleted while not
/// marked as holding data.
pub proof fn lemma_bucket_prep_ends(p: BucketPrep, accepted: bool)
    requires
        p.index < BUCKET_COUNT,
    ensures
        prep_measure(p) > 0,
        prep_next(p, accepted).1 is None ==> 0 <= prep_measure(prep_next(p, accepted).0) < prep_measure(p),
        prep_next(p, accepted).1 matches Some(i) ==> i == p.index && i < BUCKET_COUNT && accepted && !p.filled,
{
}

/// The error when every bucket refused deletion.
pub fn no_free_bucket_message() -> (s: String)
    ensures
        s@ == "the cooler has no free image buckets"@,
{
    String::from_str("the cooler has no free image buckets")
}

/// A bucket's offset and size in image memory, from its query reply.
pub open spec fn bucket_offset(b: [u8; REPORT_LEN]) -> int {
    b@[17] as int + 256 * b@[18] as int
}

pub open spec fn bucket_size(b: [u8; REPORT_LEN]) -> int {
    b@[19] as int + 256 * b@[20] as int
}

/// The end of the highest region among the first `n` buckets (at least 0).
pub open spec fn max_end(bs: Seq<[u8; REPORT_LEN]>, n: int) -> int
    decreases n,
{
    if n <= 0 {
        0
    } else {
        let e = bucket_offset(bs[n - 1]) + bucket_size(bs[n - 1]);
        let m = max_end(bs, n - 1);
        if e > m { e } else { m }
    }
}

/// The lowest offset among the first `n` buckets, or `init` if lower.
pub open spec fn min_start(bs: Seq<[u8; REPORT_LEN]>, n: int, init: int) -> int
    decreases n,
{
    if n <= 0 {
        init
    } else {
        let s = bucket_offset(bs[n - 1]);
        let m = min_start(bs, n - 1, init);
        if s < m { s } else { m }
    }
}

/// Whether bucket `i` is in the way of writing `pages` pages at the current
/// bucket's offset.
pub open spec fn in_the_way(bs: Seq<[u8; REPORT_LEN]>, index: int, pages: int, i: int) -> bool {
    let cur = bucket_offset(bs[index]);
    let start = bucket_offset(bs[i]);
    let end = start + bucket_size(bs[i]);
    ||| (start > cur && start < cur + pages)
    ||| (start < cur && end > start)
    ||| (start == cur && i != index)
}

/// Where the next upload should land in image memory, mirroring liquidctl:
/// the current bucket's offset if the image still fits there or nothing is
/// in the way, otherwise right after everything if that still fits,
/// otherwise the start of memory if everything lies above the image;
/// `None` means the memory map has to be reset.
pub open spec fn spec_bucket_memory_offset(bs: Seq<[u8; REPORT_LEN]>, index: int, pages: int) -> Option<u16> {
    let cur = bucket_offset(bs[index]);
    if pages <= bucket_size(bs[index]) {
        Some(cur as u16)
    } else if !(exists|i: int| 0 <= i < bs.len() && #[trigger] in_the_way(bs, index, pages, i)) {
        Some(cur as u16)
    } else if max_end(bs, bs.len() as int) + pages < LCD_TOTAL_MEMORY {
        Some(max_end(bs, bs.len() as int) as u16)
    } else if pages < min_start(bs, bs.len() as int, cur) {
        Some(0)
    } else {
        None
    }
}

/// Decide where in the device's image memory the next upload should land
/// (see `spec_bucket_memory_offset`). Sums are taken exactly, so a very large
/// page count cannot overflow.
pub fn bucket_memory_offset(buckets: &[[u8; REPORT_LEN]], index: usize, pages: u32) -> (r: Option<u16>)
    requires
        index < buckets@.len(),
    ensures
        r == spec_bucket_memory_offset(buckets@, index as int, pages as int),
{
    let current = &buckets[index];
    let current_offset: u64 = current[17] as u64 + (current[18] as u64) * 256;
    let current_size: u64 = current[19] as u64 + (current[20] as u64) * 256;
    let pages64 = pages as u64;
    if pages64 <= current_size {
        return Some(current_offset as u16);
    }
    let mut min_occupied: u64 = current_offset;
    let mut max_occupied: u64 = 0;
    let mut overlaps = false;
    let mut i: usize = 0;
    while i < buckets.len()
        invariant
            0 <= i <= buckets@.len(),
            index < buckets@.len(),
            current_offset == bucket_offset(buckets@[index as int]),
            pages64 == pages,
            max_occupied == max_end(buckets@, i as int),
            min_occupied == min_start(buckets@, i as int, current_offset as int),
            max_occupied <= 0x20000,
            min_occupied <= 0x10000,
            overlaps == exists|j: int| 0 <= j < i && #[trigger] in_the_way(buckets@, index as int, pages as int, j),
        decreases buckets@.len() - i,
    {
        let b = &buckets[i];
        let start: u64 = b[17] as u64 + (b[18] as u64) * 256;
        let end: u64 = start + b[19] as u64 + (b[20] as u64) * 256;
        if end > max_occupied {
            max_occupied = end;
        }
        if start < min_occupied {
            min_occupied = start;
        }
        if (start > current_offset && start < current_offset + pages64) || (start < current_offset && end > start)
            || (start == current_offset && i != index) {
            overlaps = true;
        }
        proof {
            assert(in_the_way(buckets@, index as int, pages as int, i as int) == ((start > current_offset && start
                < current_offset + pages64) || (start < current_offset && end > start) || (start
                == current_offset && i != index)));
        }
        i = i + 1;
    }
    if !overlaps {
        return Some(current_offset as u16);
    }
    if max_occupied + pages64 < LCD_TOTAL_MEMORY as u64 {
        return Some(max_occupied as u16);
    }
    if pages64 < min_occupied {
        return Some(0);
    }
    None
}

/// The header that precedes an image of `len` bytes on the bulk endpoint.
pub open spec fn spec_image_header(len: u32) -> Seq<u8> {
    seq![
        0x12u8, 0xFA, 0x01, 0xE8, 0xAB, 0xCD, 0xEF, 0x98, 0x76, 0x54, 0x32, 0x10, 0x02, 0x0, 0x0, 0x0,
        (len % 256) as u8, ((len / 256) % 256) as u8, ((len / 65536) % 256) as u8, (len / 16777216) as u8,
    ]
}

pub fn image_header(len: u32) -> (h: Vec<u8>)
    ensures
        h@ == spec_image_header(len),
        h@.len() == IMAGE_HEADER_LEN,
{
    vec![
        0x12, 0xFA, 0x01, 0xE8, 0xAB, 0xCD, 0xEF, 0x98, 0x76, 0x54, 0x32, 0x10, 0x02, 0x0, 0x0, 0x0,
        (len % 256) as u8, ((len / 256) % 256) as u8, ((len / 65536) % 256) as u8, (len / 16777216) as u8,
    ]
}

/// Number of 1 KB pages a transfer of header plus `data_len` bytes takes,
/// the byte count taken as a `u32` as the device counts it.
pub open spec fn spec_transfer_pages(data_len: nat) -> u32 {
    let total = ((IMAGE_HEADER_LEN + data_len) % 0x1_0000_0000) as int;
    ((total + 1023) / 1024) as u32
}

pub fn transfer_pages(data_len: usize) -> (pages: u32)
    ensures
        pages == spec_transfer_pages(data_len as nat),
{
    let total: u64 = ((IMAGE_HEADER_LEN as u128 + data_len as u128) % 0x1_0000_0000) as u64;
    (total / 1024 + if total % 1024 != 0 { 1 } else { 0 }) as u32
}

/// The number of bytes a full frame of RGBA pixels takes on `model`.
pub open spec fn frame_len(model: Model) -> int {
    model.resolution.0 * model.resolution.1 * 4
}

pub open spec fn spec_unsupported_message(model: Model) -> Seq<char> {
    model.name@ + " uses a different image protocol that CustomAIO does not implement yet"@
}

pub open spec fn spec_size_message(expected: nat, got: nat) -> Seq<char> {
    "expected "@ + spec_decimal(expected) + " bytes of pixel data, got "@ + spec_decimal(got)
}

/// Whether `model` can take an image of `len` bytes: the 2023+ coolers use an
/// upload path that is not implemented, and an image must be exactly one
/// full frame of tightly packed RGBA.
pub fn check_image(model: &Model, len: usize) -> (r: Result<(), String>)
    requires
        !model.modern ==> frame_len(*model) <= u32::MAX,
    ensures
        model.modern ==> (r matches Err(e) && e@ == spec_unsupported_message(*model)),
        !model.modern && len != frame_len(*model) ==> (r matches Err(e) && e@ == spec_size_message(
            frame_len(*model) as nat,
            len as nat,
        )),
        !model.modern && len == frame_len(*model) ==> r is Ok,
{
    if model.modern {
        let mut e = String::from_str(model.name);
        e.append(" uses a different image protocol that CustomAIO does not implement yet");
        return Err(e);
    }
    let (w, h) = model.resolution;
    assert(w * h * 4 <= u32::MAX);
    assert(w * h <= u32::MAX) by (nonlinear_arith)
        requires w * h * 4 <= u32::MAX, 0 <= w, 0 <= h;
    let expected = (w * h * 4) as usize;
    if len != expected {
        let mut e = String::from_str("expected ");
        let a = decimal(expected as u64);
        e.append(a.as_str());
        e.append(" bytes of pixel data, got ");
        let b = decimal(len as u64);
        e.append(b.as_str());
        return Err(e);
    }
    Ok(())
}

/// Pixels as the panel wants them: R, G, B and a zero byte per pixel.
pub open spec fn spec_staged(rgba: Seq<u8>) -> Seq<u8> {
    Seq::new(rgba.len(), |i: int| if i % 4 == 3 { 0u8 } else { rgba[i] })
}

/// Copy `rgba` into the reused staging buffer with every alpha byte zeroed.
pub fn stage_pixels(rgba: &[u8], scratch: &mut Vec<u8>)
    ensures
        final(scratch)@ == spec_staged(rgba@),
{
    scratch.clear();
    let mut i: usize = 0;
    while i < rgba.len()
        invariant
            0 <= i <= rgba@.len(),
            scratch@.len() == i,
            forall|j: int| 0 <= j < i ==> #[trigger] scratch@[j] == spec_staged(rgba@)[j],
        decreases rgba@.len() - i,
    {
        if i % 4 == 3 {
            scratch.push(0);
        } else {
            scratch.push(rgba[i]);
        }
        i = i + 1;
    }
    assert(scratch@ == spec_staged(rgba@));
}

// ------------------------------------------------------------------------
// Finding the cooler
// ------------------------------------------------------------------------

/// Choosing one of several candidates seen one at a time: the first one is
/// taken, a preferred one replaces it, and the search stops at the first
/// preferred one.
pub struct Choice {
    pub chosen: Option<usize>,
}

impl Choice {
    pub fn new() -> (c: Choice)
        ensures
            c.chosen is None,
    {
        Choice { chosen: None }
    }

    /// Consider candidate `index`; true when the search can stop.
    pub fn consider(&mut self, index: usize, preferred: bool) -> (stop: bool)
        ensures
            stop == preferred,
            final(self).chosen == if old(self).chosen is None || preferred {
                Some(index)
            } else {
                old(self).chosen
            },
    {
        if self.chosen.is_none() || preferred {
            self.chosen = Some(index);
        }
        preferred
    }
}

/// The first `i` in `from..n` with `p(i)`, if any.
pub open spec fn first_from(p: spec_fn(int) -> bool, from: int, n: int) -> Option<int>
    decreases n - from,
{
    if from >= n {
        None
    } else if p(from) {
        Some(from)
    } else {
        first_from(p, from + 1, n)
    }
}

proof fn lemma_first_from(p: spec_fn(int) -> bool, from: int, n: int)
    requires
        0 <= from,
    ensures
        first_from(p, from, n) matches Some(i) ==> from <= i < n && p(i) && forall|j: int| from <= j < i ==> !#[trigger] p(j),
        first_from(p, from, n) is None ==> forall|j: int| from <= j < n ==> !#[trigger] p(j),
    decreases n - from,
{
    if from < n && !p(from) {
        lemma_first_from(p, from + 1, n);
    }
}

/// A HID interface as listed by the system: its USB ids, serial number
/// (empty when it reports none) and HID usage page.
pub struct HidCandidate {
    pub vendor_id: u16,
    pub product_id: u16,
    pub serial: String,
    pub usage_page: u16,
}

/// Whether candidate `c` is a supported cooler that the configuration allows.
pub open spec fn acceptable(cfg: Device, c: HidCandidate) -> bool {
    &&& spec_find_model(c.vendor_id, c.product_id) is Some
    &&& cfg.vendor_id == 0 || cfg.vendor_id == c.vendor_id
    &&& cfg.product_id == 0 || cfg.product_id == c.product_id
    &&& cfg.serial@.len() == 0 || spec_eq_ignore_ascii_case(c.serial@, cfg.serial@)
}

/// The Kraken exposes several HID collections; the vendor-defined one
/// (usage page 0xFF00 and up) carries the control protocol.
pub open spec fn preferred(cfg: Device, c: HidCandidate) -> bool {
    acceptable(cfg, c) && c.usage_page >= 0xFF00
}

/// The candidate to open: the first vendor-defined interface of an allowed
/// cooler, or failing that the first allowed interface at all.
pub open spec fn spec_pick(cfg: Device, cands: Seq<HidCandidate>) -> Option<int> {
    match first_from(|i: int| preferred(cfg, cands[i]), 0, cands.len() as int) {
        Some(i) => Some(i),
        None => first_from(|i: int| acceptable(cfg, cands[i]), 0, cands.len() as int),
    }
}

pub open spec fn spec_no_cooler_message() -> Seq<char> {
    "no supported NZXT cooler found (close NZXT CAM and check the USB header)"@
}

/// Pick the cooler to open among the listed HID interfaces (see `spec_pick`):
/// its model and serial number.
pub fn select_cooler(cfg: &Device, cands: &[HidCandidate]) -> (r: Result<(Model, String), String>)
    ensures
        spec_pick(*cfg, cands@) matches Some(i) ==> (r matches Ok((m, serial)) && Some(m) == spec_find_model(
            cands@[i].vendor_id,
            cands@[i].product_id,
        ) && serial@ == cands@[i].serial@),
        spec_pick(*cfg, cands@) is None ==> (r matches Err(e) && e@ == spec_no_cooler_message()),
{
    let ghost pref = |i: int| preferred(*cfg, cands@[i]);
    let ghost acc = |i: int| acceptable(*cfg, cands@[i]);
    let mut choice = Choice::new();
    let mut i: usize = 0;
    while i < cands.len()
        invariant_except_break
            0 <= i <= cands@.len(),
            pref == (|i: int| preferred(*cfg, cands@[i])),
            acc == (|i: int| acceptable(*cfg, cands@[i])),
            forall|j: int| 0 <= j < i ==> !#[trigger] pref(j),
            choice.chosen is None <==> forall|j: int| 0 <= j < i ==> !#[trigger] acc(j),
            choice.chosen matches Some(k) ==> k < i && acc(k as int) && forall|j: int| 0 <= j < k ==> !#[trigger] acc(j),
        ensures
            choice.chosen matches Some(k) ==> k < cands@.len() && acc(k as int),
            (exists|j: int| 0 <= j < cands@.len() && #[trigger] pref(j)) ==> (choice.chosen matches Some(k) && pref(k as int)
                && forall|j: int| 0 <= j < k ==> !#[trigger] pref(j)),
            !(exists|j: int| 0 <= j < cands@.len() && #[trigger] pref(j)) ==> (choice.chosen is None <==> forall|j: int|
                0 <= j < cands@.len() ==> !#[trigger] acc(j)),
            !(exists|j: int| 0 <= j < cands@.len() && #[trigger] pref(j)) ==> (choice.chosen matches Some(k) ==> forall|j: int|
                0 <= j < k ==> !#[trigger] acc(j)),
        decreases cands@.len() - i,
    {
        let c = &cands[i];
        let model = find_model(c.vendor_id, c.product_id);
        if model.is_none() {
            i = i + 1;
            continue;
        }
        if cfg.vendor_id != 0 && cfg.vendor_id != c.vendor_id {
            assert(!acceptable(*cfg, cands@[i as int]));
            assert(!pref(i as int));
            i = i + 1;
            continue;
        }
        if cfg.product_id != 0 && cfg.product_id != c.product_id {
            assert(!acceptable(*cfg, cands@[i as int]));
            assert(!pref(i as int));
            i = i + 1;
            continue;
        }
        let wanted = chars_of(cfg.serial.as_str());
        if wanted.len() != 0 && !eq_ignore_ascii_case(c.serial.as_str(), cfg.serial.as_str()) {
            i = i + 1;
            continue;
        }
        assert(acc(i as int));
        let vendor_defined = c.usage_page >= 0xFF00;
        if choice.consider(i, vendor_defined) {
            assert(pref(i as int));
            break;
        }
        i = i + 1;
    }
    proof {
        lemma_first_from(pref, 0, cands@.len() as int);
        lemma_first_from(acc, 0, cands@.len() as int);
    }
    match choice.chosen {
        Some(k) => {
            let c = &cands[k];
            let model = find_model(c.vendor_id, c.product_id);
            match model {
                Some(m) => Ok((m, c.serial.clone())),
                None => Err(String::from_str(
                    "no supported NZXT cooler found (close NZXT CAM and check the USB header)",
                )),
            }
        },
        None => Err(String::from_str("no supported NZXT cooler found (close NZXT CAM and check the USB header)")),
    }
}

/// The model and serial number that identify a detected cooler.
pub open spec fn same_cooler(a: HidCandidate, b: HidCandidate) -> bool {
    a.vendor_id == b.vendor_id && a.product_id == b.product_id && a.serial@ == b.serial@
}

/// Whether candidate `i` is listed among detected coolers: a supported model,
/// and the first interface of its cooler.
pub open spec fn listed(cands: Seq<HidCandidate>, i: int) -> bool {
    &&& spec_find_model(cands[i].vendor_id, cands[i].product_id) is Some
    &&& forall|j: int| 0 <= j < i ==> !same_cooler(#[trigger] cands[j], cands[i])
}

/// The supported coolers among the listed HID interfaces, each once: the
/// indices of the candidates to list, in order.
pub fn distinct_coolers(cands: &[HidCandidate]) -> (shown: Vec<usize>)
    ensures
        forall|k: int| 0 <= k < shown@.len() ==> shown@[k] < cands@.len() && listed(cands@, #[trigger] shown@[k] as int),
        forall|k: int, l: int| 0 <= k < l < shown@.len() ==> #[trigger] shown@[k] < #[trigger] shown@[l],
        forall|i: int| 0 <= i < cands@.len() && listed(cands@, i) ==> shown@.contains(i as usize),
{
    let mut shown: Vec<usize> = Vec::new();
    let mut i: usize = 0;
    while i < cands.len()
        invariant
            0 <= i <= cands@.len(),
            forall|k: int| 0 <= k < shown@.len() ==> shown@[k] < i && listed(cands@, #[trigger] shown@[k] as int),
            forall|k: int, l: int| 0 <= k < l < shown@.len() ==> #[trigger] shown@[k] < #[trigger] shown@[l],
            forall|j: int| 0 <= j < i && listed(cands@, j) ==> shown@.contains(j as usize),
        decreases cands@.len() - i,
    {
        let c = &cands[i];
        let ghost before = shown@;
        if find_model(c.vendor_id, c.product_id).is_some() {
            let mut seen = false;
            let mut j: usize = 0;
            while j < i
                invariant
                    0 <= j <= i < cands@.len(),
                    *c == cands@[i as int],
                    seen == exists|m: int| 0 <= m < j && same_cooler(#[trigger] cands@[m], cands@[i as int]),
                decreases i - j,
            {
                let d = &cands[j];
                let ids = d.vendor_id == c.vendor_id && d.product_id == c.product_id;
                let same = ids && crate::text::text_eq(d.serial.as_str(), c.serial.as_str());
                assert(same == same_cooler(cands@[j as int], cands@[i as int]));
                if same {
                    seen = true;
                }
                j = j + 1;
            }
            if !seen {
                shown.push(i);
                proof {
                    assert(listed(cands@, i as int));
                    assert(shown@[shown@.len() - 1] == i);
                    assert forall|x: usize| before.contains(x) implies shown@.contains(x) by {
                        let k = choose|k: int| 0 <= k < before.len() && before[k] == x;
                        assert(shown@[k] == x);
                    }
                    assert(shown@.contains(i));
                }
            } else {
                proof {
                    let m = choose|m: int| 0 <= m < i && same_cooler(#[trigger] cands@[m], cands@[i as int]);
                    assert(!listed(cands@, i as int));
                }
            }
        }
        i = i + 1;
    }
    shown
}

/// The steps of one image upload, in the order the cooler expects them.
#[derive(Clone, Copy, Debug, PartialEq, Eq, Structural)]
pub enum UploadStep {
    /// Announce an image and wait for the cooler's answer.
    StartImage,
    /// Ask every bucket for its state.
    QueryBuckets,
    /// Free a bucket for the image (see `BucketPrep`).
    PrepareBucket,
    /// Find room in the LCD memory, clearing every bucket if there is none.
    PlaceImage,
    /// Tell the cooler where the image goes; it may refuse.
    SetupBucket,
    /// Open the transfer into the bucket.
    StartTransfer,
    /// Send the image header over the bulk endpoint.
    SendHeader,
    /// Send the staged pixels over the bulk endpoint.
    SendPixels,
    /// Close the transfer.
    EndTransfer,
    /// Show the bucket on the panel; the cooler may refuse.
    ShowBucket,
    /// The image is on the panel.
    Done,
}

/// Where a step stands in the upload: 0 for the first, 10 when done.
pub open spec fn step_index(s: UploadStep) -> int {
    match s {
        UploadStep::StartImage => 0,
        UploadStep::QueryBuckets => 1,
        UploadStep::PrepareBucket => 2,
        UploadStep::PlaceImage => 3,
        UploadStep::SetupBucket => 4,
        UploadStep::StartTransfer => 5,
        UploadStep::SendHeader => 6,
        UploadStep::SendPixels => 7,
        UploadStep::EndTransfer => 8,
        UploadStep::ShowBucket => 9,
        UploadStep::Done => 10,
    }
}

/// The step after `s` once it went through.
pub open spec fn spec_next_step(s: UploadStep) -> UploadStep {
    match s {
        UploadStep::StartImage => UploadStep::QueryBuckets,
        UploadStep::QueryBuckets => UploadStep::PrepareBucket,
        UploadStep::PrepareBucket => UploadStep::PlaceImage,
        UploadStep::PlaceImage => UploadStep::SetupBucket,
        UploadStep::SetupBucket => UploadStep::StartTransfer,
        UploadStep::StartTransfer => UploadStep::SendHeader,
        UploadStep::SendHeader => UploadStep::SendPixels,
        UploadStep::SendPixels => UploadStep::EndTransfer,
        UploadStep::EndTransfer => UploadStep::ShowBucket,
        UploadStep::ShowBucket => UploadStep::Done,
        UploadStep::Done => UploadStep::Done,
    }
}

/// The error that ends the upload when the cooler answers step `s` with a
/// refusal; `None` for the steps whose answer carries no verdict.
pub open spec fn spec_refusal(s: UploadStep) -> Option<Seq<char>> {
    match s {
        UploadStep::SetupBucket => Some("the cooler refused the image transfer setup"@),
        UploadStep::ShowBucket => Some("the cooler refused to display the uploaded image"@),
        _ => None,
    }
}

/// The step after `step`, given whether the cooler accepted it (only the
/// bucket setup and the switch to the new bucket carry a verdict; failures of
/// the transport itself end the upload before this is asked).
pub fn next_upload_step(step: UploadStep, accepted: bool) -> (r: Result<UploadStep, String>)
    requires
        step != UploadStep::Done,
    ensures
        !accepted && spec_refusal(step) is Some ==> (r matches Err(e) && e@ == spec_refusal(step).unwrap()),
        accepted || spec_refusal(step) is None ==> r == Ok::<UploadStep, String>(spec_next_step(step)),
{
    match step {
        UploadStep::StartImage => Ok(UploadStep::QueryBuckets),
        UploadStep::QueryBuckets => Ok(UploadStep::PrepareBucket),
        UploadStep::PrepareBucket => Ok(UploadStep::PlaceImage),
        UploadStep::PlaceImage => Ok(UploadStep::SetupBucket),
        UploadStep::SetupBucket => if accepted {
            Ok(UploadStep::StartTransfer)
        } else {
            Err(String::from_str("the cooler refused the image transfer setup"))
        },
        UploadStep::StartTransfer => Ok(UploadStep::SendHeader),
        UploadStep::SendHeader => Ok(UploadStep::SendPixels),
        UploadStep::SendPixels => Ok(UploadStep::EndTransfer),
        UploadStep::EndTransfer => Ok(UploadStep::ShowBucket),
        UploadStep::ShowBucket => if accepted {
            Ok(UploadStep::Done)
        } else {
            Err(String::from_str("the cooler refused to display the uploaded image"))
        },
        UploadStep::Done => Ok(UploadStep::Done),
    }
}

/// Law: an upload goes through its steps in one fixed order, each exactly
/// once: every step but the last leads to the one after it, so that from
/// the first step the upload is done after exactly ten accepted steps; and
/// only the bucket setup and the switch to the new bucket can be refused.
pub proof fn lemma_upload_order(s: UploadStep)
    ensures
        step_index(UploadStep::StartImage) == 0,
        step_index(UploadStep::Done) == 10,
        0 <= step_index(s) <= 10,
        s != UploadStep::Done ==> step_index(spec_next_step(s)) == step_index(s) + 1,
        forall|t: UploadStep| step_index(t) == step_index(s) ==> t == s,
        spec_refusal(s) is Some <==> (s == UploadStep::SetupBucket || s == UploadStep::ShowBucket),
{
}

/// What a supported cooler is, spelled out: its name, panel resolution,
/// bulk transfer chunk, the pump and fan channel ids with their minimum
/// duties, and whether it is one of the newer models.
pub open spec fn model_is(
    m: Option<Model>,
    name: Seq<char>,
    side: u32,
    chunk: usize,
    pump: Seq<u8>,
    fan: Seq<u8>,
    modern: bool,
) -> bool {
    &&& m is Some
    &&& m.unwrap().name@ == name
    &&& m.unwrap().resolution == (side, side)
    &&& m.unwrap().bulk_chunk == chunk
    &&& m.unwrap().pump.0@ == pump && m.unwrap().pump.1 == 20
    &&& m.unwrap().fan.0@ == fan && m.unwrap().fan.1 == 0
    &&& m.unwrap().modern == modern
}

/// Law: the supported coolers and what differs between them, by USB ids.
/// The Kraken Z drives its pump on channel 1.0.0 and its fan on 2.0.0; the
/// 2023 and 2024 models use 1.1.0 and 2.1.1. Any other id is not supported.
/// A fan curve for a cooler is sent on that cooler's fan channel.
pub proof fn lemma_model_table(vid: u16, pid: u16, points: Seq<[u8; 2]>)
    ensures
        model_is(spec_find_model(0x1E71, 0x3008), "NZXT Kraken Z (Z53, Z63 or Z73)"@, 320, 512, seq![1u8, 0u8, 0u8],
            seq![2u8, 0u8, 0u8], false),
        model_is(spec_find_model(0x1E71, 0x300C), "NZXT Kraken 2023 Elite"@, 640, 0x20_0000, seq![1u8, 1u8, 0u8],
            seq![2u8, 1u8, 1u8], true),
        model_is(spec_find_model(0x1E71, 0x300E), "NZXT Kraken 2023"@, 240, 0x20_0000, seq![1u8, 1u8, 0u8],
            seq![2u8, 1u8, 1u8], true),
        model_is(spec_find_model(0x1E71, 0x3012), "NZXT Kraken 2024 Elite RGB"@, 640, 0x20_0000, seq![1u8, 1u8, 0u8],
            seq![2u8, 1u8, 1u8], true),
        model_is(spec_find_model(0x1E71, 0x3014), "NZXT Kraken 2024 Plus"@, 240, 0x20_0000, seq![1u8, 1u8, 0u8],
            seq![2u8, 1u8, 1u8], true),
        (vid != 0x1E71 || (pid != 0x3008 && pid != 0x300C && pid != 0x300E && pid != 0x3012 && pid != 0x3014))
            ==> spec_find_model(vid, pid) is None,
        spec_channel(spec_find_model(0x1E71, 0x3008).unwrap(), Channel::Fan).0@ == seq![2u8, 0u8, 0u8],
        spec_channel(spec_find_model(0x1E71, 0x3008).unwrap(), Channel::Pump).0@ == seq![1u8, 0u8, 0u8],
{
    lemma_models_distinct();
    assert(spec_model(0).vid == 0x1E71 && spec_model(0).pid == 0x3008);
    assert(spec_model(1).vid == 0x1E71 && spec_model(1).pid == 0x300C);
    assert(spec_model(2).vid == 0x1E71 && spec_model(2).pid == 0x300E);
    assert(spec_model(3).vid == 0x1E71 && spec_model(3).pid == 0x3012);
    assert(spec_model(4).vid == 0x1E71 && spec_model(4).pid == 0x3014);
    assert(spec_model(0).pump.0@ =~= seq![1u8, 0u8, 0u8]);
    assert(spec_model(0).fan.0@ =~= seq![2u8, 0u8, 0u8]);
    assert forall|i: int| 1 <= i < MODEL_COUNT implies #[trigger] spec_model(i).pump.0@ =~= seq![1u8, 1u8, 0u8]
        && spec_model(i).fan.0@ =~= seq![2u8, 1u8, 1u8] by {
    }
    if vid != 0x1E71 || (pid != 0x3008 && pid != 0x300C && pid != 0x300E && pid != 0x3012 && pid != 0x3014) {
        assert forall|i: int| 0 <= i < MODEL_COUNT implies !(#[trigger] spec_model(i).vid == vid && spec_model(i).pid
            == pid) by {
        }
    }
}

proof fn lemma_max_end_bounds(bs: Seq<[u8; REPORT_LEN]>, n: int)
    requires
        0 <= n <= bs.len(),
    ensures
        max_end(bs, n) >= 0,
        forall|i: int| 0 <= i < n ==> bucket_offset(#[trigger] bs[i]) + bucket_size(bs[i]) <= max_end(bs, n),
    decreases n,
{
    if n > 0 {
        lemma_max_end_bounds(bs, n - 1);
    }
}

proof fn lemma_min_start_bounds(bs: Seq<[u8; REPORT_LEN]>, n: int, init: int)
    requires
        0 <= n <= bs.len(),
    ensures
        min_start(bs, n, init) <= init,
        forall|i: int| 0 <= i < n ==> min_start(bs, n, init) <= bucket_offset(#[trigger] bs[i]),
    decreases n,
{
    if n > 0 {
        lemma_min_start_bounds(bs, n - 1, init);
    }
}

/// Law: where an upload lands in image memory. When the image fits in the
/// current bucket's recorded size (bytes 19-20 of its query reply), it goes
/// back to that bucket's offset (bytes 17-18). When it lands anywhere else,
/// the pages it takes overlap no bucket's region.
pub proof fn lemma_bucket_placement(bs: Seq<[u8; REPORT_LEN]>, index: int, pages: int)
    requires
        0 <= index < bs.len(),
        0 <= pages,
    ensures
        pages <= bs[index]@[19] as int + 256 * bs[index]@[20] as int ==> spec_bucket_memory_offset(bs, index, pages)
            == Some((bs[index]@[17] as int + 256 * bs[index]@[18] as int) as u16),
        (match spec_bucket_memory_offset(bs, index, pages) {
            Some(o) => o as int != bs[index]@[17] as int + 256 * bs[index]@[18] as int ==> forall|i: int|
                0 <= i < bs.len() ==> o + pages <= bs[i]@[17] as int + 256 * bs[i]@[18] as int || bs[i]@[17] as int
                    + 256 * bs[i]@[18] as int + bs[i]@[19] as int + 256 * bs[i]@[20] as int <= o,
            None => true,
        }),
{
    let n = bs.len() as int;
    lemma_max_end_bounds(bs, n);
    lemma_min_start_bounds(bs, n, bucket_offset(bs[index]));
    let cur = bucket_offset(bs[index]);
    assert(0 <= cur < 65536);
    if let Some(o) = spec_bucket_memory_offset(bs, index, pages) {
        if o as int != cur {
            assert forall|i: int| 0 <= i < bs.len() implies o + pages <= bucket_offset(bs[i]) || bucket_offset(bs[i])
                + bucket_size(bs[i]) <= o by {
                assert(bucket_offset(bs[i]) + bucket_size(bs[i]) <= max_end(bs, n));
                assert(min_start(bs, n, cur) <= bucket_offset(bs[i]));
            }
        }
    }
}

} // verus!
