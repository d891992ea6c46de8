//! The commands that travel up the serial link, and their frames.
//!
//! A frame is the compact binary form of one command, byte-stuffed so that
//! zero occurs only as the last byte. The stuffing and the binary form of
//! each field are postcard's; which fields a command has, in which order, and
//! which leading number stands for which command is laid down here.

use crate::sequence::PLLChange;
use vstd::prelude::*;

verus! {

/// No frame is longer than this, terminator included.
pub const MAX_UPLINK_MSG_SIZE: usize = 256;

/// How many fractional values one `PushFracn` carries.
pub const FRACN_CHUNK: usize = 32;

pub const TAG_PING: u32 = 0;

pub const TAG_PUSH_PLL_CHANGE: u32 = 1;

pub const TAG_PUSH_FRACN: u32 = 2;

pub const TAG_CLEAR_BUFFER: u32 = 3;

pub const TAG_UPLOAD_DONE: u32 = 4;

pub const TAG_START_NOW: u32 = 5;

pub const TAG_STOP_NOW: u32 = 6;

#[derive(Clone, Copy, Debug, PartialEq, Eq)]
pub enum UplinkMsg {
    Ping(),
    PushPLLChange(PLLChange),
    /// A count and a fixed array of which only the first `count` values matter.
    PushFracn(u8, [u16; 32]),
    ClearBuffer(),
    UploadDone(),
    StartNow(),
    StopNow(),
}

/// The number that `postcard::from_bytes_cobs` reads at the head of a frame.
pub uninterp spec fn frame_tag(frame: Seq<u8>) -> Option<u32>;

/// The six fields of a change that `postcard::from_bytes_cobs` reads behind
/// the leading number: both tick counts as 64-bit numbers, whatever the
/// machine's word.
pub uninterp spec fn frame_pll_fields(frame: Seq<u8>) -> Option<(u64, u64, u16, bool, u8, u32)>;

/// The count and the values that `postcard::from_bytes_cobs` reads behind
/// the leading number.
pub uninterp spec fn frame_fracn_fields(frame: Seq<u8>) -> Option<(u8, [u16; 32])>;

/// The frame that `postcard::to_slice_cobs` makes of a lone number in a
/// buffer of `cap` bytes.
pub uninterp spec fn tag_frame(tag: u32, cap: usize) -> Option<Seq<u8>>;

/// The frame that `postcard::to_slice_cobs` makes of a number and six fields.
pub uninterp spec fn pll_frame(
    tag: u32,
    fields: (u64, u64, u16, bool, u8, u32),
    cap: usize,
) -> Option<Seq<u8>>;

/// The frame that `postcard::to_slice_cobs` makes of a number, a count and
/// the values.
pub uninterp spec fn fracn_frame(
    tag: u32,
    count: u8,
    values: [u16; 32],
    cap: usize,
) -> Option<Seq<u8>>;

/// A well-formed frame: not empty, zero as its last byte and nowhere else.
pub open spec fn is_frame(s: Seq<u8>) -> bool {
    &&& s.len() >= 1
    &&& s[s.len() - 1] == 0
    &&& forall|i: int| 0 <= i < s.len() - 1 ==> #[trigger] s[i] != 0
}

/// `postcard::from_bytes_cobs`, asked for a `u32`, on a copy of the frame:
/// the leading number, or nothing where the stuffing or the number is
/// malformed.
#[verifier::external_body]
fn read_tag(frame: &[u8]) -> (tag: Option<u32>)
    ensures
        tag == frame_tag(frame@),
{
    let mut copy = frame.to_vec();
    postcard::from_bytes_cobs::<u32>(&mut copy).ok()
}

/// `postcard::from_bytes_cobs`, asked for a number and the six fields of a
/// change, on a copy of the frame: the fields, or nothing where the frame
/// does not hold them.
#[verifier::external_body]
fn read_pll_fields(frame: &[u8]) -> (fields: Option<(u64, u64, u16, bool, u8, u32)>)
    ensures
        fields == frame_pll_fields(frame@),
{
    let mut copy = frame.to_vec();
    match postcard::from_bytes_cobs::<(u32, u64, u64, u16, bool, u8, u32)>(&mut copy) {
        Ok((_, for_ticks, start_tick, divn, vcosel, divp, tim_us)) => Some(
            (for_ticks, start_tick, divn, vcosel, divp, tim_us),
        ),
        Err(_) => None,
    }
}

/// `postcard::from_bytes_cobs`, asked for a number, a count and 32 values, on
/// a copy of the frame: count and values, or nothing where the frame does not
/// hold them.
#[verifier::external_body]
fn read_fracn_fields(frame: &[u8]) -> (fields: Option<(u8, [u16; 32])>)
    ensures
        fields == frame_fracn_fields(frame@),
{
    let mut copy = frame.to_vec();
    match postcard::from_bytes_cobs::<(u32, u8, [u16; 32])>(&mut copy) {
        Ok((_, count, values)) => Some((count, values)),
        Err(_) => None,
    }
}

/// `postcard::to_slice_cobs` on a lone number, into a fresh buffer of `cap`
/// bytes: the frame, or nothing where it does not fit. The frame ends in its
/// only zero, and read back it gives the number.
#[verifier::external_body]
fn write_tag(tag: u32, cap: usize) -> (frame: Option<Vec<u8>>)
    requires
        cap <= MAX_UPLINK_MSG_SIZE,
    ensures
        frame is None ==> tag_frame(tag, cap) is None,
        frame matches Some(f) ==> tag_frame(tag, cap) == Some(f@),
        frame matches Some(f) ==> is_frame(f@) && f@.len() <= cap,
        frame matches Some(f) ==> frame_tag(f@) == Some(tag),
{
    let mut buf = vec![0u8; cap];
    match postcard::to_slice_cobs(&tag, &mut buf) {
        Ok(used) => Some(used.to_vec()),
        Err(_) => None,
    }
}

/// `postcard::to_slice_cobs` on a number and the six fields of a change, into
/// a fresh buffer of `cap` bytes: the frame, or nothing where it does not
/// fit. The frame ends in its only zero, and read back it gives the number
/// and the fields.
#[verifier::external_body]
fn write_pll(
    tag: u32,
    fields: (u64, u64, u16, bool, u8, u32),
    cap: usize,
) -> (frame: Option<Vec<u8>>)
    requires
        cap <= MAX_UPLINK_MSG_SIZE,
    ensures
        frame is None ==> pll_frame(tag, fields, cap) is None,
        frame matches Some(f) ==> pll_frame(tag, fields, cap) == Some(f@),
        frame matches Some(f) ==> is_frame(f@) && f@.len() <= cap,
        frame matches Some(f) ==> frame_tag(f@) == Some(tag),
        frame matches Some(f) ==> frame_pll_fields(f@) == Some(fields),
{
    let mut buf = vec![0u8; cap];
    let value = (tag, fields.0, fields.1, fields.2, fields.3, fields.4, fields.5);
    match postcard::to_slice_cobs(&value, &mut buf) {
        Ok(used) => Some(used.to_vec()),
        Err(_) => None,
    }
}

/// `postcard::to_slice_cobs` on a number, a count and 32 values, into a fresh
/// buffer of `cap` bytes: the frame, or nothing where it does not fit. The
/// frame ends in its only zero, and read back it gives the number, the count
/// and the values.
#[verifier::external_body]
fn write_fracn(tag: u32, count: u8, values: &[u16; 32], cap: usize) -> (frame: Option<Vec<u8>>)
    requires
        cap <= MAX_UPLINK_MSG_SIZE,
    ensures
        frame is None ==> fracn_frame(tag, count, *values, cap) is None,
        frame matches Some(f) ==> fracn_frame(tag, count, *values, cap) == Some(f@),
        frame matches Some(f) ==> is_frame(f@) && f@.len() <= cap,
        frame matches Some(f) ==> frame_tag(f@) == Some(tag),
        frame matches Some(f) ==> frame_fracn_fields(f@) == Some((count, *values)),
{
    let mut buf = vec![0u8; cap];
    match postcard::to_slice_cobs(&(tag, count, *values), &mut buf) {
        Ok(used) => Some(used.to_vec()),
        Err(_) => None,
    }
}

/// The change that six frame fields stand for, where both tick counts fit
/// the machine's word.
pub open spec fn pll_change_of(fields: (u64, u64, u16, bool, u8, u32)) -> Option<PLLChange> {
    if fields.0 <= usize::MAX && fields.1 <= usize::MAX {
        Some(
            PLLChange {
                for_ticks: fields.0 as usize,
                start_tick: fields.1 as usize,
                divn: fields.2,
                vcosel: fields.3,
                divp: fields.4,
                tim_us: fields.5,
            },
        )
    } else {
        None
    }
}

/// The frame fields of a change.
pub open spec fn pll_fields_of(change: PLLChange) -> (u64, u64, u16, bool, u8, u32) {
    (
        change.for_ticks as u64,
        change.start_tick as u64,
        change.divn,
        change.vcosel,
        change.divp,
        change.tim_us,
    )
}

/// The command that a frame's parts stand for: the leading number picks the
/// command, and a command with fields needs them to be readable. A number
/// that names no command gives nothing.
pub open spec fn message_of(
    tag: Option<u32>,
    pll: Option<(u64, u64, u16, bool, u8, u32)>,
    fracn: Option<(u8, [u16; 32])>,
) -> Option<UplinkMsg> {
    match tag {
        None => None,
        Some(t) => if t == TAG_PING {
            Some(UplinkMsg::Ping())
        } else if t == TAG_PUSH_PLL_CHANGE {
            match pll {
                Some(fields) => match pll_change_of(fields) {
                    Some(change) => Some(UplinkMsg::PushPLLChange(change)),
                    None => None,
                },
                None => None,
            }
        } else if t == TAG_PUSH_FRACN {
            match fracn {
                Some((count, values)) => Some(UplinkMsg::PushFracn(count, values)),
                None => None,
            }
        } else if t == TAG_CLEAR_BUFFER {
            Some(UplinkMsg::ClearBuffer())
        } else if t == TAG_UPLOAD_DONE {
            Some(UplinkMsg::UploadDone())
        } else if t == TAG_START_NOW {
            Some(UplinkMsg::StartNow())
        } else if t == TAG_STOP_NOW {
            Some(UplinkMsg::StopNow())
        } else {
            None
        },
    }
}

/// The command that a frame decodes to, if any.
pub open spec fn decoded(frame: Seq<u8>) -> Option<UplinkMsg> {
    message_of(frame_tag(frame), frame_pll_fields(frame), frame_fracn_fields(frame))
}

/// The frame of a command in a buffer of `cap` bytes, if it fits.
pub open spec fn encoded(msg: UplinkMsg, cap: usize) -> Option<Seq<u8>> {
    match msg {
        UplinkMsg::Ping() => tag_frame(TAG_PING, cap),
        UplinkMsg::PushPLLChange(change) => pll_frame(
            TAG_PUSH_PLL_CHANGE,
            pll_fields_of(change),
            cap,
        ),
        UplinkMsg::PushFracn(count, values) => fracn_frame(TAG_PUSH_FRACN, count, values, cap),
        UplinkMsg::ClearBuffer() => tag_frame(TAG_CLEAR_BUFFER, cap),
        UplinkMsg::UploadDone() => tag_frame(TAG_UPLOAD_DONE, cap),
        UplinkMsg::StartNow() => tag_frame(TAG_START_NOW, cap),
        UplinkMsg::StopNow() => tag_frame(TAG_STOP_NOW, cap),
    }
}

/// Turns six frame fields into a change, or nothing where a tick count does
/// not fit the machine's word.
pub fn pll_change_from(fields: (u64, u64, u16, bool, u8, u32)) -> (change: Option<PLLChange>)
    ensures
        change == pll_change_of(fields),
{
    if fields.0 <= usize::MAX as u64 && fields.1 <= usize::MAX as u64 {
        Some(
            PLLChange {
                for_ticks: fields.0 as usize,
                start_tick: fields.1 as usize,
                divn: fields.2,
                vcosel: fields.3,
                divp: fields.4,
                tim_us: fields.5,
            },
        )
    } else {
        None
    }
}

/// Puts the parts of a frame together into the command they stand for.
pub fn message_from(
    tag: Option<u32>,
    pll: Option<(u64, u64, u16, bool, u8, u32)>,
    fracn: Option<(u8, [u16; 32])>,
) -> (msg: Option<UplinkMsg>)
    ensures
        msg == message_of(tag, pll, fracn),
{
    match tag {
        None => None,
        Some(t) => {
            if t == TAG_PING {
                Some(UplinkMsg::Ping())
            } else if t == TAG_PUSH_PLL_CHANGE {
                match pll {
                    Some(fields) => match pll_change_from(fields) {
                        Some(change) => Some(UplinkMsg::PushPLLChange(change)),
                        None => None,
                    },
                    None => None,
                }
            } else if t == TAG_PUSH_FRACN {
                match fracn {
                    Some((count, values)) => Some(UplinkMsg::PushFracn(count, values)),
                    None => None,
                }
            } else if t == TAG_CLEAR_BUFFER {
                Some(UplinkMsg::ClearBuffer())
            } else if t == TAG_UPLOAD_DONE {
                Some(UplinkMsg::UploadDone())
            } else if t == TAG_START_NOW {
                Some(UplinkMsg::StartNow())
            } else if t == TAG_STOP_NOW {
                Some(UplinkMsg::StopNow())
            } else {
                None
            }
        },
    }
}

/// Decodes one frame, terminator included, into the command it carries.
/// Malformed stuffing, a truncated record and an unknown leading number all
/// give nothing.
pub fn try_decode_message(buff: &[u8]) -> (msg: Option<UplinkMsg>)
    ensures
        msg == decoded(buff@),
{
    let tag = read_tag(buff);
    let pll = if tag == Some(TAG_PUSH_PLL_CHANGE) {
        read_pll_fields(buff)
    } else {
        None
    };
    let fracn = if tag == Some(TAG_PUSH_FRACN) {
        read_fracn_fields(buff)
    } else {
        None
    };
    message_from(tag, pll, fracn)
}

/// Encodes a command as one frame of at most `MAX_UPLINK_MSG_SIZE` bytes,
/// terminator included. The frame holds no zero but its last byte, and it
/// decodes to the command again.
pub fn encode_message(msg: &UplinkMsg) -> (frame: Option<Vec<u8>>)
    ensures
        frame is None ==> encoded(*msg, MAX_UPLINK_MSG_SIZE) is None,
        frame matches Some(f) ==> encoded(*msg, MAX_UPLINK_MSG_SIZE) == Some(f@),
        frame matches Some(f) ==> is_frame(f@) && f@.len() <= MAX_UPLINK_MSG_SIZE,
        frame matches Some(f) ==> decoded(f@) == Some(*msg),
{
    match msg {
        UplinkMsg::Ping() => write_tag(TAG_PING, MAX_UPLINK_MSG_SIZE),
        UplinkMsg::PushPLLChange(change) => {
            let fields = (
                change.for_ticks as u64,
                change.start_tick as u64,
                change.divn,
                change.vcosel,
                change.divp,
                change.tim_us,
            );
            assert(pll_change_of(fields) == Some(*change));
            write_pll(TAG_PUSH_PLL_CHANGE, fields, MAX_UPLINK_MSG_SIZE)
        },
        UplinkMsg::PushFracn(count, values) => write_fracn(
            TAG_PUSH_FRACN,
            *count,
            values,
            MAX_UPLINK_MSG_SIZE,
        ),
        UplinkMsg::ClearBuffer() => write_tag(TAG_CLEAR_BUFFER, MAX_UPLINK_MSG_SIZE),
        UplinkMsg::UploadDone() => write_tag(TAG_UPLOAD_DONE, MAX_UPLINK_MSG_SIZE),
        UplinkMsg::StartNow() => write_tag(TAG_START_NOW, MAX_UPLINK_MSG_SIZE),
        UplinkMsg::StopNow() => write_tag(TAG_STOP_NOW, MAX_UPLINK_MSG_SIZE),
    }
}

/// The name of a command, for logs.
pub open spec fn uplink_name(msg: UplinkMsg) -> Seq<char> {
    match msg {
        UplinkMsg::Ping() => "Ping"@,
        UplinkMsg::PushPLLChange(_) => "PLLChange"@,
        UplinkMsg::PushFracn(_, _) => "PushFracn"@,
        UplinkMsg::UploadDone() => "UploadDone"@,
        UplinkMsg::ClearBuffer() => "ClearBuffer"@,
        UplinkMsg::StartNow() => "StartNow"@,
        UplinkMsg::StopNow() => "StopNow"@,
    }
}

pub fn uplink_to_str(msg: &UplinkMsg) -> (name: &'static str)
    ensures
        name@ == uplink_name(*msg),
{
    match msg {
        UplinkMsg::Ping() => "Ping",
        UplinkMsg::PushPLLChange(_) => "PLLChange",
        UplinkMsg::PushFracn(_, _) => "PushFracn",
        UplinkMsg::UploadDone() => "UploadDone",
        UplinkMsg::ClearBuffer() => "ClearBuffer",
        UplinkMsg::StartNow() => "StartNow",
        UplinkMsg::StopNow() => "StopNow",
    }
}

} // verus!
