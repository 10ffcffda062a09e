//! Publishing of battery telemetry into the overlay server's OSD.
use crate::shared_memory::{
    is_valid_segment, is_validation_error, unregister_region, unregister_result, write_region,
    write_result, SharedMemoryBuilder, SharedMemoryView,
};
use crate::text::{decimal, padded, push_decimal, push_padded, push_signed, signed_decimal};
use vstd::prelude::*;
use vstd::string::StringExecFns;
use vstd::utf8::encode_utf8;

verus! {

/// What can keep a publishing cycle from completing.
#[derive(Debug, PartialEq, Eq)]
pub enum Error {
    /// The segment does not exist, or holds no valid data.
    RtssV2NotRunning,
    /// The server is too old; carries its version as `major.minor`.
    RtssVersionNotSupported(String),
    /// Declared offsets or sizes do not fit the mapped region.
    UnexpectedMemoryLayout,
    /// Every slot belongs to some other client.
    NoEmptyOsdSlots,
    /// The composed text does not fit its slot buffer.
    EntryOverflow,
    /// An operating system call failed with this `HRESULT`.
    WindowsError(i32),
}

/// The `HRESULT` of a failed open whose object does not exist
/// (`ERROR_FILE_NOT_FOUND`).
pub const HRESULT_FILE_NOT_FOUND: i32 = -2147024894;

/// What a failed open of the segment means, given its `HRESULT`.
pub open spec fn open_failure(code: i32) -> Error {
    if code == HRESULT_FILE_NOT_FOUND {
        Error::RtssV2NotRunning
    } else {
        Error::WindowsError(code)
    }
}

/// The message that describes an error.
pub open spec fn error_message(e: Error) -> Seq<char> {
    match e {
        Error::RtssV2NotRunning => "RTSS is not running"@,
        Error::RtssVersionNotSupported(v) => "RTSS version is not supported: "@ + v@,
        Error::UnexpectedMemoryLayout => "RTSS shared memory layout does not match expectations"@,
        Error::NoEmptyOsdSlots => "All RTSS OSD slots are occupied"@,
        Error::EntryOverflow => "Entry does not fit in RTSS-allocated buffer"@,
        Error::WindowsError(code) => "Unexpected WinAPI error: "@ + signed_decimal(code as int),
    }
}

impl Error {
    /// The error for a failed open of the segment with this `HRESULT`: a
    /// missing object means that the server is not running.
    pub fn from_open_failure(code: i32) -> (r: Error)
        ensures
            r == open_failure(code),
    {
        if code == HRESULT_FILE_NOT_FOUND {
            Error::RtssV2NotRunning
        } else {
            Error::WindowsError(code)
        }
    }

    /// A message that describes the error.
    pub fn message(&self) -> (r: String)
        ensures
            r@ == error_message(*self),
    {
        match self {
            Error::RtssV2NotRunning => String::from_str("RTSS is not running"),
            Error::RtssVersionNotSupported(v) => {
                let mut r = String::from_str("RTSS version is not supported: ");
                r.append(v.as_str());
                r
            },
            Error::UnexpectedMemoryLayout => String::from_str(
                "RTSS shared memory layout does not match expectations",
            ),
            Error::NoEmptyOsdSlots => String::from_str("All RTSS OSD slots are occupied"),
            Error::EntryOverflow => String::from_str("Entry does not fit in RTSS-allocated buffer"),
            Error::WindowsError(code) => {
                let mut r = String::from_str("Unexpected WinAPI error: ");
                push_signed(&mut r, *code as i64);
                r
            },
        }
    }
}

/// A battery reading, as the surrounding application takes it.
pub struct BatteryStatus {
    /// Charge rate in mW: negative while draining.
    pub charge_rate: i32,
    /// Remaining capacity in mWh.
    pub capacity: u32,
}

/// The magnitude of a charge rate.
pub open spec fn magnitude(rate: i32) -> nat {
    if rate < 0 {
        (-rate) as nat
    } else {
        rate as nat
    }
}

/// A charge rate in mW, shown in W with three decimals, with a minus sign
/// for every draining rate.
pub open spec fn charge_text(rate: i32) -> Seq<char> {
    let m = magnitude(rate);
    let sign = if rate < 0 {
        "-"@
    } else {
        Seq::<char>::empty()
    };
    sign + decimal(m / 1000) + "."@ + padded(m % 1000, 3)
}

/// Whole minutes until the battery is empty at a draining rate.
pub open spec fn drain_minutes(b: BatteryStatus) -> nat {
    (60 * b.capacity) as nat / magnitude(b.charge_rate)
}

/// The OSD text for a battery reading taken at `hour:minute`: the charge
/// rate, the time left while draining, the server's frame rate token and
/// the time of day.
pub open spec fn osd_text(b: BatteryStatus, hour: u16, minute: u16) -> Seq<char> {
    let state = if b.charge_rate < 0 {
        "  "@ + decimal(drain_minutes(b)) + "<S=50>mins<S>"@
    } else {
        "  (on charger)"@
    };
    charge_text(b.charge_rate) + "<S=50>W<S>"@ + state + "\r\n"@ + "<FR><S=50>FPS<S>"@ + "  "@
        + padded(hour as nat, 2) + ":"@ + padded(minute as nat, 2)
}

/// Renders a charge rate; see `charge_text`.
fn format_charge_rate(rate: i32) -> (r: String)
    ensures
        r@ == charge_text(rate),
{
    let m: u64 = if rate < 0 {
        (-(rate as i64)) as u64
    } else {
        rate as u64
    };
    let mut r = String::new();
    if rate < 0 {
        r.append("-");
    }
    push_decimal(&mut r, m / 1000);
    r.append(".");
    push_padded(&mut r, m % 1000, 3);
    r
}

/// The publisher of battery telemetry into the overlay server's OSD.
///
/// It remembers only whether a write ever succeeded: only then is a slot
/// released on teardown.
pub struct Rtss {
    ever_updated: bool,
}

impl Rtss {
    /// Whether some write went through, so that a slot may carry our mark.
    pub closed spec fn is_active(&self) -> bool {
        self.ever_updated
    }

    pub fn new() -> (r: Rtss)
        ensures
            !r.is_active(),
    {
        Rtss { ever_updated: false }
    }

    /// Whether some write went through.
    pub fn ever_updated(&self) -> (r: bool)
        ensures
            r == self.is_active(),
    {
        self.ever_updated
    }

    /// Publishes one battery reading, taken at `hour:minute`, into our slot
    /// of the mapped region `mem`. The header is validated first; a region
    /// that fails validation is left untouched. The caller holds the
    /// segment's busy flag for the duration of the call.
    pub fn update(&mut self, mem: &mut [u8], battery: &BatteryStatus, hour: u16, minute: u16) -> (r:
        Result<(), Error>)
        ensures
            !is_valid_segment(old(mem)@) ==> {
                &&& r matches Err(e) && is_validation_error(old(mem)@, e)
                &&& final(mem)@ == old(mem)@
                &&& *final(self) == *old(self)
            },
            is_valid_segment(old(mem)@) ==> {
                &&& r == write_result(old(mem)@, encode_utf8(osd_text(*battery, hour, minute)))
                &&& final(mem)@ == write_region(
                    old(mem)@,
                    encode_utf8(osd_text(*battery, hour, minute)),
                )
            },
            final(self).is_active() == (old(self).is_active() || r is Ok),
    {
        let view = SharedMemoryView::from_region(mem)?;
        let mut builder = SharedMemoryBuilder::new();
        let charge = format_charge_rate(battery.charge_rate);
        builder.add_text(charge.as_str());
        builder.add_text("<S=50>W<S>");
        if battery.charge_rate < 0 {
            // draining
            let rate = (-(battery.charge_rate as i64)) as u64;
            let mins = (60 * battery.capacity as u64) / rate;
            let mut state = String::from_str("  ");
            push_decimal(&mut state, mins);
            state.append("<S=50>mins<S>");
            builder.add_text(state.as_str());
        } else {
            builder.add_text("  (on charger)");
        }
        builder.add_newline();
        builder.add_text("<FR><S=50>FPS<S>");
        let mut time = String::from_str("  ");
        push_padded(&mut time, hour as u64, 2);
        time.append(":");
        push_padded(&mut time, minute as u64, 2);
        builder.add_text(time.as_str());
        assert(builder.text() =~= osd_text(*battery, hour, minute));
        let r = builder.write(&view, mem);
        if r.is_ok() {
            self.ever_updated = true;
        }
        r
    }

    /// Releases the slots that carry our mark in the mapped region `mem`,
    /// where some write went through; does nothing otherwise. The header is
    /// validated first; a region that fails validation is left untouched.
    /// The caller holds the segment's busy flag for the duration of the call.
    pub fn unregister(&mut self, mem: &mut [u8]) -> (r: Result<(), Error>)
        ensures
            !old(self).is_active() ==> r is Ok && final(mem)@ == old(mem)@,
            old(self).is_active() && !is_valid_segment(old(mem)@) ==> {
                &&& r matches Err(e) && is_validation_error(old(mem)@, e)
                &&& final(mem)@ == old(mem)@
            },
            old(self).is_active() && is_valid_segment(old(mem)@) ==> {
                &&& r == unregister_result(old(mem)@)
                &&& final(mem)@ == unregister_region(old(mem)@)
            },
            *final(self) == *old(self),
    {
        if !self.ever_updated {
            return Ok(());
        }
        let view = SharedMemoryView::from_region(mem)?;
        view.unregister(mem)
    }
}

} // verus!
