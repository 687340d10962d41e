//! The decisions of the loop that reads a connected Wiimote.
use vstd::prelude::*;

verus! {

/// Reporting mode 0x31: core buttons and accelerometer.
pub const MODE_BUTTONS_ACCEL: u8 = 0x31;

/// Reporting mode 0x35: core buttons, accelerometer and 16 extension bytes
/// (where MotionPlus data arrives).
pub const MODE_BUTTONS_ACCEL_EXT: u8 = 0x35;

/// The reporting mode to ask the Wiimote for: 0x35 when MotionPlus was set up and
/// calibrated, otherwise 0x31.
pub fn reporting_mode(motion_plus_calibrated: bool) -> (mode: u8)
    ensures
        mode == (if motion_plus_calibrated {
            MODE_BUTTONS_ACCEL_EXT
        } else {
            MODE_BUTTONS_ACCEL
        }),
{
    if motion_plus_calibrated {
        MODE_BUTTONS_ACCEL_EXT
    } else {
        MODE_BUTTONS_ACCEL
    }
}

/// What one read from the Wiimote gave.
#[derive(Clone, Copy, Debug, PartialEq, Eq, Structural)]
pub enum ReadOutcome {
    /// A status information report.
    Status,
    /// A data report with the given report id.
    Data(u8),
    /// A report of any other kind.
    OtherReport,
    /// The read failed or timed out.
    Failed,
}

/// What the reading loop does next.
#[derive(Clone, Copy, Debug, PartialEq, Eq, Structural)]
pub enum ReaderAction {
    /// Send the reporting mode again (the Wiimote drops it after a status report).
    SetReportingMode(u8),
    /// Decode the buttons and accelerometer of the data report and act on them.
    ProcessSample,
    /// Nothing; read again.
    Ignore,
}

/// The action for one read, given the reporting mode in use: a status report makes
/// the loop send that mode again; a data report with id 0x31 or 0x35 is processed
/// (whichever mode is in use); anything else is ignored.
pub fn next_action(report_mode: u8, outcome: ReadOutcome) -> (action: ReaderAction)
    ensures
        action == match outcome {
            ReadOutcome::Status => ReaderAction::SetReportingMode(report_mode),
            ReadOutcome::Data(id) => if id == MODE_BUTTONS_ACCEL || id == MODE_BUTTONS_ACCEL_EXT {
                ReaderAction::ProcessSample
            } else {
                ReaderAction::Ignore
            },
            ReadOutcome::OtherReport | ReadOutcome::Failed => ReaderAction::Ignore,
        },
{
    match outcome {
        ReadOutcome::Status => ReaderAction::SetReportingMode(report_mode),
        ReadOutcome::Data(id) => {
            if id == MODE_BUTTONS_ACCEL || id == MODE_BUTTONS_ACCEL_EXT {
                ReaderAction::ProcessSample
            } else {
                ReaderAction::Ignore
            }
        },
        ReadOutcome::OtherReport | ReadOutcome::Failed => ReaderAction::Ignore,
    }
}

} // verus!
