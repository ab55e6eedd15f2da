//! Focus reporting requested by terminal applications with DECSET 1004.
use vstd::prelude::*;

verus! {

pub const FOCUS_IN: [u8; 3] = [0x1b, 0x5b, 0x49];

pub const FOCUS_OUT: [u8; 3] = [0x1b, 0x5b, 0x4f];

/// `CSI I` on focus, `CSI O` on blur.
pub open spec fn focus_report(focused: bool) -> Seq<u8> {
    if focused {
        seq![0x1bu8, 0x5b, 0x49]
    } else {
        seq![0x1bu8, 0x5b, 0x4f]
    }
}

/// The notification owed for the acknowledged state `reported`: none while
/// reporting is off or the application already knows the current focus.
pub open spec fn owed(reported: Option<bool>, enabled: bool, focused: bool) -> Option<Seq<u8>> {
    if !enabled || reported == Some(focused) {
        None
    } else {
        Some(focus_report(focused))
    }
}

/// The acknowledged state after asking for a notification: disabling
/// reporting forgets it so that re-enabling synchronizes again.
pub open spec fn after_pending(reported: Option<bool>, enabled: bool) -> Option<bool> {
    if enabled {
        reported
    } else {
        None
    }
}

pub struct FocusReporter {
    reported: Option<bool>,
}

impl View for FocusReporter {
    type V = Option<bool>;

    closed spec fn view(&self) -> Option<bool> {
        self.reported
    }
}

impl Default for FocusReporter {
    fn default() -> (r: Self)
        ensures
            r@ is None,
    {
        FocusReporter { reported: None }
    }
}

impl FocusReporter {
    /// Synchronize on enable and suppress duplicate notifications. A failed send
    /// is not acknowledged, so the caller can retry the latest focus state.
    pub fn pending(&mut self, enabled: bool, focused: bool) -> (r: Option<&'static [u8]>)
        ensures
            final(self)@ == after_pending(old(self)@, enabled),
            match r {
                Some(bytes) => owed(old(self)@, enabled, focused) == Some(bytes@),
                None => owed(old(self)@, enabled, focused) is None,
            },
    {
        if !enabled {
            self.reported = None;
            return None;
        }
        if self.reported == Some(focused) {
            None
        } else if focused {
            let bytes: &'static [u8] = &FOCUS_IN;
            assert(bytes@ =~= focus_report(true));
            Some(bytes)
        } else {
            let bytes: &'static [u8] = &FOCUS_OUT;
            assert(bytes@ =~= focus_report(false));
            Some(bytes)
        }
    }

    /// Call only after the input queue accepts the corresponding notification.
    pub fn acknowledge(&mut self, focused: bool)
        ensures
            final(self)@ == Some(focused),
    {
        self.reported = Some(focused);
    }
}

/// Once a notification for the current focus is acknowledged, no further
/// notification is owed until the focus changes.
pub proof fn law_acknowledged_focus_is_quiet(focused: bool)
    ensures
        owed(Some(focused), true, focused) is None,
        owed(Some(focused), true, !focused) == Some(focus_report(!focused)),
{
}

/// Re-enabling reporting always synchronizes: after a disabled query, the
/// next enabled query owes the current focus whatever was acknowledged before.
pub proof fn law_reenable_synchronizes(reported: Option<bool>, focused: bool, next: bool)
    ensures
        after_pending(reported, false) is None,
        owed(after_pending(reported, false), true, next) == Some(focus_report(next)),
{
}

/// An unacknowledged query changes nothing, so a failed send is retried
/// with the latest focus and never with a stale one.
pub proof fn law_unacknowledged_query_retries(reported: Option<bool>, first: bool, second: bool)
    ensures
        after_pending(reported, true) == reported,
        owed(after_pending(reported, true), true, second) == owed(reported, true, second),
{
}

} // verus!
