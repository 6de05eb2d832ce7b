use vstd::prelude::*;

verus! {

/// How a button is shown.
#[derive(Clone, Copy, Debug, PartialEq, Eq, Structural)]
pub enum ButtonLook {
    Base,
    Hovered,
    Pressed,
    Disabled,
}

/// The pointer's interaction with a button.
#[derive(Clone, Copy, Debug, PartialEq, Eq, Structural)]
pub enum PointerInteraction {
    Pressed,
    Hovered,
    Idle,
}

/// What a button does when its interaction changes.
#[derive(Clone, Copy, Debug, PartialEq, Eq, Structural)]
pub struct ButtonResponse {
    /// The look to give it.
    pub look: ButtonLook,
    /// Whether it is activated (its action runs).
    pub activate: bool,
    /// Whether it is marked as changed, so that its look is redrawn.
    pub mark_changed: bool,
}

/// A disabled button is shown disabled and does nothing; an enabled one is
/// activated when pressed, and shows the look of its interaction.
pub fn button_response(disabled: bool, interaction: PointerInteraction) -> (r: ButtonResponse)
    ensures
        disabled ==> r == (ButtonResponse { look: ButtonLook::Disabled, activate: false, mark_changed: false }),
        !disabled ==> r == (match interaction {
            PointerInteraction::Pressed => ButtonResponse { look: ButtonLook::Pressed, activate: true, mark_changed: true },
            PointerInteraction::Hovered => ButtonResponse { look: ButtonLook::Hovered, activate: false, mark_changed: true },
            PointerInteraction::Idle => ButtonResponse { look: ButtonLook::Base, activate: false, mark_changed: false },
        }),
{
    if disabled {
        return ButtonResponse { look: ButtonLook::Disabled, activate: false, mark_changed: false };
    }
    match interaction {
        PointerInteraction::Pressed => ButtonResponse { look: ButtonLook::Pressed, activate: true, mark_changed: true },
        PointerInteraction::Hovered => ButtonResponse { look: ButtonLook::Hovered, activate: false, mark_changed: true },
        PointerInteraction::Idle => ButtonResponse { look: ButtonLook::Base, activate: false, mark_changed: false },
    }
}

/// What a request to enable or disable a button did to it.
#[derive(Clone, Copy, Debug, PartialEq, Eq, Structural)]
pub enum EnableOutcome {
    /// The count of reasons to keep it disabled came to zero: it is enabled
    /// and shown with its base look.
    Enabled,
    /// It was enabled and is now disabled, shown disabled.
    Disabled,
    /// It stays disabled, with one reason more or less.
    StillDisabled,
    /// It was asked to be enabled while already enabled: nothing changes.
    AlreadyEnabled,
}

/// A button's disabling state as the game builds it: `None` when enabled,
/// `Some(k)` when `k` reasons, at least one, keep it disabled.
pub open spec fn disable_state_ok(state: Option<i32>) -> bool {
    state matches Some(k) ==> k >= 1
}

/// Number of reasons that keep a button disabled.
pub open spec fn disable_count(state: Option<i32>) -> int {
    match state {
        Some(k) => k as int,
        None => 0,
    }
}

/// The disabling state after a request to enable (`enable`) or disable
/// the button: disabling adds a reason, enabling takes one away (nothing
/// when the button is enabled already); the button is enabled again when
/// the count of reasons comes to zero.
pub open spec fn spec_after_enable(state: Option<i32>, enable: bool) -> Option<i32> {
    match state {
        Some(k) => {
            let k2 = if enable { k - 1 } else { k + 1 };
            if k2 == 0 { None } else { Some(k2 as i32) }
        },
        None => if enable { None } else { Some(1i32) },
    }
}

/// Handles a request to enable or disable a button whose disabling state
/// is `state`; gives the new state and what happened. The count of reasons
/// must stay within the range of `i32`.
pub fn on_button_enable(state: Option<i32>, enable: bool) -> (r: (Option<i32>, EnableOutcome))
    requires
        state matches Some(k) ==> (if enable { k > i32::MIN } else { k < i32::MAX }),
    ensures
        disable_state_ok(state) ==> disable_state_ok(r.0),
        r.0 == spec_after_enable(state, enable),
        r.1 == (match state {
            Some(k) => if (enable && k == 1) || (!enable && k == -1) {
                EnableOutcome::Enabled
            } else {
                EnableOutcome::StillDisabled
            },
            None => if enable { EnableOutcome::AlreadyEnabled } else { EnableOutcome::Disabled },
        }),
{
    match state {
        Some(k) => {
            let k2 = if enable { k - 1 } else { k + 1 };
            if k2 == 0 {
                (None, EnableOutcome::Enabled)
            } else {
                (Some(k2), EnableOutcome::StillDisabled)
            }
        },
        None => {
            if !enable {
                (Some(1), EnableOutcome::Disabled)
            } else {
                (None, EnableOutcome::AlreadyEnabled)
            }
        },
    }
}

/// Disabling a button and then enabling it again leaves it as it was, and
/// a button is disabled exactly while some reason keeps it so: the count of
/// reasons goes up by one on each disabling and down by one on each
/// enabling of a disabled button.
pub proof fn lemma_disable_then_enable(state: Option<i32>)
    requires
        disable_state_ok(state),
        disable_count(state) < i32::MAX,
    ensures
        spec_after_enable(spec_after_enable(state, false), true) == state,
        disable_count(spec_after_enable(state, false)) == disable_count(state) + 1,
        state is Some ==> disable_count(spec_after_enable(state, true)) == disable_count(state) - 1,
        (spec_after_enable(state, true) is None) <==> disable_count(state) <= 1,
{
}

/// New record and report under `report_on_change`.
pub open spec fn spec_report_on_change(recorded: Option<bool>, current: bool) -> (Option<bool>, Option<bool>) {
    (Some(current), if recorded == Some(current) { None::<bool> } else { Some(current) })
}

/// Report under `report_on_change_from_enabled`.
pub open spec fn spec_report_from_enabled(recorded: Option<bool>, current: bool) -> Option<bool> {
    match recorded {
        Some(previous) => if previous != current { Some(current) } else { None::<bool> },
        None => if current { None::<bool> } else { Some(false) },
    }
}

/// A button whose enabling follows one condition (enough coins, a valid
/// map, ...) records the condition as last reported in `Option<bool>` and
/// reports it when it changes. This is the rule for a record kept by the
/// system itself: the first report is always sent, later ones only on a
/// change. Gives the new record and the report to send, if any.
pub fn report_on_change(recorded: Option<bool>, current: bool) -> (r: (Option<bool>, Option<bool>))
    ensures
        r == spec_report_on_change(recorded, current),
        r.0 == Some(current),
        recorded == Some(current) ==> r.1 is None,
        recorded != Some(current) ==> r.1 == Some(current),
{
    match recorded {
        Some(previous) => {
            if previous != current {
                (Some(current), Some(current))
            } else {
                (Some(current), None)
            }
        },
        None => (Some(current), Some(current)),
    }
}

/// The same rule for a record stored on the button itself: with no record
/// yet, the condition is recorded and reported only when it is false (the
/// button starts enabled); later it is reported on each change.
pub fn report_on_change_from_enabled(recorded: Option<bool>, current: bool) -> (r: (bool, Option<bool>))
    ensures
        r.0 == current,
        r.1 == spec_report_from_enabled(recorded, current),
        recorded == Some(current) ==> r.1 is None,
        recorded == Some(!current) ==> r.1 == Some(current),
        recorded is None ==> r.1 == (if current { None::<bool> } else { Some(false) }),
{
    match recorded {
        Some(previous) => {
            if previous != current {
                (current, Some(current))
            } else {
                (current, None)
            }
        },
        None => {
            if !current {
                (current, Some(false))
            } else {
                (current, None)
            }
        },
    }
}

/// The disabling state of a button driven by one condition alone: disabled
/// by one reason while the recorded condition is false, enabled otherwise.
pub open spec fn follows(recorded: Option<bool>, state: Option<i32>) -> bool {
    state == (if recorded == Some(false) { Some(1i32) } else { None::<i32> })
}

/// The state after sending `report` (if any) to a button in `state`.
pub open spec fn spec_after_report(state: Option<i32>, report: Option<bool>) -> Option<i32> {
    match report {
        Some(enable) => spec_after_enable(state, enable),
        None => state,
    }
}

/// Reporting changes keeps a button in step with its condition: if the
/// button followed the recorded condition, then after a new report it
/// follows the new record, with either rule for the record, so the button
/// is enabled exactly when the last reported condition holds.
pub proof fn lemma_reports_keep_button_in_step(recorded: Option<bool>, state: Option<i32>, current: bool)
    requires
        follows(recorded, state),
    ensures
        follows(spec_report_on_change(recorded, current).0, spec_after_report(state, spec_report_on_change(recorded, current).1)),
        follows(Some(current), spec_after_report(state, spec_report_from_enabled(recorded, current))),
{
}

/// A report is exactly a change of the condition: the record becomes the
/// current condition, and the condition is reported precisely when it
/// differs from the recorded one (always, when nothing was recorded yet).
pub proof fn lemma_report_is_the_change(recorded: Option<bool>, current: bool)
    ensures
        spec_report_on_change(recorded, current).0 == Some(current),
        recorded == Some(current) ==> spec_report_on_change(recorded, current).1 is None,
        recorded != Some(current) ==> spec_report_on_change(recorded, current).1 == Some(current),
{
}

/// With the record kept on the button, nothing is reported while the
/// condition stays as recorded, a change is reported as the new condition,
/// and with no record yet only a false condition is reported (the button
/// starts enabled).
pub proof fn lemma_report_from_enabled_only_on_change(recorded: Option<bool>, current: bool)
    ensures
        recorded == Some(current) ==> spec_report_from_enabled(recorded, current) is None,
        recorded == Some(!current) ==> spec_report_from_enabled(recorded, current) == Some(current),
        recorded is None ==> (spec_report_from_enabled(recorded, current) is None <==> current),
        spec_report_from_enabled(recorded, current) matches Some(b) ==> b == current,
{
}

} // verus!
