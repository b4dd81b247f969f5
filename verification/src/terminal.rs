//! Entering and leaving the terminal's full-screen mode: raw input, the
//! alternate screen and a hidden cursor, with each step undone when a later
//! one fails, and a restoration that can be tried again.

use vstd::prelude::*;

verus! {

/// `std::io::Error`, carried through from the terminal calls.
#[verifier::external_type_specification]
#[verifier::external_body]
pub struct ExIoError(std::io::Error);

/// One operation on the terminal.
#[derive(Clone, Copy, Debug, PartialEq, Eq, Structural)]
pub enum TerminalOperation {
    EnableRawMode,
    DisableRawMode,
    EnterAlternateScreen,
    LeaveAlternateScreen,
    HideCursor,
    ShowCursor,
}

/// An operation carried out on the terminal, with its outcome.
pub type Performed = (TerminalOperation, Result<(), std::io::Error>);

/// The terminal operations that full-screen mode is made of. The front end
/// implements them on the real terminal; each reports its own failure.
///
/// An implementation may keep a record of what it carried out: then
/// `keeps_record` is true and every method adds its operation and outcome
/// to `performed`. The contracts of [`TerminalMode`] speak of the record of
/// such implementations. One that keeps no record (every implementation
/// written outside the verified library) states nothing through it.
pub trait TerminalControl {
    /// Whether `performed` is the record of the operations carried out.
    open spec fn keeps_record() -> bool {
        false
    }

    /// The operations carried out through this value so far, oldest first.
    open spec fn performed(&self) -> Seq<Performed> {
        Seq::empty()
    }

    fn enable_raw_mode(&mut self) -> (result: Result<(), std::io::Error>)
        ensures
            Self::keeps_record() ==> final(self).performed() == old(self).performed().push(
                (TerminalOperation::EnableRawMode, result),
            ),
    ;

    fn disable_raw_mode(&mut self) -> (result: Result<(), std::io::Error>)
        ensures
            Self::keeps_record() ==> final(self).performed() == old(self).performed().push(
                (TerminalOperation::DisableRawMode, result),
            ),
    ;

    fn enter_alternate_screen(&mut self) -> (result: Result<(), std::io::Error>)
        ensures
            Self::keeps_record() ==> final(self).performed() == old(self).performed().push(
                (TerminalOperation::EnterAlternateScreen, result),
            ),
    ;

    fn leave_alternate_screen(&mut self) -> (result: Result<(), std::io::Error>)
        ensures
            Self::keeps_record() ==> final(self).performed() == old(self).performed().push(
                (TerminalOperation::LeaveAlternateScreen, result),
            ),
    ;

    fn hide_cursor(&mut self) -> (result: Result<(), std::io::Error>)
        ensures
            Self::keeps_record() ==> final(self).performed() == old(self).performed().push(
                (TerminalOperation::HideCursor, result),
            ),
    ;

    fn show_cursor(&mut self) -> (result: Result<(), std::io::Error>)
        ensures
            Self::keeps_record() ==> final(self).performed() == old(self).performed().push(
                (TerminalOperation::ShowCursor, result),
            ),
    ;
}

/// The operations of a record, without their outcomes.
pub open spec fn operations_of(record: Seq<Performed>) -> Seq<TerminalOperation> {
    record.map_values(|p: Performed| p.0)
}

/// The first failure among `outcomes`, or success when none failed.
pub open spec fn first_error(outcomes: Seq<Result<(), std::io::Error>>) -> Result<(), std::io::Error>
    decreases outcomes.len(),
{
    if outcomes.len() == 0 {
        Ok(())
    } else if outcomes.len() == 1 || outcomes[0] is Err {
        outcomes[0]
    } else {
        first_error(outcomes.drop_first())
    }
}

/// `added` is what entering full-screen mode carries out, with `result`:
/// raw mode, then the alternate screen, then hiding the cursor, stopping at
/// the first failure and undoing the steps before it (a failed alternate
/// screen disables raw mode again; a failed cursor leaves the alternate
/// screen and then disables raw mode); that failure is the result.
pub open spec fn entering(added: Seq<Performed>, result: Result<(), std::io::Error>) -> bool {
    let ops = operations_of(added);
    if added.len() > 0 && added[0].1 is Err {
        ops == seq![TerminalOperation::EnableRawMode] && result == added[0].1
    } else if added.len() > 1 && added[1].1 is Err {
        &&& ops == seq![
            TerminalOperation::EnableRawMode,
            TerminalOperation::EnterAlternateScreen,
            TerminalOperation::DisableRawMode,
        ]
        &&& result == added[1].1
    } else if added.len() > 2 && added[2].1 is Err {
        &&& ops == seq![
            TerminalOperation::EnableRawMode,
            TerminalOperation::EnterAlternateScreen,
            TerminalOperation::HideCursor,
            TerminalOperation::LeaveAlternateScreen,
            TerminalOperation::DisableRawMode,
        ]
        &&& result == added[2].1
    } else {
        &&& ops == seq![
            TerminalOperation::EnableRawMode,
            TerminalOperation::EnterAlternateScreen,
            TerminalOperation::HideCursor,
        ]
        &&& result is Ok
    }
}

/// `added` is what leaving full-screen mode carries out, with `result`:
/// showing the cursor, leaving the alternate screen and disabling raw mode,
/// all three whatever fails, and the first failure as the result.
pub open spec fn leaving(added: Seq<Performed>, result: Result<(), std::io::Error>) -> bool {
    &&& operations_of(added) == seq![
        TerminalOperation::ShowCursor,
        TerminalOperation::LeaveAlternateScreen,
        TerminalOperation::DisableRawMode,
    ]
    &&& result == first_error(seq![added[0].1, added[1].1, added[2].1])
}

/// `after` is `before` with `added` appended.
pub open spec fn extended_by(before: Seq<Performed>, after: Seq<Performed>, added: Seq<Performed>) -> bool {
    after == before + added
}

/// The first failure of the three steps of leaving full-screen mode, or
/// success when none failed.
pub fn first_failure(
    cursor: Result<(), std::io::Error>,
    screen: Result<(), std::io::Error>,
    raw_mode: Result<(), std::io::Error>,
) -> (result: Result<(), std::io::Error>)
    ensures
        result == first_error(seq![cursor, screen, raw_mode]),
{
    let ghost outcomes = seq![cursor, screen, raw_mode];
    assert(outcomes.drop_first() =~= seq![screen, raw_mode]);
    assert(outcomes.drop_first().drop_first() =~= seq![raw_mode]);
    assert(outcomes.drop_first().drop_first().drop_first() =~= Seq::<Result<(), std::io::Error>>::empty());
    assert(outcomes[0] == cursor && outcomes[1] == screen && outcomes[2] == raw_mode);
    reveal_with_fuel(first_error, 4);
    if cursor.is_err() {
        return cursor;
    }
    if screen.is_err() {
        return screen;
    }
    raw_mode
}

/// Puts the terminal into full-screen mode through `control`: enables raw
/// mode, enters the alternate screen and hides the cursor, in that order.
/// When a step fails, the steps before it are undone (their own failures
/// ignored) and that failure is returned.
pub fn enter_full_screen<C: TerminalControl>(control: &mut C) -> (result: Result<(), std::io::Error>)
    ensures
        C::keeps_record() ==> extended_by(
            old(control).performed(),
            final(control).performed(),
            final(control).performed().skip(old(control).performed().len() as int),
        ) && entering(final(control).performed().skip(old(control).performed().len() as int), result),
{
    let ghost start = control.performed();
    let raw = control.enable_raw_mode();
    if let Err(error) = raw {
        proof {
            if C::keeps_record() {
                let added = control.performed().skip(start.len() as int);
                assert(added =~= seq![(TerminalOperation::EnableRawMode, Err(error))]);
                assert(operations_of(added) =~= seq![TerminalOperation::EnableRawMode]);
                assert(control.performed() =~= start + added);
            }
        }
        return Err(error);
    }
    let screen = control.enter_alternate_screen();
    if let Err(error) = screen {
        let undo = control.disable_raw_mode();
        proof {
            if C::keeps_record() {
                let added = control.performed().skip(start.len() as int);
                assert(added =~= seq![
                    (TerminalOperation::EnableRawMode, raw),
                    (TerminalOperation::EnterAlternateScreen, Err(error)),
                    (TerminalOperation::DisableRawMode, undo),
                ]);
                assert(operations_of(added) =~= seq![
                    TerminalOperation::EnableRawMode,
                    TerminalOperation::EnterAlternateScreen,
                    TerminalOperation::DisableRawMode,
                ]);
                assert(control.performed() =~= start + added);
            }
        }
        return Err(error);
    }
    let cursor = control.hide_cursor();
    if let Err(error) = cursor {
        let leave = control.leave_alternate_screen();
        let undo = control.disable_raw_mode();
        proof {
            if C::keeps_record() {
                let added = control.performed().skip(start.len() as int);
                assert(added =~= seq![
                    (TerminalOperation::EnableRawMode, raw),
                    (TerminalOperation::EnterAlternateScreen, screen),
                    (TerminalOperation::HideCursor, Err(error)),
                    (TerminalOperation::LeaveAlternateScreen, leave),
                    (TerminalOperation::DisableRawMode, undo),
                ]);
                assert(operations_of(added) =~= seq![
                    TerminalOperation::EnableRawMode,
                    TerminalOperation::EnterAlternateScreen,
                    TerminalOperation::HideCursor,
                    TerminalOperation::LeaveAlternateScreen,
                    TerminalOperation::DisableRawMode,
                ]);
                assert(control.performed() =~= start + added);
            }
        }
        return Err(error);
    }
    proof {
        if C::keeps_record() {
            let added = control.performed().skip(start.len() as int);
            assert(added =~= seq![
                (TerminalOperation::EnableRawMode, raw),
                (TerminalOperation::EnterAlternateScreen, screen),
                (TerminalOperation::HideCursor, cursor),
            ]);
            assert(operations_of(added) =~= seq![
                TerminalOperation::EnableRawMode,
                TerminalOperation::EnterAlternateScreen,
                TerminalOperation::HideCursor,
            ]);
            assert(control.performed() =~= start + added);
        }
    }
    Ok(())
}

/// The terminal in full-screen mode, until it is restored.
pub struct TerminalMode<C: TerminalControl> {
    control: C,
    is_active: bool,
}

impl<C: TerminalControl> TerminalMode<C> {
    /// Whether full-screen mode is still in force.
    pub closed spec fn active(&self) -> bool {
        self.is_active
    }

    /// The terminal operations that the mode works through.
    pub closed spec fn controls(&self) -> C {
        self.control
    }

    /// Enters full-screen mode through `control` (see [`enter_full_screen`]):
    /// raw mode, the alternate screen and a hidden cursor, with the steps
    /// undone and the first failure returned when one fails. On success the
    /// mode is active and holds `control` after the three steps.
    pub fn activate(control: C) -> (result: Result<TerminalMode<C>, std::io::Error>)
        ensures
            result matches Ok(mode) ==> mode.active(),
            C::keeps_record() ==> (result matches Ok(mode) ==> extended_by(
                control.performed(),
                mode.controls().performed(),
                mode.controls().performed().skip(control.performed().len() as int),
            ) && entering(mode.controls().performed().skip(control.performed().len() as int), Ok(()))),
    {
        let mut control = control;
        match enter_full_screen(&mut control) {
            Err(error) => Err(error),
            Ok(()) => {
                Ok(TerminalMode { control, is_active: true })
            },
        }
    }

    /// Whether full-screen mode is still in force.
    pub fn is_active(&self) -> (active: bool)
        ensures
            active == self.active(),
    {
        self.is_active
    }

    /// The terminal operations in use.
    pub fn control(&self) -> (control: &C)
        ensures
            *control == self.controls(),
    {
        &self.control
    }

    /// The terminal operations in use, to adjust them; the mode keeps what
    /// the caller leaves in them.
    pub fn control_mut(&mut self) -> (control: &mut C)
        ensures
            *control == old(self).controls(),
            final(self).controls() == *final(control),
            final(self).active() == old(self).active(),
    {
        &mut self.control
    }

    /// Leaves full-screen mode: shows the cursor, leaves the alternate
    /// screen and disables raw mode, all three even when one fails, and
    /// returns the first failure (see [`first_failure`]). Only a restoration
    /// without failure ends full-screen mode, so a failed one can be tried
    /// again; once restored, nothing more is done.
    pub fn restore(&mut self) -> (result: Result<(), std::io::Error>)
        ensures
            !old(self).active() ==> result is Ok && *final(self) == *old(self),
            old(self).active() ==> final(self).active() == result is Err,
            old(self).active() && C::keeps_record() ==> extended_by(
                old(self).controls().performed(),
                final(self).controls().performed(),
                final(self).controls().performed().skip(old(self).controls().performed().len() as int),
            ) && leaving(
                final(self).controls().performed().skip(old(self).controls().performed().len() as int),
                result,
            ),
    {
        if !self.is_active {
            return Ok(());
        }
        let ghost start = self.control.performed();
        let cursor_result = self.control.show_cursor();
        let screen_result = self.control.leave_alternate_screen();
        let raw_mode_result = self.control.disable_raw_mode();
        proof {
            if C::keeps_record() {
                let added = self.control.performed().skip(start.len() as int);
                assert(added =~= seq![
                    (TerminalOperation::ShowCursor, cursor_result),
                    (TerminalOperation::LeaveAlternateScreen, screen_result),
                    (TerminalOperation::DisableRawMode, raw_mode_result),
                ]);
                assert(operations_of(added) =~= seq![
                    TerminalOperation::ShowCursor,
                    TerminalOperation::LeaveAlternateScreen,
                    TerminalOperation::DisableRawMode,
                ]);
                assert(self.control.performed() =~= start + added);
            }
        }
        let result = first_failure(cursor_result, screen_result, raw_mode_result);
        if result.is_ok() {
            self.is_active = false;
        }
        result
    }
}

} // verus!
