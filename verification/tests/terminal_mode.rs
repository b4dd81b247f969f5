use docsail::terminal::{enter_full_screen, first_failure, TerminalControl, TerminalMode};
use std::{cell::RefCell, io, rc::Rc};

#[derive(Clone, Debug, PartialEq, Eq)]
enum Operation {
    EnableRawMode,
    DisableRawMode,
    EnterAlternateScreen,
    LeaveAlternateScreen,
    HideCursor,
    ShowCursor,
}

struct FakeTerminalControl {
    operations: Rc<RefCell<Vec<Operation>>>,
    enter_error: bool,
    leave_error: bool,
    hide_error: bool,
    show_error: bool,
}

impl FakeTerminalControl {
    fn new() -> (Self, Rc<RefCell<Vec<Operation>>>) {
        let operations = Rc::new(RefCell::new(Vec::new()));

        (
            Self {
                operations: Rc::clone(&operations),
                enter_error: false,
                leave_error: false,
                hide_error: false,
                show_error: false,
            },
            operations,
        )
    }

    fn with_enter_error() -> (Self, Rc<RefCell<Vec<Operation>>>) {
        let (mut control, operations) = Self::new();
        control.enter_error = true;
        (control, operations)
    }

    fn with_leave_error() -> (Self, Rc<RefCell<Vec<Operation>>>) {
        let (mut control, operations) = Self::new();
        control.leave_error = true;
        (control, operations)
    }
}

impl TerminalControl for FakeTerminalControl {
    fn enable_raw_mode(&mut self) -> io::Result<()> {
        self.operations.borrow_mut().push(Operation::EnableRawMode);
        Ok(())
    }

    fn disable_raw_mode(&mut self) -> io::Result<()> {
        self.operations.borrow_mut().push(Operation::DisableRawMode);
        Ok(())
    }

    fn enter_alternate_screen(&mut self) -> io::Result<()> {
        self.operations
            .borrow_mut()
            .push(Operation::EnterAlternateScreen);

        if self.enter_error {
            Err(io::Error::other("could not enter alternate screen"))
        } else {
            Ok(())
        }
    }

    fn leave_alternate_screen(&mut self) -> io::Result<()> {
        self.operations
            .borrow_mut()
            .push(Operation::LeaveAlternateScreen);

        if self.leave_error {
            Err(io::Error::other("could not leave alternate screen"))
        } else {
            Ok(())
        }
    }

    fn hide_cursor(&mut self) -> io::Result<()> {
        self.operations.borrow_mut().push(Operation::HideCursor);
        if self.hide_error {
            Err(io::Error::other("could not hide the cursor"))
        } else {
            Ok(())
        }
    }

    fn show_cursor(&mut self) -> io::Result<()> {
        self.operations.borrow_mut().push(Operation::ShowCursor);
        if self.show_error {
            Err(io::Error::other("could not show the cursor"))
        } else {
            Ok(())
        }
    }
}

#[test]
fn restores_terminal_mode_after_activation() {
    let (control, operations) = FakeTerminalControl::new();
    let mut mode = TerminalMode::activate(control).unwrap();

    mode.restore().unwrap();

    assert_eq!(
        *operations.borrow(),
        vec![
            Operation::EnableRawMode,
            Operation::EnterAlternateScreen,
            Operation::HideCursor,
            Operation::ShowCursor,
            Operation::LeaveAlternateScreen,
            Operation::DisableRawMode,
        ]
    );
}

#[test]
fn disables_raw_mode_when_entering_alternate_screen_fails() {
    let (control, operations) = FakeTerminalControl::with_enter_error();

    assert!(TerminalMode::activate(control).is_err());
    assert_eq!(
        *operations.borrow(),
        vec![
            Operation::EnableRawMode,
            Operation::EnterAlternateScreen,
            Operation::DisableRawMode,
        ]
    );
}

#[test]
fn retries_restoration_after_leaving_alternate_screen_fails() {
    let (control, operations) = FakeTerminalControl::with_leave_error();
    let mut mode = TerminalMode::activate(control).unwrap();

    assert!(mode.restore().is_err());
    mode.control_mut().leave_error = false;
    mode.restore().unwrap();

    assert_eq!(
        *operations.borrow(),
        vec![
            Operation::EnableRawMode,
            Operation::EnterAlternateScreen,
            Operation::HideCursor,
            Operation::ShowCursor,
            Operation::LeaveAlternateScreen,
            Operation::DisableRawMode,
            Operation::ShowCursor,
            Operation::LeaveAlternateScreen,
            Operation::DisableRawMode,
        ]
    );
}

#[test]
fn does_nothing_when_restoring_twice() {
    let (control, operations) = FakeTerminalControl::new();
    let mut mode = TerminalMode::activate(control).unwrap();
    assert!(mode.is_active());
    mode.restore().unwrap();
    assert!(!mode.is_active());
    mode.restore().unwrap();
    assert_eq!(operations.borrow().len(), 6);
}

#[test]
fn leaves_the_screen_and_raw_mode_when_hiding_the_cursor_fails() {
    let (mut control, operations) = FakeTerminalControl::new();
    control.hide_error = true;

    let error = enter_full_screen(&mut control).unwrap_err();

    assert_eq!(error.to_string(), "could not hide the cursor");
    assert_eq!(
        *operations.borrow(),
        vec![
            Operation::EnableRawMode,
            Operation::EnterAlternateScreen,
            Operation::HideCursor,
            Operation::LeaveAlternateScreen,
            Operation::DisableRawMode,
        ]
    );
}

#[test]
fn reports_the_first_of_several_restoration_failures() {
    let (control, operations) = FakeTerminalControl::new();
    let mut mode = TerminalMode::activate(control).unwrap();
    mode.control_mut().show_error = true;
    mode.control_mut().leave_error = true;

    let error = mode.restore().unwrap_err();

    assert_eq!(error.to_string(), "could not show the cursor");
    assert!(mode.is_active());
    assert_eq!(operations.borrow().len(), 6);
}

#[test]
fn picks_the_first_failure_of_three_outcomes() {
    assert!(first_failure(Ok(()), Ok(()), Ok(())).is_ok());
    let error = first_failure(Ok(()), Err(io::Error::other("screen")), Err(io::Error::other("raw")))
        .unwrap_err();
    assert_eq!(error.to_string(), "screen");
    let error = first_failure(Ok(()), Ok(()), Err(io::Error::other("raw"))).unwrap_err();
    assert_eq!(error.to_string(), "raw");
}
