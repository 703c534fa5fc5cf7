//! The module that runs the compositor on the event bus: the signals it asks for, and what
//! it does with each notification.

use vstd::prelude::*;
use crate::compositor::Compositor;
use crate::coordinator::InnerCoordinator;
use crate::defs::{Position, SurfaceId, Vector};
use crate::perceptron::{
    Button, Command, OutputBundle, Perceptron, COMMAND, CURSOR_SURFACE_CHANGE,
    INPUT_POINTER_BUTTON, INPUT_POINTER_MOTION, INPUT_POINTER_POSITION,
    INPUT_POINTER_POSITION_RESET, KEYBOARD_FOCUS_CHANGED, NOTIFY, OUTPUT_FOUND, PAGE_FLIP,
    SURFACE_DESTROYED, SURFACE_READY,
};
use crate::signaler::SignalId;

verus! {

/// What is left to do for a notification after the module has seen it: the handler that
/// the caller runs, with what the notification carried.
#[derive(Clone, Copy, Debug, PartialEq, Eq, Structural)]
pub enum Handling {
    /// Nothing is left to do.
    Done,
    Notify,
    OutputFound(OutputBundle),
    PageFlip(i32),
    Command(Command),
    Motion(Vector),
    Position(Position),
    Button(Button),
    PositionReset,
    CursorSurfaceChange(SurfaceId),
    KeyboardFocusChanged(SurfaceId),
}

/// The handler for each kind of notification. A surface that became ready or was destroyed
/// is dealt with in the frame tree, and a change of keyboard focus is handled with the
/// surface that has the keyboard now. What the compositor does not ask for is passed over.
pub open spec fn handling_of(package: Perceptron) -> Handling {
    match package {
        Perceptron::Notify => Handling::Notify,
        Perceptron::OutputFound(bundle) => Handling::OutputFound(bundle),
        Perceptron::PageFlip(id) => Handling::PageFlip(id),
        Perceptron::Command(command) => Handling::Command(command),
        Perceptron::InputPointerMotion(vector) => Handling::Motion(vector),
        Perceptron::InputPointerPosition(position) => Handling::Position(position),
        Perceptron::InputPointerButton(button) => Handling::Button(button),
        Perceptron::InputPointerPositionReset => Handling::PositionReset,
        Perceptron::CursorSurfaceChange(sid) => Handling::CursorSurfaceChange(sid),
        Perceptron::KeyboardFocusChanged(_, sid) => Handling::KeyboardFocusChanged(sid),
        _ => Handling::Done,
    }
}

/// The signals that the module asks for, in the order in which it asks.
pub open spec fn wanted_signals() -> Seq<SignalId> {
    seq![
        NOTIFY,
        PAGE_FLIP,
        OUTPUT_FOUND,
        COMMAND,
        INPUT_POINTER_MOTION,
        INPUT_POINTER_POSITION,
        INPUT_POINTER_BUTTON,
        INPUT_POINTER_POSITION_RESET,
        CURSOR_SURFACE_CHANGE,
        SURFACE_READY,
        SURFACE_DESTROYED,
        KEYBOARD_FOCUS_CHANGED,
    ]
}

/// The module. It holds a compositor from its initialization on.
pub struct ExhibitorModule {
    pub exhibitor: Option<Compositor>,
}

impl ExhibitorModule {
    /// The compositor is well formed, if there is one.
    pub open spec fn wf(&self) -> bool {
        self.exhibitor matches Some(compositor) ==> compositor.wf()
    }

    /// A module that was not initialized yet.
    pub fn new() -> (module: ExhibitorModule)
        ensures
            module.exhibitor.is_none(),
            module.wf(),
    {
        ExhibitorModule { exhibitor: None }
    }

    /// Starts the module with a new compositor, and returns the signals to subscribe it
    /// for.
    pub fn initialize(&mut self) -> (signals: Vec<SignalId>)
        ensures
            final(self).wf(),
            final(self).exhibitor.is_some(),
            final(self).exhibitor.unwrap().selection.is_none(),
            final(self).exhibitor.unwrap().history@.len() == 0,
            final(self).exhibitor.unwrap().tree.nodes@.len() == 1,
            signals@ == wanted_signals(),
    {
        self.exhibitor = Some(Compositor::new());
        let mut signals: Vec<SignalId> = Vec::new();
        signals.push(NOTIFY);
        signals.push(PAGE_FLIP);
        signals.push(OUTPUT_FOUND);
        signals.push(COMMAND);
        signals.push(INPUT_POINTER_MOTION);
        signals.push(INPUT_POINTER_POSITION);
        signals.push(INPUT_POINTER_BUTTON);
        signals.push(INPUT_POINTER_POSITION_RESET);
        signals.push(CURSOR_SURFACE_CHANGE);
        signals.push(SURFACE_READY);
        signals.push(SURFACE_DESTROYED);
        signals.push(KEYBOARD_FOCUS_CHANGED);
        proof {
            assert(signals@ =~= wanted_signals());
        }
        signals
    }

    /// Deals with one notification. A surface that became ready is taken up by the
    /// compositor, where it can be placed, and one that was destroyed is let go; for every
    /// other notification the handler that is left to run is returned. A module that was not
    /// initialized does nothing.
    pub fn execute(&mut self, package: &Perceptron, coordinator: &mut InnerCoordinator) -> (left:
        Handling)
        requires
            old(self).wf(),
            old(coordinator).wf(),
        ensures
            final(self).wf(),
            final(coordinator).wf(),
            final(self).exhibitor.is_some() == old(self).exhibitor.is_some(),
            left == if old(self).exhibitor.is_some() {
                handling_of(*package)
            } else {
                Handling::Done
            },
            match (old(self).exhibitor, *package) {
                (Some(before), Perceptron::SurfaceReady(sid)) => {
                    let after = final(self).exhibitor.unwrap();
                    if before.takes_up(old(coordinator)@, sid) {
                        before.placed(
                            &after,
                            sid,
                            old(coordinator)@.surface(sid).parent_sid.valid(),
                            old(coordinator)@,
                            final(coordinator)@,
                        )
                    } else {
                        final(coordinator)@ == old(coordinator)@ && before.untouched(&after)
                    }
                },
                (Some(before), Perceptron::SurfaceDestroyed(sid)) => before.unplaced(
                    &final(self).exhibitor.unwrap(),
                    sid,
                    old(coordinator)@,
                    final(coordinator)@,
                ),
                _ => {
                    &&& final(self).exhibitor == old(self).exhibitor
                    &&& final(coordinator)@ == old(coordinator)@
                },
            },
    {
        match self.exhibitor.take() {
            Some(exhibitor) => {
                let mut exhibitor = exhibitor;
                let left = match *package {
                    Perceptron::Notify => Handling::Notify,
                    Perceptron::OutputFound(bundle) => Handling::OutputFound(bundle),
                    Perceptron::PageFlip(id) => Handling::PageFlip(id),
                    Perceptron::Command(command) => Handling::Command(command),
                    Perceptron::InputPointerMotion(vector) => Handling::Motion(vector),
                    Perceptron::InputPointerPosition(position) => Handling::Position(position),
                    Perceptron::InputPointerButton(button) => Handling::Button(button),
                    Perceptron::InputPointerPositionReset => Handling::PositionReset,
                    Perceptron::CursorSurfaceChange(sid) => Handling::CursorSurfaceChange(sid),
                    Perceptron::SurfaceReady(sid) => {
                        exhibitor.manage_surface(sid, coordinator);
                        Handling::Done
                    },
                    Perceptron::SurfaceDestroyed(sid) => {
                        exhibitor.unmanage_surface(sid, coordinator);
                        Handling::Done
                    },
                    Perceptron::KeyboardFocusChanged(_, sid) => Handling::KeyboardFocusChanged(
                        sid,
                    ),
                    _ => Handling::Done,
                };
                self.exhibitor = Some(exhibitor);
                left
            },
            None => Handling::Done,
        }
    }

    /// Ends the module. The compositor is kept as it is.
    pub fn finalize(&mut self)
        ensures
            final(self).exhibitor == old(self).exhibitor,
    {
    }
}

/// What makes the module when the application starts its modules.
pub struct ExhibitorModuleConstructor {}

impl ExhibitorModuleConstructor {
    pub fn new() -> (constructor: ExhibitorModuleConstructor) {
        ExhibitorModuleConstructor {  }
    }

    /// Makes a module that is not initialized yet.
    pub fn construct(&self) -> (module: ExhibitorModule)
        ensures
            module.exhibitor.is_none(),
            module.wf(),
    {
        ExhibitorModule::new()
    }
}

} // verus!
