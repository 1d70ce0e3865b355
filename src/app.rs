use vstd::prelude::*;

verus! {

/// The screens that the surrounding application moves between.
#[derive(PartialEq, Eq, Structural, Debug, Hash, Clone, Copy)]
pub enum AppState {
    WelcomeScreen,
    Dashboard,
    AddNewPassword,
    Quit,
}

} // verus!
