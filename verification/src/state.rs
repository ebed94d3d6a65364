//! Screens of the game and the moves between them. The camera looks at one
//! of four views; going from one view to another is a camera move, after
//! which the game enters the state of the view it arrived at.

use vstd::prelude::*;

verus! {

/// The state of the game.
#[derive(Debug, Clone, Copy, PartialEq, Eq, Structural, Hash)]
pub enum SimState {
    Main,
    Move,
    ReSpawnPlayer,
    ReSpawnUi,
    ReSpawnChildren,
    Sim,
    Custom,
    Credit,
}

impl Default for SimState {
    fn default() -> (r: Self)
        ensures
            r == SimState::Main,
    {
        SimState::Main
    }
}

/// Where the camera looks.
#[derive(Debug, Clone, Copy, PartialEq, Eq, Structural, Hash)]
pub enum View {
    /// The home screen beside the arena.
    Home,
    /// The arena, close up.
    Arena,
    /// The roster editor, left of the arena.
    Roster,
    /// The credits, zoomed out to the right.
    Credits,
}

/// The state the game enters once the camera has arrived at a view.
pub open spec fn view_state(v: View) -> SimState {
    match v {
        View::Home => SimState::Main,
        View::Arena => SimState::Sim,
        View::Roster => SimState::Custom,
        View::Credits => SimState::Credit,
    }
}

/// A camera move from one view to another, and the state the game enters
/// when it ends.
#[derive(Debug, Clone, Copy, PartialEq, Eq)]
pub struct CameraMove {
    pub from: View,
    pub to: View,
    pub next: SimState,
}

/// The camera move from `from` to `to`.
pub fn camera_move(from: View, to: View) -> (r: CameraMove)
    ensures
        r == (CameraMove { from, to, next: view_state(to) }),
{
    let next = match to {
        View::Home => SimState::Main,
        View::Arena => SimState::Sim,
        View::Roster => SimState::Custom,
        View::Credits => SimState::Credit,
    };
    CameraMove { from, to, next }
}

/// The view the camera is placed at when the home screen is built, given
/// the state that the last camera move led to: the roster editor or the
/// credits where it led there, the home screen otherwise.
pub open spec fn spec_initial_view(next: SimState) -> View {
    match next {
        SimState::Custom => View::Roster,
        SimState::Credit => View::Credits,
        _ => View::Home,
    }
}

/// The view the camera is placed at when the home screen is built.
pub fn initial_view(next: SimState) -> (r: View)
    ensures
        r == spec_initial_view(next),
{
    match next {
        SimState::Custom => View::Roster,
        SimState::Credit => View::Credits,
        _ => View::Home,
    }
}

/// The buttons of the home screen.
#[derive(Debug, Clone, Copy, PartialEq, Eq, Structural)]
pub enum HomeButton {
    /// "Start": to the arena.
    Start,
    /// "R": respawn the players.
    Respawn,
    /// "Custom": to the roster editor.
    Customize,
    /// "Made by": to the credits.
    Credits,
}

/// What a click does.
#[derive(Debug, Clone, Copy, PartialEq, Eq)]
pub enum Navigation {
    /// Enter the given state at once.
    Enter(SimState),
    /// Move the camera.
    Travel(CameraMove),
}

/// What a click on a home-screen button does in state `current`. The
/// start, respawn and customize buttons only work on the home screen; the
/// credits link always does.
pub open spec fn spec_home_click(current: SimState, button: HomeButton) -> Option<Navigation> {
    match button {
        HomeButton::Credits => Some(
            Navigation::Travel(
                CameraMove { from: View::Home, to: View::Credits, next: SimState::Credit },
            ),
        ),
        _ => if current != SimState::Main {
            None
        } else {
            match button {
                HomeButton::Start => Some(
                    Navigation::Travel(
                        CameraMove { from: View::Home, to: View::Arena, next: SimState::Sim },
                    ),
                ),
                HomeButton::Respawn => Some(Navigation::Enter(SimState::ReSpawnPlayer)),
                _ => Some(
                    Navigation::Travel(
                        CameraMove { from: View::Home, to: View::Roster, next: SimState::Custom },
                    ),
                ),
            }
        },
    }
}

/// What a click on a home-screen button does in state `current`.
pub fn home_click(current: SimState, button: HomeButton) -> (r: Option<Navigation>)
    ensures
        r == spec_home_click(current, button),
{
    match button {
        HomeButton::Credits => Some(Navigation::Travel(camera_move(View::Home, View::Credits))),
        HomeButton::Start => if current != SimState::Main {
            None
        } else {
            Some(Navigation::Travel(camera_move(View::Home, View::Arena)))
        },
        HomeButton::Respawn => if current != SimState::Main {
            None
        } else {
            Some(Navigation::Enter(SimState::ReSpawnPlayer))
        },
        HomeButton::Customize => if current != SimState::Main {
            None
        } else {
            Some(Navigation::Travel(camera_move(View::Home, View::Roster)))
        },
    }
}

/// The back buttons of the arena, the roster editor and the credits, and
/// the respawn button of the roster editor, which work in any state.
#[derive(Debug, Clone, Copy, PartialEq, Eq)]
pub enum AwayButton {
    /// Back to the home screen from the given view.
    Back(View),
    /// "R" in the roster editor: respawn the players.
    Respawn,
}

/// What a click on one of the buttons away from the home screen does.
pub fn away_click(button: AwayButton) -> (r: Navigation)
    ensures
        r == match button {
            AwayButton::Back(from) => Navigation::Travel(
                CameraMove { from, to: View::Home, next: SimState::Main },
            ),
            AwayButton::Respawn => Navigation::Enter(SimState::ReSpawnPlayer),
        },
{
    match button {
        AwayButton::Back(from) => Navigation::Travel(camera_move(from, View::Home)),
        AwayButton::Respawn => Navigation::Enter(SimState::ReSpawnPlayer),
    }
}

/// Whether the window changed size and the screens have yet to be rebuilt.
#[derive(Debug, Clone, Copy, PartialEq, Eq)]
pub struct IsResize(pub bool);

/// The flag after the resizes reported in a frame are noted.
pub open spec fn noted(flag: bool, resized: nat) -> bool {
    flag || resized > 0
}

/// The state that a noted resize leads to in state `current`, if any.
pub open spec fn rebuild(flag: bool, current: SimState) -> Option<SimState> {
    if flag && (current == SimState::Main || current == SimState::Custom) {
        Some(SimState::ReSpawnUi)
    } else {
        None
    }
}

impl IsResize {
    /// Notes the window resizes reported in a frame. Once a resize is noted,
    /// further reports are left unread until the screens are rebuilt.
    pub fn check_window(&mut self, resized: usize)
        ensures
            final(self).0 == noted(old(self).0, resized as nat),
            old(self).0 ==> final(self).0,
            resized > 0 ==> final(self).0,
            !old(self).0 && resized == 0 ==> !final(self).0,
    {
        if !self.0 && resized > 0 {
            self.0 = true;
        }
    }

    /// On the home screen or in the roster editor, a noted resize leads to
    /// rebuilding the screens, once; elsewhere it waits.
    pub fn resize_change(&mut self, current: SimState) -> (r: Option<SimState>)
        ensures
            r == rebuild(old(self).0, current),
            final(self).0 == (old(self).0 && r is None),
    {
        if (current == SimState::Main || current == SimState::Custom) && self.0 {
            self.0 = false;
            Some(SimState::ReSpawnUi)
        } else {
            None
        }
    }
}

/// Each view is entered in a state of its own, so the state after a camera
/// move tells where the camera is.
pub proof fn law_view_states_distinct(a: View, b: View)
    ensures
        view_state(a) == view_state(b) ==> a == b,
{
}

/// Only the credits link works away from the home screen; the other home
/// buttons do nothing there.
pub proof fn law_home_buttons_need_home(current: SimState, button: HomeButton)
    requires
        current != SimState::Main,
        button != HomeButton::Credits,
    ensures
        spec_home_click(current, button) is None,
{
}

/// A window resize seen on the home screen or in the roster editor rebuilds
/// the screens, and only once: after the rebuild the flag is down until the
/// next resize.
pub proof fn law_resize_rebuilds_once(flag: bool, resized: nat, current: SimState)
    requires
        resized > 0,
        current == SimState::Main || current == SimState::Custom,
    ensures
        rebuild(noted(flag, resized), current) == Some(SimState::ReSpawnUi),
        rebuild(noted(flag, resized) && rebuild(noted(flag, resized), current) is None, current)
            is None,
{
}

/// A noted resize is never forgotten while frames go by: whatever number of
/// resizes the next frames report, the flag stays up, no rebuild happens
/// away from the home screen and the roster editor, and the rebuild comes
/// as soon as one of them is shown.
pub proof fn law_noted_resize_waits(resized: nat, away: SimState, back: SimState)
    requires
        away != SimState::Main && away != SimState::Custom,
        back == SimState::Main || back == SimState::Custom,
    ensures
        noted(true, resized),
        rebuild(noted(true, resized), away) is None,
        rebuild(noted(true, resized), back) == Some(SimState::ReSpawnUi),
        noted(false, resized) <==> resized > 0,
{
}

} // verus!
