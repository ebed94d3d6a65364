use rps_sim::components::{CustomIcon, CustomNum, CustomSelect, MainUi, RemoveType};
use rps_sim::state::{
    away_click, camera_move, home_click, initial_view, AwayButton, CameraMove, HomeButton, IsResize,
    Navigation, SimState, View,
};

#[test]
fn default_state_is_main() {
    assert_eq!(SimState::default(), SimState::Main);
}

#[test]
fn camera_moves_enter_the_state_of_their_view() {
    assert_eq!(camera_move(View::Home, View::Arena), CameraMove { from: View::Home, to: View::Arena, next: SimState::Sim });
    assert_eq!(camera_move(View::Roster, View::Home).next, SimState::Main);
    assert_eq!(camera_move(View::Home, View::Roster).next, SimState::Custom);
    assert_eq!(camera_move(View::Home, View::Credits).next, SimState::Credit);
}

#[test]
fn initial_view_follows_last_move() {
    assert_eq!(initial_view(SimState::Custom), View::Roster);
    assert_eq!(initial_view(SimState::Credit), View::Credits);
    assert_eq!(initial_view(SimState::Main), View::Home);
    assert_eq!(initial_view(SimState::Sim), View::Home);
}

#[test]
fn home_buttons_work_only_on_home() {
    assert_eq!(
        home_click(SimState::Main, HomeButton::Start),
        Some(Navigation::Travel(CameraMove { from: View::Home, to: View::Arena, next: SimState::Sim }))
    );
    assert_eq!(home_click(SimState::Main, HomeButton::Respawn), Some(Navigation::Enter(SimState::ReSpawnPlayer)));
    assert_eq!(
        home_click(SimState::Main, HomeButton::Customize),
        Some(Navigation::Travel(CameraMove { from: View::Home, to: View::Roster, next: SimState::Custom }))
    );
    assert_eq!(home_click(SimState::Move, HomeButton::Start), None);
    assert_eq!(home_click(SimState::Sim, HomeButton::Respawn), None);
    assert_eq!(home_click(SimState::Custom, HomeButton::Customize), None);
}

#[test]
fn credits_link_works_in_any_state() {
    let expected = Some(Navigation::Travel(CameraMove { from: View::Home, to: View::Credits, next: SimState::Credit }));
    assert_eq!(home_click(SimState::Main, HomeButton::Credits), expected);
    assert_eq!(home_click(SimState::Move, HomeButton::Credits), expected);
}

#[test]
fn away_buttons() {
    assert_eq!(
        away_click(AwayButton::Back(View::Arena)),
        Navigation::Travel(CameraMove { from: View::Arena, to: View::Home, next: SimState::Main })
    );
    assert_eq!(away_click(AwayButton::Respawn), Navigation::Enter(SimState::ReSpawnPlayer));
}

#[test]
fn resize_rebuilds_once_on_home_or_roster() {
    let mut flag = IsResize(false);
    flag.check_window(0);
    assert_eq!(flag, IsResize(false));
    flag.check_window(2);
    assert_eq!(flag, IsResize(true));
    assert_eq!(flag.resize_change(SimState::Sim), None);
    assert_eq!(flag, IsResize(true));
    assert_eq!(flag.resize_change(SimState::Custom), Some(SimState::ReSpawnUi));
    assert_eq!(flag, IsResize(false));
    assert_eq!(flag.resize_change(SimState::Main), None);
}

#[test]
fn markers_carry_their_numbers() {
    assert_eq!(CustomIcon(3).0, 3);
    assert_eq!(CustomNum(4).0, 4);
    assert_eq!(RemoveType(2).0, 2);
    assert!(CustomSelect(true).0);
    assert_eq!(MainUi, MainUi);
}
