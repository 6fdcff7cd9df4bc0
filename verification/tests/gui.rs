use automancy::gui::{
    reset_callback_counter, CallbackCounter, GuiState, OptionsMenuState, Screen, SubState,
    TextField, TextFieldState,
};

#[test]
fn the_menus_start_at_the_main_menu() {
    let state = GuiState::new();
    assert_eq!(state.screen, Screen::MainMenu);
    assert_eq!(state.substate, SubState::Closed);
    assert_eq!(state.previous, None);
    assert!(!state.show_debugger);
}

#[test]
fn switch_screen_remembers_where_it_came_from() {
    let mut state = GuiState::new();
    state.switch_screen(Screen::MapLoad);
    assert_eq!(state.screen, Screen::MapLoad);
    assert_eq!(state.previous, Some(Screen::MainMenu));
    state.return_screen();
    assert_eq!(state.screen, Screen::MainMenu);
    assert_eq!(state.previous, None);
    state.return_screen();
    assert_eq!(state.screen, Screen::MainMenu);
}

#[test]
fn switch_screen_sub_opens_the_page() {
    let mut state = GuiState::new();
    state.switch_screen_sub(Screen::Options, SubState::Options(OptionsMenuState::Audio));
    assert_eq!(state.screen, Screen::Options);
    assert_eq!(state.substate, SubState::Options(OptionsMenuState::Audio));
    assert_eq!(state.previous, Some(Screen::MainMenu));
}

#[test]
fn switch_screen_when_looks_at_the_open_screen() {
    let mut state = GuiState::new();
    assert!(!state.switch_screen_when(|s| s.screen == Screen::Ingame, Screen::Paused));
    assert_eq!(state.screen, Screen::MainMenu);
    assert_eq!(state.previous, None);
    state.switch_screen(Screen::Ingame);
    assert!(state.switch_screen_when(|s| s.screen == Screen::Ingame, Screen::Paused));
    assert_eq!(state.screen, Screen::Paused);
    assert_eq!(state.previous, Some(Screen::Ingame));
}

#[test]
fn escape_pauses_and_resumes() {
    let mut state = GuiState::new();
    assert!(!state.on_escape());
    assert_eq!(state.screen, Screen::MainMenu);
    state.switch_screen(Screen::Ingame);
    assert!(state.on_escape());
    assert_eq!(state.screen, Screen::Paused);
    assert!(!state.on_escape());
    assert_eq!(state.screen, Screen::Ingame);
    state.switch_screen(Screen::Research);
    assert!(!state.on_escape());
    assert_eq!(state.screen, Screen::Ingame);
}

#[test]
fn text_fields_are_kept_apart() {
    let mut fields = TextFieldState::new();
    assert_eq!(fields.read(TextField::Filter), "");
    fields.set(TextField::Filter, "iron".to_string());
    fields.get(TextField::MapName).push_str("main");
    assert_eq!(fields.read(TextField::Filter), "iron");
    assert_eq!(fields.read(TextField::MapName), "main");
    assert_eq!(fields.read(TextField::MapRenaming), "");
    fields.get(TextField::Filter).clear();
    assert_eq!(fields.read(TextField::Filter), "");
    fields.clear(TextField::MapName);
    assert_eq!(fields.read(TextField::MapName), "");
    assert_eq!(fields.get(TextField::MapRenaming), "");
}

#[test]
fn the_callback_counter_counts_from_zero_after_a_reset() {
    let mut counter = CallbackCounter::new();
    assert_eq!(counter.take(), Some(0));
    assert_eq!(counter.take(), Some(1));
    assert_eq!(counter.take(), Some(2));
    reset_callback_counter(&mut counter);
    assert_eq!(counter.take(), Some(0));
}

#[test]
fn the_default_menus_are_the_new_ones() {
    let state = GuiState::default();
    assert_eq!(state.screen, Screen::MainMenu);
    assert_eq!(state.previous, None);
    assert_eq!(state.text_field.read(TextField::MapName), "");
    assert_eq!(TextFieldState::default().read(TextField::Filter), "");
}

#[test]
fn new_menus_hold_no_text() {
    let state = GuiState::new();
    for field in [TextField::Filter, TextField::MapRenaming, TextField::MapName] {
        assert_eq!(state.text_field.read(field), "");
    }
}

#[test]
fn default_menus_hold_no_text() {
    let state = GuiState::default();
    for field in [TextField::Filter, TextField::MapRenaming, TextField::MapName] {
        assert_eq!(state.text_field.read(field), "");
    }
}
