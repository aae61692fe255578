use neuropipe::settings_window::{kept_voice, next_button_state, ButtonState};

#[test]
fn test_button_follows_the_service_state() {
    assert_eq!(next_button_state(ButtonState::Idle, None, false), ButtonState::Unavailable);
    assert_eq!(next_button_state(ButtonState::Processing, Some(true), false), ButtonState::Speaking);
    assert_eq!(next_button_state(ButtonState::Processing, Some(false), false), ButtonState::Processing);
    assert_eq!(next_button_state(ButtonState::Processing, Some(false), true), ButtonState::Idle);
    assert_eq!(next_button_state(ButtonState::Speaking, Some(false), false), ButtonState::Idle);
    assert_eq!(next_button_state(ButtonState::Unavailable, Some(false), false), ButtonState::Idle);
}

#[test]
fn engine_change_keeps_the_voice_when_it_can() {
    let voices = vec!["af_bella".to_string(), "am_adam".to_string()];
    assert_eq!(kept_voice(&voices, "am_adam"), "am_adam");
    assert_eq!(kept_voice(&voices, "M3"), "af_bella");
    assert_eq!(kept_voice(&vec![], "M3"), "");
}
