use audio_visualiser::control::{window_action, window_title, WindowAction, WindowInput};

#[test]
fn window_titles_name_the_mode() {
    assert_eq!(window_title(false, false), "Rust Audio Visualiser");
    assert_eq!(window_title(true, false), "Rust Audio Visualiser — Demo");
    assert_eq!(window_title(true, true), "Rust Audio Visualiser — Demo");
    assert_eq!(
        window_title(false, true),
        "Rust Audio Visualiser — Audio unavailable"
    );
}

#[test]
fn window_events_map_to_actions() {
    assert_eq!(window_action(WindowInput::CloseRequested), WindowAction::Exit);
    assert_eq!(
        window_action(WindowInput::Resized {
            width: 800,
            height: 600
        }),
        WindowAction::ResizeSurface {
            width: 800,
            height: 600
        }
    );
    assert_eq!(
        window_action(WindowInput::Resized {
            width: 0,
            height: 600
        }),
        WindowAction::Ignore
    );
    assert_eq!(
        window_action(WindowInput::RedrawRequested),
        WindowAction::Redraw
    );
    assert_eq!(window_action(WindowInput::Other), WindowAction::Ignore);
}

#[test]
fn only_a_fresh_press_of_the_input_key_switches_input() {
    let key = |pressed, repeat, is_input_key| {
        window_action(WindowInput::Key {
            pressed,
            repeat,
            is_input_key,
        })
    };
    assert_eq!(key(true, false, true), WindowAction::ToggleInput);
    assert_eq!(key(true, true, true), WindowAction::Ignore);
    assert_eq!(key(false, false, true), WindowAction::Ignore);
    assert_eq!(key(true, false, false), WindowAction::Ignore);
}
