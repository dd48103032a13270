use vstd::prelude::*;

verus! {

/// Window title while the visualiser runs on captured audio.
pub open spec fn normal_title() -> Seq<char> {
    "Rust Audio Visualiser"@
}

/// Window title in demo mode.
pub open spec fn demo_title() -> Seq<char> {
    "Rust Audio Visualiser — Demo"@
}

/// Window title after audio capture failed.
pub open spec fn unavailable_title() -> Seq<char> {
    "Rust Audio Visualiser — Audio unavailable"@
}

/// The title a new window gets: demo mode wins, then a capture failure.
pub open spec fn title_for(demo_mode: bool, audio_failed: bool) -> Seq<char> {
    if demo_mode {
        demo_title()
    } else if audio_failed {
        unavailable_title()
    } else {
        normal_title()
    }
}

/// Chooses the window title.
pub fn window_title(demo_mode: bool, audio_failed: bool) -> (title: String)
    ensures
        title@ == title_for(demo_mode, audio_failed),
{
    if demo_mode {
        String::from_str("Rust Audio Visualiser — Demo")
    } else if audio_failed {
        String::from_str("Rust Audio Visualiser — Audio unavailable")
    } else {
        String::from_str("Rust Audio Visualiser")
    }
}

/// A window event, as far as the visualiser reacts to it.
#[derive(Debug, Clone, Copy, PartialEq, Eq, Structural)]
pub enum WindowInput {
    /// The user asked to close the window.
    CloseRequested,
    /// The window's drawable area changed to `width` by `height` pixels.
    Resized { width: u32, height: u32 },
    /// A key changed state.
    Key {
        /// The key went down (rather than up).
        pressed: bool,
        /// The press is an automatic repeat of a held key.
        repeat: bool,
        /// The key is the input-switching key.
        is_input_key: bool,
    },
    /// The window is ready for the next frame.
    RedrawRequested,
    /// Anything else.
    Other,
}

/// What the visualiser does in response to a window event.
#[derive(Debug, Clone, Copy, PartialEq, Eq, Structural)]
pub enum WindowAction {
    /// Stop audio capture and leave the event loop.
    Exit,
    /// Resize the drawing surface.
    ResizeSurface { width: u32, height: u32 },
    /// Switch between loopback and microphone.
    ToggleInput,
    /// Draw the next frame and ask for another.
    Redraw,
    /// Nothing.
    Ignore,
}

/// The response to a window event: empty resizes (a minimised window) and
/// repeated or released key events are ignored.
pub open spec fn action_for(input: WindowInput) -> WindowAction {
    match input {
        WindowInput::CloseRequested => WindowAction::Exit,
        WindowInput::Resized { width, height } => if width > 0 && height > 0 {
            WindowAction::ResizeSurface { width, height }
        } else {
            WindowAction::Ignore
        },
        WindowInput::Key { pressed, repeat, is_input_key } => if pressed && !repeat
            && is_input_key {
            WindowAction::ToggleInput
        } else {
            WindowAction::Ignore
        },
        WindowInput::RedrawRequested => WindowAction::Redraw,
        WindowInput::Other => WindowAction::Ignore,
    }
}

/// Each action answers exactly one kind of event: only a fresh press of the
/// input key switches the input (a release, a repeat or any other key is
/// ignored), only a close request exits, only a redraw request draws, and
/// only a non-empty resize resizes the surface, to the size it reports.
pub proof fn lemma_action_cases(input: WindowInput)
    ensures
        (action_for(input) == WindowAction::ToggleInput) <==> (input == WindowInput::Key {
            pressed: true,
            repeat: false,
            is_input_key: true,
        }),
        (action_for(input) == WindowAction::Exit) <==> (input == WindowInput::CloseRequested),
        (action_for(input) == WindowAction::Redraw) <==> (input == WindowInput::RedrawRequested),
        (action_for(input) is ResizeSurface) <==> (input matches WindowInput::Resized {
            width,
            height,
        } && width > 0 && height > 0),
        action_for(input) matches WindowAction::ResizeSurface { width, height } ==> input
            == (WindowInput::Resized { width, height }),
{
}

/// Decides how to respond to a window event.
pub fn window_action(input: WindowInput) -> (action: WindowAction)
    ensures
        action == action_for(input),
        (action == WindowAction::ToggleInput) <==> (input == WindowInput::Key {
            pressed: true,
            repeat: false,
            is_input_key: true,
        }),
        (action == WindowAction::Exit) <==> (input == WindowInput::CloseRequested),
        (action == WindowAction::Redraw) <==> (input == WindowInput::RedrawRequested),
        (action is ResizeSurface) <==> (input matches WindowInput::Resized { width, height }
            && width > 0 && height > 0),
        action matches WindowAction::ResizeSurface { width, height } ==> input == (
        WindowInput::Resized { width, height }),
{
    proof {
        lemma_action_cases(input);
    }
    match input {
        WindowInput::CloseRequested => WindowAction::Exit,
        WindowInput::Resized { width, height } => {
            if width > 0 && height > 0 {
                WindowAction::ResizeSurface { width, height }
            } else {
                WindowAction::Ignore
            }
        },
        WindowInput::Key { pressed, repeat, is_input_key } => {
            if pressed && !repeat && is_input_key {
                WindowAction::ToggleInput
            } else {
                WindowAction::Ignore
            }
        },
        WindowInput::RedrawRequested => WindowAction::Redraw,
        WindowInput::Other => WindowAction::Ignore,
    }
}

} // verus!
