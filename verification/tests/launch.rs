use audio_visualiser::audio::capture::InputMode;
use audio_visualiser::launch::{parse_input_mode, parse_launch_options, LaunchOptions};

fn arguments(values: &[&str]) -> Vec<String> {
    values.iter().map(|value| (*value).to_owned()).collect()
}

#[test]
fn loopback_is_the_default_input() {
    assert_eq!(
        parse_launch_options(Vec::new()).unwrap(),
        LaunchOptions {
            demo_mode: false,
            input_mode: InputMode::Loopback,
        }
    );
}

#[test]
fn microphone_can_be_selected_at_launch() {
    assert_eq!(
        parse_launch_options(arguments(&["--input", "mic"]))
            .unwrap()
            .input_mode,
        InputMode::Microphone
    );
    assert_eq!(
        parse_launch_options(arguments(&["--input=mic"]))
            .unwrap()
            .input_mode,
        InputMode::Microphone
    );
}

#[test]
fn invalid_input_is_rejected() {
    assert!(parse_launch_options(arguments(&["--input", "file"])).is_err());
    assert!(parse_launch_options(arguments(&["--input"])).is_err());
}

#[test]
fn demo_mode_and_later_inputs_combine() {
    assert_eq!(
        parse_launch_options(arguments(&["--demo", "--input", "mic", "--input=loopback"])).unwrap(),
        LaunchOptions {
            demo_mode: true,
            input_mode: InputMode::Loopback,
        }
    );
}

#[test]
fn parse_errors_name_the_offending_text() {
    assert_eq!(
        parse_launch_options(arguments(&["--input", "file"])).unwrap_err(),
        "unknown input 'file'; expected 'loopback' or 'mic'"
    );
    assert_eq!(
        parse_launch_options(arguments(&["--input"])).unwrap_err(),
        "--input requires either 'loopback' or 'mic'"
    );
    assert_eq!(
        parse_launch_options(arguments(&["--input="])).unwrap_err(),
        "unknown input ''; expected 'loopback' or 'mic'"
    );
    assert_eq!(
        parse_launch_options(arguments(&["--fullscreen", "--demo"])).unwrap_err(),
        "unknown argument '--fullscreen'; use --input loopback, --input mic, or --demo"
    );
}

#[test]
fn the_first_bad_argument_is_reported() {
    assert_eq!(
        parse_launch_options(arguments(&["--input=speaker", "--bogus"])).unwrap_err(),
        "unknown input 'speaker'; expected 'loopback' or 'mic'"
    );
}

#[test]
fn input_names_are_exact() {
    assert_eq!(parse_input_mode("loopback"), Ok(InputMode::Loopback));
    assert_eq!(parse_input_mode("mic"), Ok(InputMode::Microphone));
    assert!(parse_input_mode("Mic").is_err());
    assert!(parse_input_mode("mic ").is_err());
}
