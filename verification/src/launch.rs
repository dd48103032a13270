use vstd::prelude::*;

use crate::audio::capture::InputMode;

verus! {

/// How the visualiser was asked to start.
#[derive(Debug, Clone, Copy, PartialEq, Eq, Structural)]
pub struct LaunchOptions {
    /// Animate synthetic audio features instead of capturing audio.
    pub demo_mode: bool,
    /// Which audio to capture.
    pub input_mode: InputMode,
}

/// Options used when no argument changes them: capture system loopback.
pub open spec fn default_options() -> LaunchOptions {
    LaunchOptions { demo_mode: false, input_mode: InputMode::Loopback }
}

/// Error for an `--input` flag with no value after it.
pub open spec fn missing_input_message() -> Seq<char> {
    "--input requires either 'loopback' or 'mic'"@
}

/// Error for an input name other than `loopback` and `mic`.
pub open spec fn unknown_input_message(name: Seq<char>) -> Seq<char> {
    "unknown input '"@ + name + "'; expected 'loopback' or 'mic'"@
}

/// Error for an argument the visualiser does not know.
pub open spec fn unknown_argument_message(argument: Seq<char>) -> Seq<char> {
    "unknown argument '"@ + argument + "'; use --input loopback, --input mic, or --demo"@
}

/// The input mode an input name selects.
pub open spec fn parsed_input_mode(name: Seq<char>) -> Result<InputMode, Seq<char>> {
    if name == "loopback"@ {
        Ok(InputMode::Loopback)
    } else if name == "mic"@ {
        Ok(InputMode::Microphone)
    } else {
        Err(unknown_input_message(name))
    }
}

/// The options the `arguments` give when read after `options` is set: each
/// argument is `--demo`, `--input` followed by an input name, or
/// `--input=` joined to an input name; the first bad argument is reported.
pub open spec fn parsed_arguments(options: LaunchOptions, arguments: Seq<Seq<char>>) -> Result<
    LaunchOptions,
    Seq<char>,
>
    decreases arguments.len(),
{
    if arguments.len() == 0 {
        Ok(options)
    } else {
        let argument = arguments[0];
        let rest = arguments.drop_first();
        if argument == "--demo"@ {
            parsed_arguments(LaunchOptions { demo_mode: true, ..options }, rest)
        } else if argument == "--input"@ {
            if rest.len() == 0 {
                Err(missing_input_message())
            } else {
                match parsed_input_mode(rest[0]) {
                    Ok(mode) => parsed_arguments(
                        LaunchOptions { input_mode: mode, ..options },
                        rest.drop_first(),
                    ),
                    Err(message) => Err(message),
                }
            }
        } else if "--input="@.is_prefix_of(argument) {
            match parsed_input_mode(argument.skip("--input="@.len() as int)) {
                Ok(mode) => parsed_arguments(LaunchOptions { input_mode: mode, ..options }, rest),
                Err(message) => Err(message),
            }
        } else {
            Err(unknown_argument_message(argument))
        }
    }
}

/// `--demo` turns demo mode on and leaves every other option as it was, so
/// an input chosen before it is kept.
pub proof fn lemma_demo_flag_keeps_other_options(options: LaunchOptions, rest: Seq<Seq<char>>)
    ensures
        parsed_arguments(options, seq!["--demo"@] + rest) == parsed_arguments(
            LaunchOptions { demo_mode: true, input_mode: options.input_mode },
            rest,
        ),
{
    let arguments = seq!["--demo"@] + rest;
    assert(arguments[0] == "--demo"@);
    assert(arguments.drop_first() =~= rest);
}

/// `--input` followed by a name selects that name's input and leaves demo
/// mode as it was; an unknown name is reported.
pub proof fn lemma_input_flag_selects_input(
    options: LaunchOptions,
    name: Seq<char>,
    rest: Seq<Seq<char>>,
)
    ensures
        parsed_arguments(options, seq!["--input"@, name] + rest) == match parsed_input_mode(name) {
            Ok(mode) => parsed_arguments(
                LaunchOptions { demo_mode: options.demo_mode, input_mode: mode },
                rest,
            ),
            Err(message) => Err(message),
        },
{
    reveal_strlit("--input");
    reveal_strlit("--demo");
    let arguments = seq!["--input"@, name] + rest;
    assert(arguments[0] == "--input"@);
    assert(arguments[0] != "--demo"@);
    assert(arguments.drop_first()[0] == name);
    assert(arguments.drop_first().drop_first() =~= rest);
}

/// `--input=name` means the same as `--input name`.
pub proof fn lemma_inline_input_flag(options: LaunchOptions, name: Seq<char>, rest: Seq<Seq<char>>)
    ensures
        parsed_arguments(options, seq!["--input="@ + name] + rest) == parsed_arguments(
            options,
            seq!["--input"@, name] + rest,
        ),
{
    reveal_strlit("--input=");
    reveal_strlit("--input");
    reveal_strlit("--demo");
    let joined = "--input="@ + name;
    let arguments = seq![joined] + rest;
    assert(arguments[0] == joined);
    assert(joined.len() >= 8);
    assert(joined != "--demo"@);
    assert(joined != "--input"@);
    assert("--input="@.is_prefix_of(joined)) by {
        assert(joined.subrange(0, 8) =~= "--input="@);
    }
    assert(joined.skip(8) =~= name);
    assert(arguments.drop_first() =~= rest);
    lemma_input_flag_selects_input(options, name, rest);
}

/// A successful parse is in demo mode exactly when it started in demo mode
/// or `--demo` is one of the arguments.
pub proof fn lemma_parsed_demo_mode(options: LaunchOptions, arguments: Seq<Seq<char>>)
    ensures
        parsed_arguments(options, arguments) matches Ok(parsed) ==> parsed.demo_mode == (
        options.demo_mode || arguments.contains("--demo"@)),
    decreases arguments.len(),
{
    reveal_strlit("--input");
    reveal_strlit("--demo");
    reveal_strlit("loopback");
    reveal_strlit("mic");
    let demo = "--demo"@;
    if arguments.len() > 0 {
        let argument = arguments[0];
        let rest = arguments.drop_first();
        if argument == demo {
            lemma_parsed_demo_mode(LaunchOptions { demo_mode: true, ..options }, rest);
            assert(arguments.contains(demo)) by {
                assert(arguments[0] == demo);
            }
        } else if argument == "--input"@ {
            if rest.len() > 0 && parsed_input_mode(rest[0]) is Ok {
                let name = rest[0];
                let tail = rest.drop_first();
                let mode = parsed_input_mode(name)->Ok_0;
                lemma_parsed_demo_mode(LaunchOptions { input_mode: mode, ..options }, tail);
                assert(name != demo);
                assert(arguments[1] == name);
                if tail.contains(demo) {
                    let k = choose|k: int| 0 <= k < tail.len() && tail[k] == demo;
                    assert(arguments[k + 2] == tail[k]);
                }
                if arguments.contains(demo) {
                    let i = choose|i: int| 0 <= i < arguments.len() && arguments[i] == demo;
                    assert(i >= 2);
                    assert(tail[i - 2] == arguments[i]);
                }
            }
        } else if "--input="@.is_prefix_of(argument) {
            let value = argument.skip("--input="@.len() as int);
            if parsed_input_mode(value) is Ok {
                let mode = parsed_input_mode(value)->Ok_0;
                lemma_parsed_demo_mode(LaunchOptions { input_mode: mode, ..options }, rest);
                if rest.contains(demo) {
                    let k = choose|k: int| 0 <= k < rest.len() && rest[k] == demo;
                    assert(arguments[k + 1] == rest[k]);
                }
                if arguments.contains(demo) {
                    let i = choose|i: int| 0 <= i < arguments.len() && arguments[i] == demo;
                    assert(i >= 1);
                    assert(rest[i - 1] == arguments[i]);
                }
            }
        }
    }
}

/// `--input mic --demo` captures the microphone in demo mode.
pub proof fn lemma_microphone_then_demo()
    ensures
        parsed_arguments(default_options(), seq!["--input"@, "mic"@, "--demo"@]) == Ok::<
            LaunchOptions,
            Seq<char>,
        >(LaunchOptions { demo_mode: true, input_mode: InputMode::Microphone }),
{
    reveal_strlit("mic");
    reveal_strlit("loopback");
    assert("mic"@.len() != "loopback"@.len());
    let rest = seq!["--demo"@];
    assert(seq!["--input"@, "mic"@, "--demo"@] =~= seq!["--input"@, "mic"@] + rest);
    assert(parsed_input_mode("mic"@) == Ok::<InputMode, Seq<char>>(InputMode::Microphone));
    lemma_input_flag_selects_input(default_options(), "mic"@, rest);
    assert(rest =~= seq!["--demo"@] + Seq::<Seq<char>>::empty());
    lemma_demo_flag_keeps_other_options(
        LaunchOptions { demo_mode: false, input_mode: InputMode::Microphone },
        Seq::<Seq<char>>::empty(),
    );
}

/// The text of each argument.
pub open spec fn argument_texts(arguments: Seq<String>) -> Seq<Seq<char>> {
    arguments.map_values(|argument: String| argument@)
}

/// A parse result with its error message read as text.
pub open spec fn result_text<T>(result: Result<T, String>) -> Result<T, Seq<char>> {
    match result {
        Ok(value) => Ok(value),
        Err(message) => Err(message@),
    }
}

fn same_text(text: &str, expected: &str) -> (same: bool)
    ensures
        same == (text@ == expected@),
{
    String::from_str(text) == String::from_str(expected)
}

/// Reads an input name: `loopback` or `mic`.
pub fn parse_input_mode(value: &str) -> (mode: Result<InputMode, String>)
    ensures
        result_text(mode) == parsed_input_mode(value@),
{
    if same_text(value, "loopback") {
        Ok(InputMode::Loopback)
    } else if same_text(value, "mic") {
        Ok(InputMode::Microphone)
    } else {
        Err(
            String::from_str("unknown input '").concat(value).concat(
                "'; expected 'loopback' or 'mic'",
            ),
        )
    }
}

/// The text after `--input=` when `argument` starts with it.
fn inline_input_value(argument: &str) -> (value: Option<&str>)
    ensures
        value is Some <==> "--input="@.is_prefix_of(argument@),
        value matches Some(text) ==> text@ == argument@.skip("--input="@.len() as int),
{
    proof {
        reveal_strlit("--input=");
    }
    let length = argument.unicode_len();
    if length < 8 {
        return None;
    }
    let prefix = argument.substring_char(0, 8);
    if same_text(prefix, "--input=") {
        let value = argument.substring_char(8, length);
        assert(argument@.subrange(8, length as int) =~= argument@.skip(8));
        Some(value)
    } else {
        None
    }
}

/// Reads the command-line arguments (without the program name).
pub fn parse_launch_options(arguments: Vec<String>) -> (result: Result<LaunchOptions, String>)
    ensures
        result_text(result) == parsed_arguments(default_options(), argument_texts(arguments@)),
{
    let ghost texts = argument_texts(arguments@);
    let mut options = LaunchOptions { demo_mode: false, input_mode: InputMode::Loopback };
    let mut index: usize = 0;
    assert(texts.skip(0) =~= texts);
    while index < arguments.len()
        invariant
            texts == argument_texts(arguments@),
            index <= arguments@.len(),
            parsed_arguments(default_options(), texts) == parsed_arguments(
                options,
                texts.skip(index as int),
            ),
        decreases arguments@.len() - index,
    {
        let ghost remaining = texts.skip(index as int);
        assert(remaining[0] == arguments@[index as int]@);
        assert(remaining.drop_first() =~= texts.skip(index + 1));
        let argument = arguments[index].as_str();
        if same_text(argument, "--demo") {
            options.demo_mode = true;
            index += 1;
        } else if same_text(argument, "--input") {
            if index + 1 >= arguments.len() {
                return Err(
                    String::from_str("--input requires either 'loopback' or 'mic'"),
                );
            }
            assert(remaining.drop_first()[0] == arguments@[index + 1]@);
            assert(remaining.drop_first().drop_first() =~= texts.skip(index + 2));
            match parse_input_mode(arguments[index + 1].as_str()) {
                Ok(mode) => {
                    options.input_mode = mode;
                },
                Err(message) => {
                    return Err(message);
                },
            }
            index += 2;
        } else {
            match inline_input_value(argument) {
                Some(value) => {
                    match parse_input_mode(value) {
                        Ok(mode) => {
                            options.input_mode = mode;
                        },
                        Err(message) => {
                            return Err(message);
                        },
                    }
                    index += 1;
                },
                None => {
                    return Err(
                        String::from_str("unknown argument '").concat(argument).concat(
                            "'; use --input loopback, --input mic, or --demo",
                        ),
                    );
                },
            }
        }
    }
    assert(texts.skip(index as int) =~= Seq::<Seq<char>>::empty());
    Ok(options)
}

} // verus!
