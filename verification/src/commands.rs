//! The viewer's command line: a small grammar of case-insensitive commands.
use vstd::prelude::*;
use vstd::string::StringExecFns;

use crate::text::{chars_equal_str, chars_of, lemma_lower_trim, lemma_trimmed_has_word, lower, lower_chars, split_words, trim, trim_chars, words};

verus! {

/// A panel of the viewer that a command can show or hide.
#[derive(Debug, Clone, Copy, PartialEq, Eq, Structural)]
pub enum PanelToggle {
    Sidebar,
    Properties,
    CommandLine,
}

/// What a parsed command asks the viewer to do.
#[derive(Debug, Clone, Copy, PartialEq, Eq, Structural)]
pub enum CommandAction {
    Open,
    FitView,
    ClearSelection,
    SetAllLayers(bool),
    SetAllBlocks(bool),
    TogglePanel(PanelToggle),
}

pub open spec fn one_word(ws: Seq<Seq<char>>, a: Seq<char>) -> bool {
    ws.len() == 1 && ws[0] == a
}

pub open spec fn two_words(ws: Seq<Seq<char>>, a: Seq<char>, b: Seq<char>) -> bool {
    ws.len() == 2 && ws[0] == a && ws[1] == b
}

/// The action named by a sequence of lower-case words, if any.
pub open spec fn action_for_words(ws: Seq<Seq<char>>) -> Option<CommandAction> {
    if one_word(ws, "open"@) {
        Some(CommandAction::Open)
    } else if one_word(ws, "fit"@) || one_word(ws, "fitview"@) || two_words(ws, "zoom"@, "extents"@)
        || two_words(ws, "zoom"@, "all"@) {
        Some(CommandAction::FitView)
    } else if one_word(ws, "clear"@) || one_word(ws, "clearselection"@) || two_words(
        ws,
        "select"@,
        "none"@,
    ) {
        Some(CommandAction::ClearSelection)
    } else if two_words(ws, "layers"@, "on"@) || two_words(ws, "layer"@, "on"@) {
        Some(CommandAction::SetAllLayers(true))
    } else if two_words(ws, "layers"@, "off"@) || two_words(ws, "layer"@, "off"@) {
        Some(CommandAction::SetAllLayers(false))
    } else if two_words(ws, "blocks"@, "on"@) || two_words(ws, "block"@, "on"@) {
        Some(CommandAction::SetAllBlocks(true))
    } else if two_words(ws, "blocks"@, "off"@) || two_words(ws, "block"@, "off"@) {
        Some(CommandAction::SetAllBlocks(false))
    } else if two_words(ws, "toggle"@, "sidebar"@) {
        Some(CommandAction::TogglePanel(PanelToggle::Sidebar))
    } else if two_words(ws, "toggle"@, "properties"@) {
        Some(CommandAction::TogglePanel(PanelToggle::Properties))
    } else if two_words(ws, "toggle"@, "command"@) || two_words(ws, "toggle"@, "commandline"@) {
        Some(CommandAction::TogglePanel(PanelToggle::CommandLine))
    } else {
        None
    }
}

pub open spec fn empty_command_message() -> Seq<char> {
    "Enter a command first."@
}

pub open spec fn unknown_command_message(input: Seq<char>) -> Seq<char> {
    "Unknown command: '"@ + input
        + "'. Try open, fit, clear, layers on/off, blocks on/off, or toggle sidebar/properties/command."@
}

/// The words a command line is matched on: trimmed, lower-cased, split at
/// white space.
pub open spec fn command_words(input: Seq<char>) -> Seq<Seq<char>> {
    words(lower(trim(input)))
}

/// What `parse_command` gives for an input: an action, or the message shown.
pub open spec fn command_result(input: Seq<char>) -> Result<CommandAction, Seq<char>> {
    if lower(trim(input)).len() == 0 {
        Err(empty_command_message())
    } else {
        match action_for_words(command_words(input)) {
            Some(action) => Ok(action),
            None => Err(unknown_command_message(input)),
        }
    }
}

fn is_one(ws: &Vec<Vec<char>>, a: &str) -> (r: bool)
    ensures
        r == one_word(ws@.map_values(|w: Vec<char>| w@), a@),
{
    ws.len() == 1 && chars_equal_str(&ws[0], a)
}

fn is_two(ws: &Vec<Vec<char>>, a: &str, b: &str) -> (r: bool)
    ensures
        r == two_words(ws@.map_values(|w: Vec<char>| w@), a@, b@),
{
    ws.len() == 2 && chars_equal_str(&ws[0], a) && chars_equal_str(&ws[1], b)
}

fn action_for(ws: &Vec<Vec<char>>) -> (r: Option<CommandAction>)
    ensures
        r == action_for_words(ws@.map_values(|w: Vec<char>| w@)),
{
    if is_one(ws, "open") {
        Some(CommandAction::Open)
    } else if is_one(ws, "fit") || is_one(ws, "fitview") || is_two(ws, "zoom", "extents") || is_two(
        ws,
        "zoom",
        "all",
    ) {
        Some(CommandAction::FitView)
    } else if is_one(ws, "clear") || is_one(ws, "clearselection") || is_two(ws, "select", "none") {
        Some(CommandAction::ClearSelection)
    } else if is_two(ws, "layers", "on") || is_two(ws, "layer", "on") {
        Some(CommandAction::SetAllLayers(true))
    } else if is_two(ws, "layers", "off") || is_two(ws, "layer", "off") {
        Some(CommandAction::SetAllLayers(false))
    } else if is_two(ws, "blocks", "on") || is_two(ws, "block", "on") {
        Some(CommandAction::SetAllBlocks(true))
    } else if is_two(ws, "blocks", "off") || is_two(ws, "block", "off") {
        Some(CommandAction::SetAllBlocks(false))
    } else if is_two(ws, "toggle", "sidebar") {
        Some(CommandAction::TogglePanel(PanelToggle::Sidebar))
    } else if is_two(ws, "toggle", "properties") {
        Some(CommandAction::TogglePanel(PanelToggle::Properties))
    } else if is_two(ws, "toggle", "command") || is_two(ws, "toggle", "commandline") {
        Some(CommandAction::TogglePanel(PanelToggle::CommandLine))
    } else {
        None
    }
}

/// Parses a command line such as `zoom extents` or `layers off`.  Matching
/// ignores surrounding white space, ASCII case and the amount of white space
/// between words.
pub fn parse_command(input: &str) -> (r: Result<CommandAction, String>)
    ensures
        match (r, command_result(input@)) {
            (Ok(a), Ok(b)) => a == b,
            (Err(m), Err(n)) => m@ == n,
            _ => false,
        },
{
    let raw = chars_of(input);
    let trimmed = trim_chars(&raw);
    let normalized = lower_chars(&trimmed);
    if normalized.len() == 0 {
        return Err("Enter a command first.".to_owned());
    }
    let parts = split_words(&normalized);
    match action_for(&parts) {
        Some(action) => Ok(action),
        None => {
            let mut message = "Unknown command: '".to_owned();
            message.append(input);
            message.append(
                "'. Try open, fit, clear, layers on/off, blocks on/off, or toggle sidebar/properties/command.",
            );
            Err(message)
        },
    }
}

/// A command line that is not blank has at least one word.
proof fn lemma_nonblank_has_words(input: Seq<char>)
    ensures
        lower(trim(input)).len() > 0 <==> command_words(input).len() > 0,
{
    lemma_lower_trim(input);
    lemma_trimmed_has_word(lower(input));
    if lower(trim(input)).len() == 0 {
        assert(words(lower(trim(input))) == Seq::<Seq<char>>::empty());
    }
}

/// Only the lower-cased words of a command line decide the action: white
/// space around and between the words, and their number, change nothing.
pub proof fn law_commands_match_on_words(a: Seq<char>, b: Seq<char>)
    requires
        command_words(a) == command_words(b),
    ensures
        command_result(a) is Ok <==> command_result(b) is Ok,
        command_result(a) is Ok ==> command_result(a) == command_result(b),
{
    lemma_nonblank_has_words(a);
    lemma_nonblank_has_words(b);
}

/// Matching ignores ASCII case: command lines that differ only in the case
/// of their letters name the same action.
pub proof fn law_commands_ignore_case(a: Seq<char>, b: Seq<char>)
    requires
        lower(a) == lower(b),
    ensures
        command_result(a) is Ok <==> command_result(b) is Ok,
        command_result(a) is Ok ==> command_result(a) == command_result(b),
{
    lemma_lower_trim(a);
    lemma_lower_trim(b);
    law_commands_match_on_words(a, b);
}

/// Every command that the unknown-command message advertises is accepted,
/// whatever the case and spacing it is typed in: `open`, `fit`, `clear`,
/// `layers on`/`off`, `blocks on`/`off` and `toggle sidebar`/`properties`/
/// `command` each give their action.
pub proof fn law_advertised_commands_accepted(input: Seq<char>)
    ensures
        command_words(input) == seq!["open"@] ==> command_result(input) == Ok::<CommandAction, Seq<char>>(CommandAction::Open),
        command_words(input) == seq!["fit"@] ==> command_result(input) == Ok::<CommandAction, Seq<char>>(CommandAction::FitView),
        command_words(input) == seq!["clear"@] ==> command_result(input) == Ok::<CommandAction, Seq<char>>(CommandAction::ClearSelection),
        command_words(input) == seq!["layers"@, "on"@] ==> command_result(input) == Ok::<CommandAction, Seq<char>>(CommandAction::SetAllLayers(true)),
        command_words(input) == seq!["layers"@, "off"@] ==> command_result(input) == Ok::<CommandAction, Seq<char>>(CommandAction::SetAllLayers(false)),
        command_words(input) == seq!["blocks"@, "on"@] ==> command_result(input) == Ok::<CommandAction, Seq<char>>(CommandAction::SetAllBlocks(true)),
        command_words(input) == seq!["blocks"@, "off"@] ==> command_result(input) == Ok::<CommandAction, Seq<char>>(CommandAction::SetAllBlocks(false)),
        command_words(input) == seq!["toggle"@, "sidebar"@] ==> command_result(input) == Ok::<CommandAction, Seq<char>>(CommandAction::TogglePanel(PanelToggle::Sidebar)),
        command_words(input) == seq!["toggle"@, "properties"@] ==> command_result(input) == Ok::<CommandAction, Seq<char>>(CommandAction::TogglePanel(PanelToggle::Properties)),
        command_words(input) == seq!["toggle"@, "command"@] ==> command_result(input) == Ok::<CommandAction, Seq<char>>(CommandAction::TogglePanel(PanelToggle::CommandLine)),
{
    lemma_nonblank_has_words(input);
    reveal_strlit("open");
    reveal_strlit("fit");
    reveal_strlit("fitview");
    reveal_strlit("zoom");
    reveal_strlit("clear");
    reveal_strlit("clearselection");
    reveal_strlit("select");
    reveal_strlit("layers");
    reveal_strlit("layer");
    reveal_strlit("blocks");
    reveal_strlit("block");
    reveal_strlit("on");
    reveal_strlit("off");
    reveal_strlit("toggle");
    reveal_strlit("sidebar");
    reveal_strlit("properties");
    reveal_strlit("command");
    reveal_strlit("commandline");
    reveal_strlit("none");
    reveal_strlit("all");
    reveal_strlit("extents");
    assert("open"@.len() == 4);
    assert("fit"@.len() == 3);
    assert("fitview"@.len() == 7);
    assert("zoom"@.len() == 4);
    assert("clear"@.len() == 5);
    assert("clearselection"@.len() == 14);
    assert("select"@.len() == 6);
    assert("layers"@.len() == 6);
    assert("layer"@.len() == 5);
    assert("blocks"@.len() == 6);
    assert("block"@.len() == 5);
    assert("on"@.len() == 2);
    assert("off"@.len() == 3);
    assert("toggle"@.len() == 6);
    assert("sidebar"@.len() == 7);
    assert("properties"@.len() == 10);
    assert("command"@.len() == 7);
    assert("commandline"@.len() == 11);
    assert("extents"@.len() == 7);
    assert("all"@.len() == 3);
    assert("none"@.len() == 4);
    assert("command"@[0] != "sidebar"@[0]);
    assert("blocks"@[0] != "select"@[0] && "blocks"@[0] != "layers"@[0]);
    assert("toggle"@[0] != "select"@[0] && "toggle"@[0] != "layers"@[0] && "toggle"@[0] != "blocks"@[0]);
    assert("layers"@[0] != "select"@[0]);
}

/// The other spellings of the commands are accepted too: `fitview`,
/// `zoom extents` and `zoom all` fit the view; `clearselection` and
/// `select none` clear the selection; `layer`/`block` stand for `layers`/
/// `blocks`; `toggle commandline` is `toggle command`.
pub proof fn law_command_aliases_accepted(input: Seq<char>)
    ensures
        command_words(input) == seq!["fitview"@] ==> command_result(input) == Ok::<CommandAction, Seq<char>>(CommandAction::FitView),
        command_words(input) == seq!["zoom"@, "extents"@] ==> command_result(input) == Ok::<CommandAction, Seq<char>>(CommandAction::FitView),
        command_words(input) == seq!["zoom"@, "all"@] ==> command_result(input) == Ok::<CommandAction, Seq<char>>(CommandAction::FitView),
        command_words(input) == seq!["clearselection"@] ==> command_result(input) == Ok::<CommandAction, Seq<char>>(CommandAction::ClearSelection),
        command_words(input) == seq!["select"@, "none"@] ==> command_result(input) == Ok::<CommandAction, Seq<char>>(CommandAction::ClearSelection),
        command_words(input) == seq!["layer"@, "on"@] ==> command_result(input) == Ok::<CommandAction, Seq<char>>(CommandAction::SetAllLayers(true)),
        command_words(input) == seq!["layer"@, "off"@] ==> command_result(input) == Ok::<CommandAction, Seq<char>>(CommandAction::SetAllLayers(false)),
        command_words(input) == seq!["block"@, "on"@] ==> command_result(input) == Ok::<CommandAction, Seq<char>>(CommandAction::SetAllBlocks(true)),
        command_words(input) == seq!["block"@, "off"@] ==> command_result(input) == Ok::<CommandAction, Seq<char>>(CommandAction::SetAllBlocks(false)),
        command_words(input) == seq!["toggle"@, "commandline"@] ==> command_result(input) == Ok::<CommandAction, Seq<char>>(CommandAction::TogglePanel(PanelToggle::CommandLine)),
{
    lemma_nonblank_has_words(input);
    reveal_strlit("open");
    reveal_strlit("fit");
    reveal_strlit("fitview");
    reveal_strlit("zoom");
    reveal_strlit("clear");
    reveal_strlit("clearselection");
    reveal_strlit("select");
    reveal_strlit("layers");
    reveal_strlit("layer");
    reveal_strlit("blocks");
    reveal_strlit("block");
    reveal_strlit("on");
    reveal_strlit("off");
    reveal_strlit("toggle");
    reveal_strlit("sidebar");
    reveal_strlit("properties");
    reveal_strlit("command");
    reveal_strlit("commandline");
    reveal_strlit("extents");
    reveal_strlit("all");
    reveal_strlit("none");
    assert("open"@.len() == 4);
    assert("fit"@.len() == 3);
    assert("fitview"@.len() == 7);
    assert("zoom"@.len() == 4);
    assert("clear"@.len() == 5);
    assert("clearselection"@.len() == 14);
    assert("select"@.len() == 6);
    assert("layers"@.len() == 6);
    assert("layer"@.len() == 5);
    assert("blocks"@.len() == 6);
    assert("block"@.len() == 5);
    assert("on"@.len() == 2);
    assert("off"@.len() == 3);
    assert("toggle"@.len() == 6);
    assert("sidebar"@.len() == 7);
    assert("properties"@.len() == 10);
    assert("command"@.len() == 7);
    assert("commandline"@.len() == 11);
    assert("extents"@.len() == 7);
    assert("all"@.len() == 3);
    assert("none"@.len() == 4);
    assert("blocks"@[0] != "select"@[0] && "blocks"@[0] != "layers"@[0]);
    assert("toggle"@[0] != "select"@[0] && "toggle"@[0] != "layers"@[0] && "toggle"@[0] != "blocks"@[0]);
    assert("layers"@[0] != "select"@[0]);
    assert("block"@[0] != "layer"@[0] && "block"@[0] != "clear"@[0]);
    assert("layer"@[0] != "clear"@[0]);
    assert("commandline"@[0] != "properties"@[0]);
}

/// A blank command line asks for a command; one whose first word names no
/// command is refused with a message that repeats it.
pub proof fn law_unknown_commands_refused(input: Seq<char>)
    ensures
        command_words(input).len() == 0 ==> command_result(input) == Err::<CommandAction, Seq<char>>("Enter a command first."@),
        command_words(input).len() > 0 && !(command_words(input)[0] == "open"@ || command_words(input)[0] == "fit"@
            || command_words(input)[0] == "fitview"@ || command_words(input)[0] == "zoom"@ || command_words(input)[0]
            == "clear"@ || command_words(input)[0] == "clearselection"@ || command_words(input)[0] == "select"@
            || command_words(input)[0] == "layers"@ || command_words(input)[0] == "layer"@ || command_words(input)[0]
            == "blocks"@ || command_words(input)[0] == "block"@ || command_words(input)[0] == "toggle"@)
            ==> command_result(input) == Err::<CommandAction, Seq<char>>(
            "Unknown command: '"@ + input
                + "'. Try open, fit, clear, layers on/off, blocks on/off, or toggle sidebar/properties/command."@,
        ),
{
    lemma_nonblank_has_words(input);
}

} // verus!
