use cad_extraction::commands::{parse_command, CommandAction, PanelToggle};

#[test]
fn parses_zoom_aliases() {
    assert_eq!(parse_command("fit").unwrap(), CommandAction::FitView);
    assert_eq!(parse_command("zoom extents").unwrap(), CommandAction::FitView);
    assert_eq!(parse_command("zoom all").unwrap(), CommandAction::FitView);
}

#[test]
fn parses_visibility_commands() {
    assert_eq!(parse_command("layers on").unwrap(), CommandAction::SetAllLayers(true));
    assert_eq!(
        parse_command("blocks off").unwrap(),
        CommandAction::SetAllBlocks(false)
    );
}

#[test]
fn parses_panel_toggles() {
    assert_eq!(
        parse_command("toggle sidebar").unwrap(),
        CommandAction::TogglePanel(PanelToggle::Sidebar)
    );
    assert_eq!(
        parse_command("toggle properties").unwrap(),
        CommandAction::TogglePanel(PanelToggle::Properties)
    );
}

#[test]
fn rejects_unknown_commands() {
    assert!(parse_command("orbit").is_err());
}

#[test]
fn commands_ignore_case_and_spacing() {
    assert_eq!(parse_command("  ZOOM   Extents \t").unwrap(), CommandAction::FitView);
    assert_eq!(parse_command("Layer OFF").unwrap(), CommandAction::SetAllLayers(false));
    assert_eq!(
        parse_command("toggle   CommandLine").unwrap(),
        CommandAction::TogglePanel(PanelToggle::CommandLine)
    );
    assert_eq!(parse_command("select none").unwrap(), CommandAction::ClearSelection);
    assert_eq!(parse_command("OPEN").unwrap(), CommandAction::Open);
    assert_eq!(parse_command("block on").unwrap(), CommandAction::SetAllBlocks(true));
}

#[test]
fn blank_command_asks_for_one() {
    assert_eq!(parse_command("   ").unwrap_err(), "Enter a command first.");
    assert_eq!(parse_command("").unwrap_err(), "Enter a command first.");
}

#[test]
fn unknown_command_message_quotes_the_input() {
    assert_eq!(
        parse_command(" orbit now").unwrap_err(),
        "Unknown command: ' orbit now'. Try open, fit, clear, layers on/off, blocks on/off, or toggle sidebar/properties/command."
    );
    assert!(parse_command("zoom").is_err());
    assert!(parse_command("layers on now").is_err());
}
