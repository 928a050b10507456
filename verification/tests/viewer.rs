use cad_extraction::commands::{CommandAction, PanelToggle};
use cad_extraction::models::{BlockInfo, CadColorSpec, CadLineWeightSpec, LayerInfo, LayoutInfo};
use cad_extraction::name_map::NameMap;
use cad_extraction::viewer::{ViewerEffect, ViewerState};

fn layout(name: &str, root: &str, is_model: bool) -> LayoutInfo {
    LayoutInfo { name: name.to_owned(), root_block_name: root.to_owned(), tab_order: 0, is_model }
}

#[test]
fn a_new_viewer_waits_for_a_file() {
    let v = ViewerState::default();
    assert_eq!(v.status, "Open a DXF or DWG file to start.");
    assert!(v.show_sidebar && v.show_properties_panel && v.show_command_line);
    assert_eq!(v.active_layout_index, 0);
    assert!(!v.request_fit_view);
}

#[test]
fn commands_update_the_status_line() {
    let mut v = ViewerState::default();
    assert_eq!(v.apply_command(CommandAction::FitView), ViewerEffect::Nothing);
    assert!(v.request_fit_view);
    assert_eq!(v.status, "Queued fit-to-view.");
    v.apply_command(CommandAction::SetAllLayers(false));
    assert_eq!(v.status, "All layers are now hidden.");
    v.apply_command(CommandAction::SetAllBlocks(true));
    assert_eq!(v.status, "All blocks are now visible.");
    v.apply_command(CommandAction::TogglePanel(PanelToggle::Properties));
    assert!(!v.show_properties_panel);
    assert_eq!(v.status, "Properties panel hidden");
    v.apply_command(CommandAction::TogglePanel(PanelToggle::Properties));
    assert_eq!(v.status, "Properties panel shown");
    v.selected_entity = Some(4);
    v.apply_command(CommandAction::ClearSelection);
    assert_eq!(v.selected_entity, None);
    assert_eq!(v.status, "Selection cleared.");
    assert_eq!(v.apply_command(CommandAction::Open), ViewerEffect::OpenFileDialog);
    assert_eq!(v.status, "Selection cleared.");
}

#[test]
fn the_command_line_runs_and_clears() {
    let mut v = ViewerState::default();
    v.command_input = "  toggle   SIDEBAR ".to_owned();
    assert_eq!(v.execute_command_line(), ViewerEffect::Nothing);
    assert!(!v.show_sidebar);
    assert_eq!(v.status, "Sidebar hidden");
    assert_eq!(v.command_input, "");

    v.command_input = "   ".to_owned();
    v.execute_command_line();
    assert_eq!(v.status, "Enter a command first.");
    assert_eq!(v.command_input, "   ");

    v.command_input = "orbit".to_owned();
    v.execute_command_line();
    assert!(v.status.starts_with("Unknown command: 'orbit'."));
    assert_eq!(v.command_input, "orbit");

    v.command_input = "open".to_owned();
    assert_eq!(v.execute_command_line(), ViewerEffect::OpenFileDialog);
    assert_eq!(v.command_input, "");
}

#[test]
fn loading_a_drawing_resets_the_view() {
    let mut v = ViewerState::default();
    v.selected_entity = Some(2);
    v.selected_transform_chain = vec!["A".to_owned()];
    let layouts = vec![layout("Layout1", "*Paper_Space", false), layout("Model", "*Model_Space", true)];
    let mut layers: NameMap<LayerInfo> = NameMap::new();
    layers.insert(
        "HIDDEN".to_owned(),
        LayerInfo {
            name: "HIDDEN".to_owned(),
            visible_by_default: false,
            entity_count: 1,
            color: CadColorSpec::ByLayer,
            line_weight: CadLineWeightSpec::ByLayer,
        },
    );
    let mut blocks: NameMap<BlockInfo> = NameMap::new();
    blocks.insert("DOOR".to_owned(), BlockInfo { name: "DOOR".to_owned(), entity_count: 3 });
    v.on_drawing_loaded(&layouts, &layers, &blocks, 12, "plans/a.dxf");
    assert_eq!(v.active_layout_index, 1);
    assert_eq!(v.status, "Loaded 12 entities from plans/a.dxf");
    assert_eq!(v.selected_entity, None);
    assert!(v.selected_transform_chain.is_empty());
    assert!(v.request_fit_view);
    assert_eq!(v.filters.layer_visibility.get("HIDDEN"), Some(&false));
    assert_eq!(v.filters.block_visibility.get("DOOR"), Some(&true));
    assert_eq!(v.active_root_block_name(&layouts), Some("*Model_Space"));

    v.select_layout(0);
    assert_eq!(v.active_root_block_name(&layouts), Some("*Paper_Space"));
    v.select_layout(7);
    assert_eq!(v.active_root_block_name(&layouts), None);

    v.on_load_failed("unsupported file extension");
    assert_eq!(v.status, "Load failed: unsupported file extension");
}

#[test]
fn without_a_model_layout_the_first_is_active() {
    let mut v = ViewerState::default();
    v.active_layout_index = 3;
    let layouts = vec![layout("L1", "*Paper_Space", false)];
    v.on_drawing_loaded(&layouts, &NameMap::new(), &NameMap::new(), 0, "x.dwg");
    assert_eq!(v.active_layout_index, 0);
    assert_eq!(v.status, "Loaded 0 entities from x.dwg");
}
