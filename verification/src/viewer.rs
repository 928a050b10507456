//! The viewer's state apart from the drawing and the viewport: the active
//! layout, the visibility filters, the selection, the panels, the status
//! line and the command line, with what each command and event does to it.
use vstd::prelude::*;
use vstd::string::StringExecFns;

use crate::commands::{command_result, parse_command, CommandAction, PanelToggle};
use crate::models::{BlockInfo, LayerInfo, LayoutInfo, StyleSource};
use crate::name_map::NameMap;
use crate::output::{decimal_string, decimal_text};
use crate::panels::{blocks_synced, layers_synced, VisibilityFilters};
use crate::text::{chars_of, string_of, trim, trim_chars};

verus! {

/// What the viewer must do outside its state after a command.
#[derive(Debug, Clone, Copy, PartialEq, Eq, Structural)]
pub enum ViewerEffect {
    Nothing,
    OpenFileDialog,
}

#[derive(Debug, Clone)]
pub struct ViewerState {
    pub active_layout_index: usize,
    pub filters: VisibilityFilters,
    pub selected_entity: Option<usize>,
    pub selected_transform_chain: Vec<String>,
    pub selected_style_source: Option<StyleSource>,
    pub status: String,
    pub request_fit_view: bool,
    pub show_sidebar: bool,
    pub show_properties_panel: bool,
    pub show_command_line: bool,
    pub command_input: String,
}

pub open spec fn same_selection(a: ViewerState, b: ViewerState) -> bool {
    &&& a.selected_entity == b.selected_entity
    &&& a.selected_transform_chain@ == b.selected_transform_chain@
    &&& a.selected_style_source == b.selected_style_source
}

pub open spec fn selection_cleared(s: ViewerState) -> bool {
    &&& s.selected_entity is None
    &&& s.selected_transform_chain@.len() == 0
    &&& s.selected_style_source is None
}

pub open spec fn same_panels(a: ViewerState, b: ViewerState) -> bool {
    &&& a.show_sidebar == b.show_sidebar
    &&& a.show_properties_panel == b.show_properties_panel
    &&& a.show_command_line == b.show_command_line
}

/// Everything but the status line and the command line is unchanged.
pub open spec fn same_view(a: ViewerState, b: ViewerState) -> bool {
    &&& a.active_layout_index == b.active_layout_index
    &&& a.filters == b.filters
    &&& same_selection(a, b)
    &&& a.request_fit_view == b.request_fit_view
    &&& same_panels(a, b)
}

pub open spec fn panel_label(p: PanelToggle) -> Seq<char> {
    match p {
        PanelToggle::Sidebar => "Sidebar"@,
        PanelToggle::Properties => "Properties panel"@,
        PanelToggle::CommandLine => "Command line"@,
    }
}

pub open spec fn panel_shown(s: ViewerState, p: PanelToggle) -> bool {
    match p {
        PanelToggle::Sidebar => s.show_sidebar,
        PanelToggle::Properties => s.show_properties_panel,
        PanelToggle::CommandLine => s.show_command_line,
    }
}

pub open spec fn toggle_message(p: PanelToggle, shown: bool) -> Seq<char> {
    panel_label(p) + " "@ + if shown {
        "shown"@
    } else {
        "hidden"@
    }
}

pub open spec fn all_set(m: Map<Seq<char>, bool>, visible: bool) -> bool {
    forall|k: Seq<char>| #[trigger] m.contains_key(k) ==> m[k] == visible
}

/// What a command does to the state (the command line aside).
pub open spec fn command_applied(old: ViewerState, new: ViewerState, action: CommandAction) -> bool {
    match action {
        CommandAction::Open => same_view(old, new) && new.status@ == old.status@,
        CommandAction::FitView => {
            &&& new.request_fit_view
            &&& new.status@ == "Queued fit-to-view."@
            &&& new.active_layout_index == old.active_layout_index
            &&& new.filters == old.filters
            &&& same_selection(old, new)
            &&& same_panels(old, new)
        },
        CommandAction::ClearSelection => {
            &&& selection_cleared(new)
            &&& new.status@ == "Selection cleared."@
            &&& new.active_layout_index == old.active_layout_index
            &&& new.filters == old.filters
            &&& new.request_fit_view == old.request_fit_view
            &&& same_panels(old, new)
        },
        CommandAction::SetAllLayers(visible) => {
            &&& new.filters.wf()
            &&& new.filters.layer_visibility@.dom() == old.filters.layer_visibility@.dom()
            &&& all_set(new.filters.layer_visibility@, visible)
            &&& new.filters.block_visibility == old.filters.block_visibility
            &&& new.filters.layer_search == old.filters.layer_search
            &&& new.filters.block_search == old.filters.block_search
            &&& new.status@ == if visible {
                "All layers are now visible."@
            } else {
                "All layers are now hidden."@
            }
            &&& new.active_layout_index == old.active_layout_index
            &&& same_selection(old, new)
            &&& new.request_fit_view == old.request_fit_view
            &&& same_panels(old, new)
        },
        CommandAction::SetAllBlocks(visible) => {
            &&& new.filters.wf()
            &&& new.filters.block_visibility@.dom() == old.filters.block_visibility@.dom()
            &&& all_set(new.filters.block_visibility@, visible)
            &&& new.filters.layer_visibility == old.filters.layer_visibility
            &&& new.filters.layer_search == old.filters.layer_search
            &&& new.filters.block_search == old.filters.block_search
            &&& new.status@ == if visible {
                "All blocks are now visible."@
            } else {
                "All blocks are now hidden."@
            }
            &&& new.active_layout_index == old.active_layout_index
            &&& same_selection(old, new)
            &&& new.request_fit_view == old.request_fit_view
            &&& same_panels(old, new)
        },
        CommandAction::TogglePanel(p) => {
            &&& panel_shown(new, p) == !panel_shown(old, p)
            &&& forall|q: PanelToggle| q != p ==> panel_shown(new, q) == panel_shown(old, q)
            &&& new.status@ == toggle_message(p, panel_shown(new, p))
            &&& new.active_layout_index == old.active_layout_index
            &&& new.filters == old.filters
            &&& same_selection(old, new)
            &&& new.request_fit_view == old.request_fit_view
        },
    }
}

/// The index of the first model layout, or 0.
pub open spec fn first_model_layout(layouts: Seq<LayoutInfo>, from: int) -> int
    decreases layouts.len() - from,
{
    if from >= layouts.len() {
        0
    } else if layouts[from].is_model {
        from
    } else {
        first_model_layout(layouts, from + 1)
    }
}

pub open spec fn loaded_message(total_entities: usize, source: Seq<char>) -> Seq<char> {
    "Loaded "@ + decimal_text(total_entities as nat) + " entities from "@ + source
}

impl Default for ViewerState {
    fn default() -> (s: Self)
        ensures
            s.wf(),
            s.active_layout_index == 0,
            s.filters.layer_visibility@ == Map::<Seq<char>, bool>::empty(),
            s.filters.block_visibility@ == Map::<Seq<char>, bool>::empty(),
            selection_cleared(s),
            s.status@ == "Open a DXF or DWG file to start."@,
            !s.request_fit_view,
            s.show_sidebar && s.show_properties_panel && s.show_command_line,
            s.command_input@.len() == 0,
    {
        ViewerState {
            active_layout_index: 0,
            filters: VisibilityFilters::default(),
            selected_entity: None,
            selected_transform_chain: Vec::new(),
            selected_style_source: None,
            status: "Open a DXF or DWG file to start.".to_owned(),
            request_fit_view: false,
            show_sidebar: true,
            show_properties_panel: true,
            show_command_line: true,
            command_input: String::new(),
        }
    }
}

impl ViewerState {
    pub open spec fn wf(&self) -> bool {
        self.filters.wf()
    }

    fn clear_selection(&mut self)
        ensures
            selection_cleared(*final(self)),
            final(self).active_layout_index == old(self).active_layout_index,
            final(self).filters == old(self).filters,
            final(self).status == old(self).status,
            final(self).request_fit_view == old(self).request_fit_view,
            same_panels(*old(self), *final(self)),
            final(self).command_input == old(self).command_input,
    {
        self.selected_entity = None;
        self.selected_transform_chain = Vec::new();
        self.selected_style_source = None;
    }

    /// Carries out a command; opening a file is left to the caller.
    pub fn apply_command(&mut self, action: CommandAction) -> (effect: ViewerEffect)
        requires
            old(self).wf(),
        ensures
            final(self).wf(),
            command_applied(*old(self), *final(self), action),
            final(self).command_input == old(self).command_input,
            effect == if action == CommandAction::Open {
                ViewerEffect::OpenFileDialog
            } else {
                ViewerEffect::Nothing
            },
    {
        match action {
            CommandAction::Open => ViewerEffect::OpenFileDialog,
            CommandAction::FitView => {
                self.request_fit_view = true;
                self.status = "Queued fit-to-view.".to_owned();
                ViewerEffect::Nothing
            },
            CommandAction::ClearSelection => {
                self.clear_selection();
                self.status = "Selection cleared.".to_owned();
                ViewerEffect::Nothing
            },
            CommandAction::SetAllLayers(visible) => {
                self.filters.set_all_layers(visible);
                self.status = if visible {
                    "All layers are now visible.".to_owned()
                } else {
                    "All layers are now hidden.".to_owned()
                };
                ViewerEffect::Nothing
            },
            CommandAction::SetAllBlocks(visible) => {
                self.filters.set_all_blocks(visible);
                self.status = if visible {
                    "All blocks are now visible.".to_owned()
                } else {
                    "All blocks are now hidden.".to_owned()
                };
                ViewerEffect::Nothing
            },
            CommandAction::TogglePanel(panel) => {
                let (label, shown) = match panel {
                    PanelToggle::Sidebar => {
                        self.show_sidebar = !self.show_sidebar;
                        ("Sidebar", self.show_sidebar)
                    },
                    PanelToggle::Properties => {
                        self.show_properties_panel = !self.show_properties_panel;
                        ("Properties panel", self.show_properties_panel)
                    },
                    PanelToggle::CommandLine => {
                        self.show_command_line = !self.show_command_line;
                        ("Command line", self.show_command_line)
                    },
                };
                let mut message = label.to_owned();
                message.append(" ");
                message.append(if shown {
                    "shown"
                } else {
                    "hidden"
                });
                self.status = message;
                ViewerEffect::Nothing
            },
        }
    }

    /// Runs the command typed on the command line: an empty line asks for a
    /// command, an unknown one shows the parser's message, a known one is
    /// carried out and the line is cleared.
    pub fn execute_command_line(&mut self) -> (effect: ViewerEffect)
        requires
            old(self).wf(),
        ensures
            final(self).wf(),
            trim(old(self).command_input@).len() == 0 ==> {
                &&& same_view(*old(self), *final(self))
                &&& final(self).status@ == "Enter a command first."@
                &&& final(self).command_input == old(self).command_input
                &&& effect == ViewerEffect::Nothing
            },
            trim(old(self).command_input@).len() > 0 ==> match command_result(trim(old(self).command_input@)) {
                Ok(action) => {
                    &&& command_applied(*old(self), *final(self), action)
                    &&& final(self).command_input@.len() == 0
                    &&& effect == if action == CommandAction::Open {
                        ViewerEffect::OpenFileDialog
                    } else {
                        ViewerEffect::Nothing
                    }
                },
                Err(message) => {
                    &&& same_view(*old(self), *final(self))
                    &&& final(self).status@ == message
                    &&& final(self).command_input == old(self).command_input
                    &&& effect == ViewerEffect::Nothing
                },
            },
    {
        let raw = chars_of(self.command_input.as_str());
        let trimmed = trim_chars(&raw);
        if trimmed.len() == 0 {
            self.status = "Enter a command first.".to_owned();
            return ViewerEffect::Nothing;
        }
        let input = string_of(&trimmed);
        match parse_command(input.as_str()) {
            Ok(action) => {
                let effect = self.apply_command(action);
                self.command_input = String::new();
                effect
            },
            Err(error) => {
                self.status = error;
                ViewerEffect::Nothing
            },
        }
    }

    /// Switches to another layout: the selection is cleared and the view is
    /// fitted again; choosing the active layout changes nothing.
    pub fn select_layout(&mut self, index: usize)
        ensures
            index == old(self).active_layout_index ==> *final(self) == *old(self),
            index != old(self).active_layout_index ==> {
                &&& final(self).active_layout_index == index
                &&& selection_cleared(*final(self))
                &&& final(self).request_fit_view
                &&& final(self).filters == old(self).filters
                &&& final(self).status == old(self).status
                &&& same_panels(*old(self), *final(self))
                &&& final(self).command_input == old(self).command_input
            },
    {
        if self.active_layout_index != index {
            self.active_layout_index = index;
            self.clear_selection();
            self.request_fit_view = true;
        }
    }

    /// The root block of the active layout, if that layout exists.
    pub fn active_root_block_name<'a>(&self, layouts: &'a Vec<LayoutInfo>) -> (r: Option<&'a str>)
        ensures
            match r {
                Some(name) => self.active_layout_index < layouts@.len() && name@ == layouts@[self.active_layout_index as int].root_block_name@,
                None => self.active_layout_index >= layouts@.len(),
            },
    {
        if self.active_layout_index < layouts.len() {
            Some(layouts[self.active_layout_index].root_block_name.as_str())
        } else {
            None
        }
    }

    /// A drawing was loaded: the first model layout becomes active, the
    /// filters start afresh from its layers and blocks, the selection is
    /// cleared, the view is to be fitted, and the status line reports it.
    pub fn on_drawing_loaded(
        &mut self,
        layouts: &Vec<LayoutInfo>,
        layers: &NameMap<LayerInfo>,
        blocks: &NameMap<BlockInfo>,
        total_entities: usize,
        source_path: &str,
    )
        ensures
            final(self).wf(),
            final(self).active_layout_index == first_model_layout(layouts@, 0),
            final(self).filters.layer_visibility@ == layers_synced(Map::empty(), layers.values()),
            final(self).filters.block_visibility@ == blocks_synced(Map::empty(), blocks.values()),
            final(self).filters.layer_search@.len() == 0,
            final(self).filters.block_search@.len() == 0,
            selection_cleared(*final(self)),
            final(self).request_fit_view,
            final(self).status@ == loaded_message(total_entities, source_path@),
            same_panels(*old(self), *final(self)),
            final(self).command_input == old(self).command_input,
    {
        let mut i: usize = 0;
        while i < layouts.len() && !layouts[i].is_model
            invariant
                i <= layouts.len(),
                first_model_layout(layouts@, 0) == first_model_layout(layouts@, i as int),
            decreases layouts.len() - i,
        {
            i = i + 1;
        }
        let active = if i < layouts.len() {
            i
        } else {
            0
        };
        let mut filters = VisibilityFilters::default();
        filters.sync_from_drawing(layers, blocks);
        self.filters = filters;
        self.active_layout_index = active;
        self.clear_selection();
        self.request_fit_view = true;
        let mut message = "Loaded ".to_owned();
        let count = decimal_string(total_entities as u64);
        message.append(count.as_str());
        message.append(" entities from ");
        message.append(source_path);
        self.status = message;
    }

    /// Loading failed: the status line shows the error; nothing else changes.
    pub fn on_load_failed(&mut self, error: &str)
        ensures
            same_view(*old(self), *final(self)),
            final(self).status@ == "Load failed: "@ + error@,
            final(self).command_input == old(self).command_input,
    {
        let mut message = "Load failed: ".to_owned();
        message.append(error);
        self.status = message;
    }

    /// A layout tab was clicked: the layout becomes active (as
    /// `select_layout`) and the status line names it and its root block.
    pub fn switch_to_layout_tab(&mut self, index: usize, name: &str, root_block_name: &str)
        ensures
            index == old(self).active_layout_index ==> same_view(*old(self), *final(self)),
            index != old(self).active_layout_index ==> {
                &&& final(self).active_layout_index == index
                &&& selection_cleared(*final(self))
                &&& final(self).request_fit_view
                &&& final(self).filters == old(self).filters
                &&& same_panels(*old(self), *final(self))
            },
            final(self).status@ == "Switched to layout '"@ + name@ + "' ("@ + root_block_name@ + ")."@,
            final(self).command_input == old(self).command_input,
    {
        self.select_layout(index);
        let mut message = "Switched to layout '".to_owned();
        message.append(name);
        message.append("' (");
        message.append(root_block_name);
        message.append(").");
        self.status = message;
    }
}

/// Toggling a panel twice leaves every panel as it was.
pub proof fn law_toggle_twice_restores(s0: ViewerState, s1: ViewerState, s2: ViewerState, p: PanelToggle)
    requires
        command_applied(s0, s1, CommandAction::TogglePanel(p)),
        command_applied(s1, s2, CommandAction::TogglePanel(p)),
    ensures
        forall|q: PanelToggle| panel_shown(s2, q) == panel_shown(s0, q),
{
}

} // verus!
