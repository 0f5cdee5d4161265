//! Configuration model: the structure read from the launcher's
//! configuration file and the fully-defaulted settings derived from it.

use vstd::pervasive::cloned;
use vstd::prelude::*;

verus! {

/// A configured launcher entry: typing its prefix triggers `cmd`.
pub struct Module {
    pub description: String,
    pub prefix: String,
    pub cmd: String,
    pub with_argument: Option<bool>,
    pub url_encode: Option<bool>,
    pub unbind_proc: Option<bool>,
}

/// General behaviour switches of the launcher.
pub struct General {
    pub default_module: Option<String>,
    pub empty_module: Option<String>,
    pub exec_cmd: Option<String>,
    pub esc_to_abort: Option<bool>,
    pub cheatsheet_entry: Option<String>,
    pub cheatsheet_viewer: Option<String>,
    pub vi_mode: Option<bool>,
    pub clear_screen_after_execution: Option<bool>,
    pub loop_mode: Option<bool>,
    pub callback: Option<String>,
    pub external_editor: Option<String>,
    pub delay_startup: Option<usize>,
}

/// Appearance of the prompt and the suggestion list.
pub struct Interface {
    pub header: Option<String>,
    pub header_cmd: Option<String>,
    pub header_cmd_trimmed_lines: Option<usize>,
    pub separator: Option<String>,
    pub footer: Option<String>,
    pub list_prefix: Option<String>,
    pub selection_prefix: Option<String>,
    pub place_holder: Option<String>,
    pub default_module_message: Option<String>,
    pub empty_module_message: Option<String>,
    pub suggestion_mode: Option<String>,
    pub suggestion_lines: Option<usize>,
    pub indicator_no_arg_module: Option<String>,
    pub indicator_with_arg_module: Option<String>,
    pub prefix_padding: Option<usize>,
    pub prefix_color: Option<String>,
    pub description_color: Option<String>,
    pub place_holder_color: Option<String>,
    pub hint_color: Option<String>,
    pub move_interface_right: Option<usize>,
    pub move_interface_down: Option<usize>,
    pub customized_list_order: Option<bool>,
}

/// The side panel pinned beside the suggestion list.
pub struct Overlay {
    pub overlay_cmd: Option<String>,
    pub overlay_trimmed_lines: Option<usize>,
    pub overlay_height: Option<usize>,
    pub move_overlay_right: Option<usize>,
    pub move_overlay_down: Option<usize>,
}

/// Everything the configuration file can set.
pub struct Config {
    pub general: General,
    pub interface: Interface,
    pub overlay: Overlay,
    pub modules: Vec<Module>,
}

/// Initialises a one-shot setting cell from an optional configured value,
/// falling back to a default; a cell already set is left untouched.
pub fn init_statics<T>(cell: &mut Option<T>, config_value: Option<T>, default_value: T)
    ensures
        (*old(cell)) is None ==> *final(cell) == Some(
            if config_value is Some {
                config_value->0
            } else {
                default_value
            },
        ),
        (*old(cell)) is Some ==> *final(cell) == *old(cell),
{
    let value = match config_value {
        Some(v) => v,
        None => default_value,
    };
    if cell.is_none() {
        *cell = Some(value);
    }
}

/// Reads a setting cell, filling an empty cell with the default first.
pub fn cached_statics<T: Clone>(cell: &mut Option<T>, default_value: T) -> (r: T)
    ensures
        (*old(cell)) is None ==> *final(cell) == Some(default_value) && cloned(default_value, r),
        (*old(cell)) is Some ==> *final(cell) == *old(cell) && cloned((*old(cell))->0, r),
{
    if cell.is_none() {
        *cell = Some(default_value);
    }
    match cell {
        Some(v) => v.clone(),
        None => vstd::pervasive::unreached(),
    }
}

/// The configured value, or the default where none was configured.
pub open spec fn str_or_spec(v: Option<String>, d: Seq<char>) -> Seq<char> {
    if v is Some {
        v->0@
    } else {
        d
    }
}

/// The configured value, or the default where none was configured.
pub open spec fn val_or_spec<T>(v: Option<T>, d: T) -> T {
    if v is Some {
        v->0
    } else {
        d
    }
}

fn str_or(v: &Option<String>, d: &str) -> (r: String)
    ensures
        r@ == str_or_spec(*v, d@),
{
    match v {
        Some(s) => s.clone(),
        None => String::from_str(d),
    }
}

fn usize_or(v: &Option<usize>, d: usize) -> (r: usize)
    ensures
        r == val_or_spec(*v, d),
{
    match v {
        Some(n) => *n,
        None => d,
    }
}

fn bool_or(v: &Option<bool>, d: bool) -> (r: bool)
    ensures
        r == val_or_spec(*v, d),
{
    match v {
        Some(b) => *b,
        None => d,
    }
}

/// Every configured value resolved against its default: what the rest of
/// the launcher reads instead of the raw configuration.
pub struct Settings {
    pub exec_cmd: String,
    pub external_editor: String,
    pub default_module: String,
    pub empty_module: String,
    pub cheatsheet_entry: String,
    pub cheatsheet_viewer: String,
    pub vi_mode: bool,
    pub esc_to_abort: bool,
    pub loop_mode: bool,
    pub clear_screen_after_execution: bool,
    pub callback: String,
    pub delay_startup: usize,
    pub header_cmd: String,
    pub overlay_cmd: String,
    pub header_cmd_trimmed_lines: usize,
    pub overlay_trimmed_lines: usize,
    pub overlay_height: usize,
    pub header: String,
    pub separator: String,
    pub footer: String,
    pub list_prefix: String,
    pub selection_prefix: String,
    pub place_holder: String,
    pub indicator_with_arg_module: String,
    pub indicator_no_arg_module: String,
    pub suggestion_mode: String,
    pub suggestion_lines: usize,
    pub default_module_message: String,
    pub empty_module_message: String,
    pub prefix_padding: usize,
    pub prefix_color: String,
    pub description_color: String,
    pub place_holder_color: String,
    pub hint_color: String,
    pub layout_rightward: usize,
    pub layout_downward: usize,
    pub overlay_rightward: usize,
    pub overlay_downward: usize,
    pub customized_list_order: bool,
}

/// Resolves the whole configuration against the launcher's defaults.
pub fn init_all_statics(config: &Config) -> (s: Settings)
    ensures
        s.exec_cmd@ == str_or_spec(config.general.exec_cmd, "sh -c"@),
        s.external_editor@ == str_or_spec(config.general.external_editor, ""@),
        s.default_module@ == str_or_spec(config.general.default_module, ""@),
        s.empty_module@ == str_or_spec(config.general.empty_module, ""@),
        s.cheatsheet_entry@ == str_or_spec(config.general.cheatsheet_entry, "?"@),
        s.cheatsheet_viewer@ == str_or_spec(config.general.cheatsheet_viewer, "less -R; clear"@),
        s.vi_mode == val_or_spec(config.general.vi_mode, false),
        s.esc_to_abort == val_or_spec(config.general.esc_to_abort, true),
        s.loop_mode == val_or_spec(config.general.loop_mode, false),
        s.clear_screen_after_execution == val_or_spec(
            config.general.clear_screen_after_execution,
            false,
        ),
        s.callback@ == str_or_spec(config.general.callback, ""@),
        s.delay_startup == val_or_spec(config.general.delay_startup, 0usize),
        s.header_cmd@ == str_or_spec(config.interface.header_cmd, ""@),
        s.overlay_cmd@ == str_or_spec(config.overlay.overlay_cmd, ""@),
        s.header_cmd_trimmed_lines == val_or_spec(config.interface.header_cmd_trimmed_lines, 0usize),
        s.overlay_trimmed_lines == val_or_spec(config.overlay.overlay_trimmed_lines, 0usize),
        s.overlay_height == val_or_spec(config.overlay.overlay_height, 0usize),
        s.header@ == str_or_spec(config.interface.header, "otter-launcher: "@),
        s.separator@ == str_or_spec(config.interface.separator, ""@),
        s.footer@ == str_or_spec(config.interface.footer, ""@),
        s.list_prefix@ == str_or_spec(config.interface.list_prefix, ""@),
        s.selection_prefix@ == str_or_spec(config.interface.selection_prefix, ">"@),
        s.place_holder@ == str_or_spec(config.interface.place_holder, "type something"@),
        s.indicator_with_arg_module@ == str_or_spec(config.interface.indicator_with_arg_module, ""@),
        s.indicator_no_arg_module@ == str_or_spec(config.interface.indicator_no_arg_module, ""@),
        s.suggestion_mode@ == str_or_spec(config.interface.suggestion_mode, "list"@),
        s.suggestion_lines == val_or_spec(config.interface.suggestion_lines, 1usize),
        s.default_module_message@ == str_or_spec(config.interface.default_module_message, ""@),
        s.empty_module_message@ == str_or_spec(config.interface.empty_module_message, ""@),
        s.prefix_padding == val_or_spec(config.interface.prefix_padding, 0usize),
        s.prefix_color@ == str_or_spec(config.interface.prefix_color, ""@),
        s.description_color@ == str_or_spec(config.interface.description_color, "\u{1b}[39m"@),
        s.place_holder_color@ == str_or_spec(config.interface.place_holder_color, "\u{1b}[30m"@),
        s.hint_color@ == str_or_spec(config.interface.hint_color, "\u{1b}[30m"@),
        s.layout_rightward == val_or_spec(config.interface.move_interface_right, 0usize),
        s.layout_downward == val_or_spec(config.interface.move_interface_down, 0usize),
        s.overlay_rightward == val_or_spec(config.overlay.move_overlay_right, 0usize),
        s.overlay_downward == val_or_spec(config.overlay.move_overlay_down, 0usize),
        s.customized_list_order == val_or_spec(config.interface.customized_list_order, false),
{
    Settings {
        exec_cmd: str_or(&config.general.exec_cmd, "sh -c"),
        external_editor: str_or(&config.general.external_editor, ""),
        default_module: str_or(&config.general.default_module, ""),
        empty_module: str_or(&config.general.empty_module, ""),
        cheatsheet_entry: str_or(&config.general.cheatsheet_entry, "?"),
        cheatsheet_viewer: str_or(&config.general.cheatsheet_viewer, "less -R; clear"),
        vi_mode: bool_or(&config.general.vi_mode, false),
        esc_to_abort: bool_or(&config.general.esc_to_abort, true),
        loop_mode: bool_or(&config.general.loop_mode, false),
        clear_screen_after_execution: bool_or(&config.general.clear_screen_after_execution, false),
        callback: str_or(&config.general.callback, ""),
        delay_startup: usize_or(&config.general.delay_startup, 0),
        header_cmd: str_or(&config.interface.header_cmd, ""),
        overlay_cmd: str_or(&config.overlay.overlay_cmd, ""),
        header_cmd_trimmed_lines: usize_or(&config.interface.header_cmd_trimmed_lines, 0),
        overlay_trimmed_lines: usize_or(&config.overlay.overlay_trimmed_lines, 0),
        overlay_height: usize_or(&config.overlay.overlay_height, 0),
        header: str_or(&config.interface.header, "otter-launcher: "),
        separator: str_or(&config.interface.separator, ""),
        footer: str_or(&config.interface.footer, ""),
        list_prefix: str_or(&config.interface.list_prefix, ""),
        selection_prefix: str_or(&config.interface.selection_prefix, ">"),
        place_holder: str_or(&config.interface.place_holder, "type something"),
        indicator_with_arg_module: str_or(&config.interface.indicator_with_arg_module, ""),
        indicator_no_arg_module: str_or(&config.interface.indicator_no_arg_module, ""),
        suggestion_mode: str_or(&config.interface.suggestion_mode, "list"),
        suggestion_lines: usize_or(&config.interface.suggestion_lines, 1),
        default_module_message: str_or(&config.interface.default_module_message, ""),
        empty_module_message: str_or(&config.interface.empty_module_message, ""),
        prefix_padding: usize_or(&config.interface.prefix_padding, 0),
        prefix_color: str_or(&config.interface.prefix_color, ""),
        description_color: str_or(&config.interface.description_color, "\u{1b}[39m"),
        place_holder_color: str_or(&config.interface.place_holder_color, "\u{1b}[30m"),
        hint_color: str_or(&config.interface.hint_color, "\u{1b}[30m"),
        layout_rightward: usize_or(&config.interface.move_interface_right, 0),
        layout_downward: usize_or(&config.interface.move_interface_down, 0),
        overlay_rightward: usize_or(&config.overlay.move_overlay_right, 0),
        overlay_downward: usize_or(&config.overlay.move_overlay_down, 0),
        customized_list_order: bool_or(&config.interface.customized_list_order, false),
    }
}

} // verus!
