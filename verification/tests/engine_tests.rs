use otter_launcher::dispatch::{
    replace_placeholder, resolve_prompt, run_designated_module, splice_segments,
    split_subshell_once, split_subshells, split_var_once, split_vars, trim_shell_output,
    url_encode, AcceptAction, DesignatedAction, ExternalEditor, ListItemEnter, ListItemSelect,
    ListItemTab, PromptAction, CTRLX,
};
use otter_launcher::graphics::{
    cell_height_from_replies, derive_cell_height, kitty_rows, parse_csi_numbers, parse_usize,
    sixel_block_raster_rows, sixel_rows,
};
use otter_launcher::pager::UiState;
use otter_launcher::render::{
    cheat_sheet_body, completion_candidate, compose_header, hint_mode_best, overlay_height_calc,
    overlay_join, page_window, split_lines_exec, usize_to_string, Decor, OtterHelper,
};
use otter_launcher::settings::{
    cached_statics, init_all_statics, init_statics, Config, General, Interface, Module, Overlay,
};
use otter_launcher::suggest::{filter_labels, map_hints};
use otter_launcher::text::remove_ascii;

fn module(prefix: &str, desc: &str, cmd: &str, with_arg: Option<bool>) -> Module {
    Module {
        description: desc.to_string(),
        prefix: prefix.to_string(),
        cmd: cmd.to_string(),
        with_argument: with_arg,
        url_encode: None,
        unbind_proc: None,
    }
}

fn empty_config() -> Config {
    Config {
        general: General {
            default_module: None,
            empty_module: None,
            exec_cmd: None,
            esc_to_abort: None,
            cheatsheet_entry: None,
            cheatsheet_viewer: None,
            vi_mode: None,
            clear_screen_after_execution: None,
            loop_mode: None,
            callback: None,
            external_editor: None,
            delay_startup: None,
        },
        interface: Interface {
            header: None,
            header_cmd: None,
            header_cmd_trimmed_lines: None,
            separator: None,
            footer: None,
            list_prefix: None,
            selection_prefix: None,
            place_holder: None,
            default_module_message: None,
            empty_module_message: None,
            suggestion_mode: None,
            suggestion_lines: None,
            indicator_no_arg_module: None,
            indicator_with_arg_module: None,
            prefix_padding: None,
            prefix_color: None,
            description_color: None,
            place_holder_color: None,
            hint_color: None,
            move_interface_right: None,
            move_interface_down: None,
            customized_list_order: None,
        },
        overlay: Overlay {
            overlay_cmd: None,
            overlay_trimmed_lines: None,
            overlay_height: None,
            move_overlay_right: None,
            move_overlay_down: None,
        },
        modules: Vec::new(),
    }
}

fn fresh_state(lines: usize) -> UiState {
    UiState {
        selection_index: 0,
        hint_benchmark: 0,
        selection_span: 0,
        hint_span: 0,
        filtered_hint_count: 0,
        suggestion_lines: lines,
    }
}

#[test]
fn remove_ascii_strips_colour_codes() {
    assert_eq!(remove_ascii("\u{1b}[31mred\u{1b}[0m"), "red");
    assert_eq!(remove_ascii("plain"), "plain");
    // An unterminated sequence is kept as written.
    assert_eq!(remove_ascii("\u{1b}[12"), "\u{1b}[12");
    assert_eq!(remove_ascii("a\u{1b}[1;32mb\u{1b}[0mc"), "abc");
}

#[test]
fn map_hints_builds_labels_with_indicators() {
    let mods = vec![
        module("g", "grep", "echo g", None),
        module("\u{1b}[31ms\u{1b}[0m", "search", "echo s", Some(true)),
    ];
    let hints = map_hints(&mods, "W", "N");
    assert_eq!(hints.len(), 2);
    assert_eq!(hints[0].display, "g Ngrep");
    assert_eq!(hints[1].display, "s Wsearch");
    assert_eq!(hints[1].w_arg, Some(true));
}

#[test]
fn filter_empty_input_returns_all_sorted() {
    // Round trip on empty input: every module is kept, alphabetically.
    let mods = vec![
        module("z", "zeta", "c1", None),
        module("a", "alpha", "c2", None),
        module("m", "mid", "c3", None),
    ];
    let hints = map_hints(&mods, "", "");
    let filtered = filter_labels(&hints, "", false);
    assert_eq!(filtered.len(), mods.len());
    assert_eq!(filtered, vec!["a alpha", "m mid", "z zeta"]);
}

#[test]
fn filter_empty_input_keeps_configured_order_when_asked() {
    let mods = vec![
        module("z", "zeta", "c1", None),
        module("a", "alpha", "c2", None),
    ];
    let hints = map_hints(&mods, "", "");
    let filtered = filter_labels(&hints, "", true);
    assert_eq!(filtered, vec!["z zeta", "a alpha"]);
}

#[test]
fn filter_narrowing_shrinks_the_match_set() {
    // Appending characters only narrows: each filtered set is contained
    // in the previous one.
    let mods = vec![
        module("fire", "flame", "c1", None),
        module("fish", "swim", "c2", None),
        module("git", "repo", "c3", None),
    ];
    let hints = map_hints(&mods, "", "");
    let f1 = filter_labels(&hints, "f", false);
    let f2 = filter_labels(&hints, "fi", false);
    let f3 = filter_labels(&hints, "fis", false);
    assert!(f2.iter().all(|l| f1.contains(l)));
    assert!(f3.iter().all(|l| f2.contains(l)));
    assert_eq!(f3, vec!["fish swim"]);
}

#[test]
fn filter_puts_prefix_matches_before_substring_matches() {
    let mods = vec![
        module("af", "ziploc", "c1", None),
        module("zf", "files", "c2", None),
    ];
    let hints = map_hints(&mods, "", "");
    let filtered = filter_labels(&hints, "z", false);
    assert_eq!(filtered, vec!["zf files", "af ziploc"]);
}

#[test]
fn filter_keeps_argument_module_matched_after_space() {
    let mods = vec![
        module("s", "search", "echo {}", Some(true)),
        module("g", "grep", "echo g", None),
    ];
    let hints = map_hints(&mods, "", "");
    let filtered = filter_labels(&hints, "s some query", false);
    assert_eq!(filtered, vec!["s search"]);
}

#[test]
fn filter_matches_through_colour_codes() {
    let mods = vec![module("\u{1b}[31mg\u{1b}[0m", "grep", "echo g", None)];
    let hints = map_hints(&mods, "", "");
    let filtered = filter_labels(&hints, "g", false);
    assert_eq!(filtered.len(), 1);
}

#[test]
fn kitty_rows_keeps_max_per_image_id() {
    // Two chunks of the same image: the row count is the largest seen,
    // not the sum.
    let s = "\u{1b}_Gi=1,r=4;AAA\u{1b}\\\u{1b}_Gi=1;BBB\u{1b}\\";
    assert_eq!(kitty_rows(s), Some(4));
}

#[test]
fn kitty_rows_sums_distinct_image_ids() {
    let s = "\u{1b}_Gi=1,r=2;x\u{1b}\\\u{1b}_Gi=2,r=3;y\u{1b}\\";
    assert_eq!(kitty_rows(s), Some(5));
}

#[test]
fn kitty_rows_sums_anonymous_blocks() {
    let s = "\u{1b}_Gr=2;x\u{1b}\\\u{1b}_Gr=3;y\u{1b}\\";
    assert_eq!(kitty_rows(s), Some(5));
}

#[test]
fn kitty_rows_none_without_row_counts() {
    assert_eq!(kitty_rows("\u{1b}_Gi=9;data\u{1b}\\"), None);
    assert_eq!(kitty_rows("no images here"), None);
}

#[test]
fn kitty_rows_accepts_bell_terminator() {
    assert_eq!(kitty_rows("\u{1b}_Ga=T,r=7\u{7}"), Some(7));
}

#[test]
fn sixel_rows_counts_row_advances() {
    // Three rows of data separated by two row-advance characters.
    let s = "\u{1b}Pq###-###-###\u{1b}\\";
    assert_eq!(sixel_rows(s), Some(3));
    assert_eq!(sixel_block_raster_rows("q###-###-###"), Some(3));
}

#[test]
fn sixel_rows_ignores_carriage_returns_and_missing_blocks() {
    assert_eq!(sixel_block_raster_rows("q##$##-##$##"), Some(2));
    assert_eq!(sixel_block_raster_rows("no data intro"), None);
    assert_eq!(sixel_rows("plain text"), None);
}

#[test]
fn parse_csi_numbers_reads_a_size_report() {
    assert_eq!(parse_csi_numbers("\u{1b}[6;14;7t", "6"), Some(vec![14, 7]));
    assert_eq!(parse_csi_numbers("\u{1b}[4;1;2t", "6"), None);
    assert_eq!(parse_csi_numbers("\u{1b}[6;abct", "6"), None);
    assert_eq!(parse_csi_numbers("garbage", "6"), None);
}

#[test]
fn parse_usize_accepts_digits_and_rejects_junk() {
    assert_eq!(parse_usize("42"), Some(42));
    assert_eq!(parse_usize("+7"), Some(7));
    assert_eq!(parse_usize(""), None);
    assert_eq!(parse_usize("4x"), None);
}

#[test]
fn derive_cell_height_rounds_up() {
    assert_eq!(derive_cell_height(100, 9), 12);
    assert_eq!(derive_cell_height(99, 9), 11);
    assert_eq!(derive_cell_height(1, 1), 1);
}

#[test]
fn overlay_height_falls_back_to_line_count() {
    assert_eq!(overlay_height_calc("a\nb\nc", 0, 22), 3);
    assert_eq!(overlay_height_calc("a\nb", 9, 22), 9);
    assert_eq!(overlay_height_calc("a\nb\nc\nd", 2, 22), 4);
}

#[test]
fn overlay_height_uses_kitty_rows() {
    let s = "\u{1b}_Gi=1,r=5;x\u{1b}\\";
    // Five image rows on a single text line.
    assert_eq!(overlay_height_calc(s, 0, 22), 5);
}

#[test]
fn overlay_join_trims_and_repositions() {
    assert_eq!(overlay_join("a\nb\nc\n", 1, 4), "a\n\u{1b}[5Gb");
    assert_eq!(
        overlay_join("a\nb", 5, 0),
        "not enough lines of overlay_cmd output to be trimmed"
    );
}

#[test]
fn dispatch_runs_no_argument_module_and_completes_argument_module() {
    // Accepting the selected "g" row runs its command and leaves the read
    // loop; accepting the argument-taking "f" row only completes.
    let mods = vec![
        module("g", "grep", "echo g", Some(false)),
        module("f", "find", "echo {}", Some(true)),
    ];
    let mut st = fresh_state(3);
    st.selection_index = 1;
    let action = ListItemEnter.handle(&mods, &mut st, "g ", false, true);
    match action {
        AcceptAction::RunAndInterrupt { cmd, detach } => {
            assert_eq!(cmd, "echo g");
            assert!(!detach);
        }
        other => panic!("unexpected action: {:?}", action_name(&other)),
    }
    let mut st2 = fresh_state(3);
    st2.selection_index = 1;
    let action2 = ListItemEnter.handle(&mods, &mut st2, "f ", false, true);
    assert!(matches!(action2, AcceptAction::Complete));
}

fn action_name(a: &AcceptAction) -> &'static str {
    match a {
        AcceptAction::AcceptLine => "AcceptLine",
        AcceptAction::NoCandidate => "NoCandidate",
        AcceptAction::RunAndClear { .. } => "RunAndClear",
        AcceptAction::RunAndInterrupt { .. } => "RunAndInterrupt",
        AcceptAction::Complete => "Complete",
        AcceptAction::CompleteHint => "CompleteHint",
    }
}

#[test]
fn dispatch_accepts_line_when_nothing_selected() {
    let mods = vec![module("g", "grep", "echo g", Some(false))];
    let mut st = fresh_state(3);
    let action = ListItemEnter.handle(&mods, &mut st, "g ", false, true);
    assert!(matches!(action, AcceptAction::AcceptLine));
}

#[test]
fn dispatch_clears_line_in_loop_mode() {
    let mods = vec![module("g", "grep", "echo g", Some(false))];
    let mut st = fresh_state(3);
    st.selection_index = 1;
    let action = ListItemEnter.handle(&mods, &mut st, "g ", true, true);
    assert!(matches!(action, AcceptAction::RunAndClear { .. }));
    assert_eq!(st.selection_index, 0);
}

#[test]
fn dispatch_ignores_blank_candidate() {
    let mods = vec![module("g", "grep", "echo g", Some(false))];
    let mut st = fresh_state(3);
    st.selection_index = 1;
    let action = ListItemEnter.handle(&mods, &mut st, "  ", false, true);
    assert!(matches!(action, AcceptAction::NoCandidate));
}

#[test]
fn select_key_completes_when_nothing_selected() {
    let mods = vec![module("f", "find", "echo {}", Some(true))];
    let mut st = fresh_state(3);
    let a = ListItemSelect.handle(&mods, &mut st, "f ", false);
    assert!(matches!(a, AcceptAction::Complete));
    let mut st2 = fresh_state(3);
    st2.selection_index = 1;
    let b = ListItemSelect.handle(&mods, &mut st2, "f ", false);
    assert!(matches!(b, AcceptAction::Complete));
}

#[test]
fn tab_completes_at_line_end_only() {
    assert!(matches!(ListItemTab.handle(true), AcceptAction::Complete));
    assert!(matches!(ListItemTab.handle(false), AcceptAction::CompleteHint));
}

#[test]
fn chord_lock_arms_once() {
    let mut lock = 0usize;
    assert!(CTRLX.handle(&mut lock));
    assert_eq!(lock, 1);
    assert!(!CTRLX.handle(&mut lock));
    assert_eq!(lock, 1);
}

#[test]
fn external_editor_fires_in_vi_command_or_armed_emacs() {
    assert!(ExternalEditor.should_edit(true, false, 0));
    assert!(ExternalEditor.should_edit(false, true, 1));
    assert!(!ExternalEditor.should_edit(false, true, 0));
    assert!(!ExternalEditor.should_edit(false, false, 1));
}

#[test]
fn resolve_prompt_substitutes_argument() {
    let mut m = module("f", "find", "open {}", Some(true));
    m.url_encode = Some(true);
    let mods = vec![m];
    match resolve_prompt(&mods, "f a b", "?") {
        PromptAction::Run { cmd, detach } => {
            assert_eq!(cmd, "open a%20b");
            assert!(!detach);
        }
        _ => panic!("expected a command"),
    }
}

#[test]
fn resolve_prompt_runs_exact_no_argument_module() {
    let mods = vec![module("g", "grep", "echo g", Some(false))];
    match resolve_prompt(&mods, "g", "?") {
        PromptAction::Run { cmd, .. } => assert_eq!(cmd, "echo g"),
        _ => panic!("expected a command"),
    }
    // Extra text after a no-argument module falls back to the default.
    assert!(matches!(
        resolve_prompt(&mods, "g stuff", "?"),
        PromptAction::UseDefaultModule
    ));
}

#[test]
fn resolve_prompt_fallback_paths() {
    let mods = vec![module("g", "grep", "echo g", Some(false))];
    assert!(matches!(
        resolve_prompt(&mods, "", "?"),
        PromptAction::UseEmptyModule
    ));
    assert!(matches!(
        resolve_prompt(&mods, "?", "?"),
        PromptAction::ShowCheatSheet
    ));
    assert!(matches!(
        resolve_prompt(&mods, "? ", "?"),
        PromptAction::ShowCheatSheet
    ));
    assert!(matches!(
        resolve_prompt(&mods, "zzz", "?"),
        PromptAction::UseDefaultModule
    ));
}

#[test]
fn designated_module_resolution() {
    let mut m = module("w", "web", "open {}", Some(true));
    m.url_encode = Some(true);
    let mods = vec![m];
    assert!(matches!(
        run_designated_module(&mods, "hello", ""),
        DesignatedAction::PrintPrompt
    ));
    match run_designated_module(&mods, "a b", "w") {
        DesignatedAction::Run { cmd, detach } => {
            assert_eq!(cmd, "open a%20b");
            assert!(!detach);
        }
        _ => panic!("expected a command"),
    }
    match run_designated_module(&mods, "x", "missing") {
        DesignatedAction::Run { cmd, .. } => {
            assert_eq!(cmd, "printf 'no default_module or empty_module found\n'");
        }
        _ => panic!("expected the fallback command"),
    }
}

#[test]
fn url_encode_percent_encodes() {
    assert_eq!(url_encode("a b"), "a%20b");
    assert_eq!(url_encode("x-._~Z9"), "x-._~Z9");
    assert_eq!(url_encode("\u{e9}"), "%C3%A9");
}

#[test]
fn replace_placeholder_replaces_every_occurrence() {
    assert_eq!(replace_placeholder("a {} b {}", "x"), "a x b x");
    assert_eq!(replace_placeholder("plain", "x"), "plain");
    assert_eq!(replace_placeholder("{}", ""), "");
}

#[test]
fn subshell_scanner_finds_nested_command() {
    let (text, rest) = split_subshell_once("a$(e$(f))b");
    assert_eq!(text, "a");
    let (cmd, tail) = rest.expect("subshell expected");
    assert_eq!(cmd, "e$(f)");
    assert_eq!(tail, "b");
    // An unmatched opener is treated as literal text.
    let (text2, rest2) = split_subshell_once("a$(b");
    assert_eq!(text2, "a$(b");
    assert!(rest2.is_none());
}

#[test]
fn var_scanner_finds_names() {
    let (text, rest) = split_var_once("say $USER!");
    assert_eq!(text, "say ");
    let (name, tail) = rest.expect("variable expected");
    assert_eq!(name, "USER");
    assert_eq!(tail, "!");
    // A dollar before a digit is not a variable reference.
    let (t2, r2) = split_var_once("cost $1");
    assert_eq!(t2, "cost $1");
    assert!(r2.is_none());
}

#[test]
fn shell_output_trimming() {
    assert_eq!(trim_shell_output("out\n"), "out");
    assert_eq!(trim_shell_output("out\r\n"), "out");
    assert_eq!(trim_shell_output("out"), "out");
    assert_eq!(trim_shell_output("a\nb\n"), "a\nb");
}

#[test]
fn settings_resolve_against_defaults() {
    let mut config = empty_config();
    config.general.loop_mode = Some(true);
    config.interface.suggestion_lines = Some(5);
    let s = init_all_statics(&config);
    assert_eq!(s.exec_cmd, "sh -c");
    assert_eq!(s.cheatsheet_entry, "?");
    assert_eq!(s.cheatsheet_viewer, "less -R; clear");
    assert_eq!(s.header, "otter-launcher: ");
    assert_eq!(s.selection_prefix, ">");
    assert_eq!(s.place_holder, "type something");
    assert_eq!(s.suggestion_mode, "list");
    assert_eq!(s.description_color, "\u{1b}[39m");
    assert!(s.esc_to_abort);
    assert!(s.loop_mode);
    assert_eq!(s.suggestion_lines, 5);
    assert_eq!(s.prefix_padding, 0);
}

#[test]
fn setting_cells_initialise_once() {
    let mut cell: Option<usize> = None;
    init_statics(&mut cell, Some(4), 9);
    assert_eq!(cell, Some(4));
    init_statics(&mut cell, Some(7), 9);
    assert_eq!(cell, Some(4));
    let mut other: Option<String> = None;
    let got = cached_statics(&mut other, "fallback".to_string());
    assert_eq!(got, "fallback");
    assert_eq!(other, Some("fallback".to_string()));
    let again = cached_statics(&mut other, "unused".to_string());
    assert_eq!(again, "fallback");
}

#[test]
fn window_and_candidate_follow_selection() {
    let filtered: Vec<String> = vec!["a one".into(), "b two".into(), "c three".into(), "d four".into()];
    let w = page_window(&filtered, 1, 2);
    assert_eq!(w, vec!["b two", "c three"]);
    assert_eq!(completion_candidate(&w, 0), "b ");
    assert_eq!(completion_candidate(&w, 2), "c ");
    // Too little past the offset: the page restarts from the top.
    let w2 = page_window(&filtered, 3, 2);
    assert_eq!(w2, vec!["a one", "b two"]);
    // Selection past the page yields a bare space.
    assert_eq!(completion_candidate(&w, 9), " ");
}

#[test]
fn hint_mode_best_prefers_first_prefix_match() {
    let mods = vec![
        module("fire", "flame", "c1", None),
        module("fish", "swim", "c2", None),
    ];
    let hints = map_hints(&mods, "", "");
    assert_eq!(hint_mode_best(&hints, "fi"), Some(0));
    assert_eq!(hint_mode_best(&hints, "fis"), Some(1));
    assert_eq!(hint_mode_best(&hints, "zz"), None);
    assert_eq!(hint_mode_best(&hints, "  "), None);
}

#[test]
fn hint_shows_placeholder_and_page_on_empty_line() {
    let mods = vec![module("g", "grep", "echo g", None)];
    let helper = OtterHelper { hints: map_hints(&mods, "", "") };
    let mut st = fresh_state(1);
    let out = helper.hint(
        "", 0, &mut st, false, false, "type something", "?", "", "", "", "", "", 0, 0, 0,
    );
    assert_eq!(out.hint.display, "type something\ng grep");
    assert_eq!(out.completion_candidate, "g ");
    assert_eq!(out.filtered.len(), 1);
    assert_eq!(st.hint_span, 1);
    assert_eq!(st.filtered_hint_count, 1);
}

#[test]
fn hint_shows_cheat_sheet_row() {
    let mods = vec![module("g", "grep", "echo g", None)];
    let helper = OtterHelper { hints: map_hints(&mods, "", "") };
    let mut st = fresh_state(1);
    let out = helper.hint(
        "?", 1, &mut st, false, false, "type something", "?", "N", "", "", "", "", 0, 0, 0,
    );
    assert_eq!(out.hint.display, "\n? N cheat sheet");
    assert_eq!(out.completion_candidate, "? ");
}

#[test]
fn hint_mode_shows_single_inline_match() {
    let mods = vec![module("g", "grep", "echo g", None)];
    let helper = OtterHelper { hints: map_hints(&mods, "", "") };
    let mut st = fresh_state(1);
    let out = helper.hint(
        "g", 1, &mut st, true, false, "type something", "?", "", "", "", "", "", 0, 0, 0,
    );
    assert_eq!(out.hint.display, "g grep");
    assert_eq!(out.hint.completion, 1);
    assert_eq!(out.completion_candidate, "g");
}

#[test]
fn complete_uses_empty_and_default_modules() {
    let helper = OtterHelper { hints: Vec::new() };
    let mut st = fresh_state(1);
    let (start, text) = helper.complete("", 0, false, "", "files", "web", &mut st);
    assert_eq!((start, text.as_str()), (0, "files "));
    let (s2, t2) = helper.complete("x", 1, false, " ", "files", "web", &mut st);
    assert_eq!((s2, t2.as_str()), (0, "web "));
    let (s3, t3) = helper.complete("g", 1, false, "g ", "files", "web", &mut st);
    assert_eq!((s3, t3.as_str()), (0, "g "));
    let (s4, t4) = helper.complete("gx", 1, false, "g ", "files", "web", &mut st);
    assert_eq!((s4, t4.as_str()), (1, ""));
    assert_eq!(st.selection_index, 0);
}

#[test]
fn highlight_hint_mode_formats_exactly() {
    let helper = OtterHelper { hints: Vec::new() };
    let mut st = fresh_state(1);
    let d = Decor {
        place_holder: String::new(),
        place_holder_color: String::new(),
        hint_color: "H".to_string(),
        list_prefix: String::new(),
        selection_prefix: String::new(),
        prefix_color: String::new(),
        description_color: String::new(),
        prefix_padding: 0,
        layout_rightward: 0,
        default_module_message: String::new(),
        empty_module_message: String::new(),
        footer: String::new(),
        overlay_rightward: 0,
        overlay_downward: 0,
    };
    let out = helper.highlight_hint("abc", true, &mut st, &d, "", 2, 0);
    assert_eq!(
        out,
        "\u{1b}[0mHabc\u{1b}[0m\u{1b}[s\u{1b}[1A\u{1b}[1G\u{1b}[u\u{1b}[?25h"
    );
}

#[test]
fn highlight_list_marks_selected_row() {
    let helper = OtterHelper { hints: Vec::new() };
    let mut st = fresh_state(2);
    st.set_filtered_count(2);
    st.selection_index = 2;
    let d = Decor {
        place_holder: "type something".to_string(),
        place_holder_color: String::new(),
        hint_color: String::new(),
        list_prefix: "- ".to_string(),
        selection_prefix: "> ".to_string(),
        prefix_color: String::new(),
        description_color: String::new(),
        prefix_padding: 0,
        layout_rightward: 0,
        default_module_message: String::new(),
        empty_module_message: String::new(),
        footer: String::new(),
        overlay_rightward: 0,
        overlay_downward: 0,
    };
    let out = helper.highlight_hint("type something\na one\nb two", false, &mut st, &d, "", 0, 0);
    // Row two (the selection) carries the selection glyph, row one the
    // list glyph; the place holder row is recoloured only.
    assert!(out.contains("\u{1b}[1G> b two\u{1b}[0m"));
    assert!(out.contains("\u{1b}[1G- a one\u{1b}[0m"));
    assert_eq!(st.selection_span, 2);
}

#[test]
fn split_lines_matches_line_semantics() {
    assert_eq!(split_lines_exec("a\nb\n"), vec!["a", "b"]);
    assert_eq!(split_lines_exec("a\n\nb"), vec!["a", "", "b"]);
    let none: Vec<String> = Vec::new();
    assert_eq!(split_lines_exec(""), none);
    assert_eq!(split_lines_exec("a\r\nb"), vec!["a", "b"]);
}

#[test]
fn numbers_print_in_decimal() {
    assert_eq!(usize_to_string(0), "0");
    assert_eq!(usize_to_string(907), "907");
}

#[test]
fn cheat_sheet_lists_modules_aligned() {
    let mods = vec![
        module("g", "gd", "c1", None),
        module("ff", "fd", "c2", Some(true)),
    ];
    let body = cheat_sheet_body(&mods, "", "", "W", "N");
    assert_eq!(
        body,
        "\n  Configured Modules:\n\n\u{1b}[0m    g \u{1b}[0m Ngd\u{1b}[0m\n    ff\u{1b}[0m Wfd\u{1b}[0m"
    );
}

#[test]
fn module_hint_construction_and_padding() {
    let h = otter_launcher::suggest::ModuleHint::new("g grep", "g", Some(false));
    assert_eq!(h.display, "g grep");
    assert_eq!(h.completion, 1);
    let padded = h.suffix(2, 2, "footer");
    assert_eq!(padded.display, "g grep\n \n footer");
    assert_eq!(padded.completion, 2);
    assert_eq!(padded.w_arg, Some(false));
}

#[test]
fn sixel_accepts_single_character_terminator() {
    assert_eq!(sixel_rows("\u{1b}Pq#-#\u{9c}"), Some(2));
}

#[test]
fn kitty_ignores_unterminated_block() {
    assert_eq!(kitty_rows("\u{1b}_Gi=1,r=4;no terminator"), None);
}

#[test]
fn resolve_prompt_strips_prefix_before_substituting() {
    let mods = vec![module("g", "go", "run {}", Some(true))];
    match resolve_prompt(&mods, "g g", "?") {
        PromptAction::Run { cmd, .. } => assert_eq!(cmd, "run g"),
        _ => panic!("expected a command"),
    }
    match resolve_prompt(&mods, "g   spaced  arg", "?") {
        PromptAction::Run { cmd, .. } => assert_eq!(cmd, "run spaced  arg"),
        _ => panic!("expected a command"),
    }
}

#[test]
fn resolve_prompt_carries_detach_flag() {
    let mut m = module("d", "detached", "daemon {}", Some(true));
    m.unbind_proc = Some(true);
    let mods = vec![m];
    match resolve_prompt(&mods, "d x", "?") {
        PromptAction::Run { cmd, detach } => {
            assert_eq!(cmd, "daemon x");
            assert!(detach);
        }
        _ => panic!("expected a command"),
    }
}

#[test]
fn split_lines_keeps_a_bare_trailing_carriage_return() {
    assert_eq!(split_lines_exec("abc\r"), vec!["abc\r"]);
    assert_eq!(split_lines_exec("a\r\nb\r"), vec!["a", "b\r"]);
}

#[test]
fn sixel_terminal_rows_round_up() {
    // Two raster rows are twelve pixels; five-pixel cells need three rows,
    // not the two that truncating division would give.
    let s = "\u{1b}Pq#-#\u{1b}\\";
    assert_eq!(overlay_height_calc(s, 0, 5), 3);
    assert_eq!(overlay_height_calc(s, 0, 12), 1);
}

#[test]
fn cell_height_decision_prefers_the_cell_report() {
    assert_eq!(
        cell_height_from_replies(Some("\u{1b}[6;18;9t"), None, None),
        Some(18)
    );
    // No usable cell report: the window height is divided by the text
    // rows, rounding up.
    assert_eq!(
        cell_height_from_replies(None, Some("\u{1b}[4;100;640t"), Some("\u{1b}[8;9;80t")),
        Some(12)
    );
    assert_eq!(cell_height_from_replies(Some("junk"), None, None), None);
    assert_eq!(cell_height_from_replies(None, Some("\u{1b}[4;100;640t"), None), None);
}

#[test]
fn expansion_scanners_decompose_and_splice() {
    let (texts, cmds) = split_subshells("a$(date)b$(id)c");
    assert_eq!(texts, vec!["a", "b", "c"]);
    assert_eq!(cmds, vec!["date", "id"]);
    let fills = vec!["X".to_string(), "Y".to_string()];
    assert_eq!(splice_segments(&texts, &fills), "aXbYc");
    let (vtexts, names) = split_vars("go $HOME now $USER");
    assert_eq!(vtexts, vec!["go ", " now ", ""]);
    assert_eq!(names, vec!["HOME", "USER"]);
    let vals = vec!["/h".to_string(), "me".to_string()];
    assert_eq!(splice_segments(&vtexts, &vals), "go /h now me");
}

#[test]
fn header_is_assembled_from_its_parts() {
    // One line of command output kept, the header text shifted to the
    // layout column.
    let r = compose_header("sys\nx\n", "hi\nho", true, 2, 1, 1);
    assert_eq!(r, "sys\n\n\u{1b}[3G  \u{1b}[3Ghi\n\u{1b}[3G  \u{1b}[3Gho");
    // Too few lines to trim.
    let r2 = compose_header("one\n", "h", false, 0, 0, 5);
    assert_eq!(
        r2,
        "not enough lines of header_cmd output to be trimmed\u{1b}[1G\u{1b}[1Gh"
    );
}

#[test]
fn wider_whitespace_is_trimmed_and_tokenized() {
    let mods = vec![module("g", "grep", "echo g", None)];
    let hints = map_hints(&mods, "", "");
    // A no-break space at the end of the line is trimmed before matching.
    let filtered = filter_labels(&hints, "g\u{a0}", false);
    assert_eq!(filtered.len(), 1);
}
