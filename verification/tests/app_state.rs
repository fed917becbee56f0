use ultralog::app::{
    file_index_after_removal, ActivePanel, ActiveTool, Limits, LoadResult, LoadedFile, PlotArea,
    SelectedChannel, Tab, ToastTexts, ToastType, UltraLogApp,
};
use ultralog::shortcuts::{Key, Shortcut, ShortcutAction, ShortcutInput};

fn limits() -> Limits {
    Limits {
        max_channels: 3,
        max_total_channels: 4,
        max_channels_per_plot: 2,
    }
}

fn texts() -> ToastTexts {
    ToastTexts {
        file_already_loaded: "File already loaded".to_string(),
        file_loaded: "File loaded".to_string(),
        no_active_tab: "No tab is open".to_string(),
        channel_from_active_tab: "Channel is not from the open tab".to_string(),
        max_channels: "Too many channels".to_string(),
        channel_already_selected: "Channel already selected".to_string(),
    }
}

fn new_app() -> UltraLogApp {
    UltraLogApp::with_palettes(
        vec![[1, 1, 1], [2, 2, 2], [3, 3, 3]],
        vec![[9, 9, 9], [8, 8, 8]],
        limits(),
        texts(),
    )
}

fn file(name: &str, channels: &[&str], records: usize) -> LoadedFile {
    LoadedFile {
        path: vec!["logs".to_string(), name.to_string()],
        name: name.to_string(),
        channel_names: channels.iter().map(|c| c.to_string()).collect(),
        record_count: records,
        computed_channel_names: Vec::new(),
    }
}

/// Two files loaded, the first one's tab active.
fn two_files() -> UltraLogApp {
    let mut app = new_app();
    app.add_loaded_file(file("a.csv", &["RPM", "TPS", "MAP", "IAT"], 100));
    app.add_loaded_file(file("b.mlg", &["AFR"], 0));
    app.switch_to_file_tab(0);
    app
}

fn toast(app: &UltraLogApp) -> Option<(String, ToastType)> {
    app.toast_message.clone()
}

fn sel(file_index: usize, channel_index: usize, color_index: usize) -> SelectedChannel {
    SelectedChannel {
        file_index,
        channel_index,
        color_index,
    }
}

fn plot_indices(app: &UltraLogApp) -> Vec<Vec<usize>> {
    let t = app.active_tab.unwrap();
    app.tabs[t]
        .plot_areas
        .iter()
        .map(|p| p.channel_indices.clone())
        .collect()
}

// ============================================
// Construction and files
// ============================================

#[test]
fn initial_state_is_empty() {
    let app = new_app();
    assert!(app.files.is_empty());
    assert!(app.tabs.is_empty());
    assert_eq!(app.active_tab, None);
    assert_eq!(app.selected_file, None);
    assert_eq!(app.active_tool, ActiveTool::LogViewer);
    assert_eq!(app.active_panel, ActivePanel::Files);
    assert!(!app.is_playing);
    assert!(app.get_selected_channels().is_empty());
}

#[test]
fn loading_a_file_opens_its_tab() {
    let mut app = new_app();
    app.add_loaded_file(file("a.csv", &["RPM"], 5));
    assert_eq!(app.files.len(), 1);
    assert_eq!(app.tabs.len(), 1);
    assert_eq!(app.active_tab, Some(0));
    assert_eq!(app.selected_file, Some(0));
    assert_eq!(app.tabs[0].name, "a.csv");
    assert_eq!(app.tabs[0].file_index, 0);
    assert_eq!(app.get_cursor_record(), Some(0));
    assert_eq!(app.active_panel, ActivePanel::ToolProperties);
    assert_eq!(
        toast(&app),
        Some(("File loaded".to_string(), ToastType::Success))
    );
    // a file without records gets no cursor
    app.add_loaded_file(file("b.csv", &["X"], 0));
    assert_eq!(app.active_tab, Some(1));
    assert_eq!(app.get_cursor_record(), None);
}

#[test]
fn loading_a_file_twice_is_refused() {
    let mut app = two_files();
    let path = vec!["logs".to_string(), "a.csv".to_string()];
    assert!(!app.start_loading_file(&path));
    assert_eq!(
        toast(&app),
        Some(("File already loaded".to_string(), ToastType::Warning))
    );
    let other = vec!["other".to_string(), "a.csv".to_string()];
    app.show_toast("x");
    assert!(app.start_loading_file(&other));
    assert_eq!(toast(&app), Some(("x".to_string(), ToastType::Info)));
    assert!(app.start_loading_file(&vec!["logs".to_string()]));
}

#[test]
fn completed_loads_are_taken_in() {
    let mut app = new_app();
    app.check_loading_complete(LoadResult::Success(file("a.csv", &["RPM"], 3)));
    assert_eq!(app.files.len(), 1);
    assert_eq!(app.active_tab, Some(0));
    assert_eq!(app.get_cursor_record(), Some(0));
    app.check_loading_complete(LoadResult::Error("Failed to read file".to_string()));
    assert_eq!(app.files.len(), 1);
    assert_eq!(
        toast(&app),
        Some(("Error: Failed to read file".to_string(), ToastType::Error))
    );
}

#[test]
fn switching_to_a_file_reuses_its_tab() {
    let mut app = two_files();
    assert_eq!(app.tabs.len(), 2);
    assert_eq!(app.active_tab, Some(0));
    assert_eq!(app.selected_file, Some(0));
    app.switch_to_file_tab(1);
    assert_eq!(app.tabs.len(), 2);
    assert_eq!(app.active_tab, Some(1));
    assert_eq!(app.selected_file, Some(1));
}

#[test]
fn switching_to_a_file_without_tab_opens_one() {
    let mut app = two_files();
    app.close_tab(1);
    assert_eq!(app.tabs.len(), 1);
    app.switch_to_file_tab(1);
    assert_eq!(app.tabs.len(), 2);
    assert_eq!(app.active_tab, Some(1));
    assert_eq!(app.tabs[1].file_index, 1);
    assert_eq!(app.tabs[1].name, "b.mlg");
    assert!(app.tabs[1].plot_areas.is_empty());
}

#[test]
fn channel_names() {
    let app = two_files();
    assert_eq!(app.get_channel_name(0, 1), "TPS");
    assert_eq!(app.get_channel_name(1, 0), "AFR");
    assert_eq!(app.get_channel_name(1, 1), "Unknown");
    assert_eq!(app.get_channel_name(7, 0), "Unknown");
    assert_eq!(
        app.get_available_channel_names(),
        vec!["RPM", "TPS", "MAP", "IAT"]
    );
}

// ============================================
// Tabs
// ============================================

#[test]
fn closing_an_earlier_tab_keeps_the_active_one() {
    let mut app = new_app();
    for name in ["a", "b", "c"] {
        app.add_loaded_file(file(name, &["x"], 1));
    }
    assert_eq!(app.active_tab, Some(2));
    app.close_tab(0);
    assert_eq!(app.tabs.len(), 2);
    assert_eq!(app.active_tab, Some(1));
    assert_eq!(app.selected_file, Some(2));
    assert_eq!(app.tabs[app.active_tab.unwrap()].file_index, 2);
}

#[test]
fn closing_the_last_active_tab_moves_to_the_new_last() {
    let mut app = new_app();
    for name in ["a", "b", "c"] {
        app.add_loaded_file(file(name, &["x"], 1));
    }
    app.close_tab(2);
    assert_eq!(app.active_tab, Some(1));
    assert_eq!(app.selected_file, Some(1));
}

#[test]
fn closing_every_tab_clears_the_selection() {
    let mut app = two_files();
    app.close_tab(0);
    app.close_tab(0);
    assert!(app.tabs.is_empty());
    assert_eq!(app.active_tab, None);
    assert_eq!(app.selected_file, None);
    // out of range: nothing happens
    app.close_tab(3);
    assert!(app.tabs.is_empty());
}

#[test]
fn tab_state_accessors() {
    let mut app = two_files();
    app.set_cursor_record(Some(42));
    assert_eq!(app.get_cursor_record(), Some(42));
    app.set_chart_interacted(true);
    assert!(app.get_chart_interacted());
    app.set_channel_search("rp".to_string());
    assert_eq!(app.get_channel_search(), "rp");
    app.switch_to_file_tab(1);
    assert_eq!(app.get_cursor_record(), None);
    assert!(!app.get_chart_interacted());
    assert_eq!(app.get_channel_search(), "");
}

#[test]
fn new_tab_and_plot_area() {
    let tab = Tab::new(3, "log".to_string());
    assert_eq!(tab.file_index, 3);
    assert!(tab.selected_channels.is_empty());
    assert!(tab.plot_areas.is_empty());
    assert_eq!(tab.next_plot_area_id, 0);
    assert!(!tab.stacked_mode);
    let mut plot = PlotArea::new(4, "P".to_string());
    assert_eq!(plot.id, 4);
    assert!(plot.channel_indices.is_empty());
    assert!(plot.has_capacity(&limits()));
    plot.channel_indices = vec![0, 1];
    assert!(!plot.has_capacity(&limits()));
}

// ============================================
// Channels
// ============================================

#[test]
fn adding_channels_picks_free_colors() {
    let mut app = two_files();
    app.add_channel(0, 0);
    app.add_channel(0, 2);
    assert_eq!(app.get_selected_channels(), &[sel(0, 0, 0), sel(0, 2, 1)]);
    app.remove_channel(0);
    assert_eq!(app.get_selected_channels(), &[sel(0, 2, 1)]);
    // color 0 is free again
    app.add_channel(0, 1);
    assert_eq!(app.get_selected_channels(), &[sel(0, 2, 1), sel(0, 1, 0)]);
}

#[test]
fn clicking_a_channel_toggles_it() {
    let mut app = two_files();
    app.toggle_channel(0, 2);
    assert_eq!(app.get_selected_channels(), &[sel(0, 2, 0)]);
    app.toggle_channel(0, 1);
    assert_eq!(app.get_selected_channels(), &[sel(0, 2, 0), sel(0, 1, 1)]);
    app.toggle_channel(0, 2);
    assert_eq!(app.get_selected_channels(), &[sel(0, 1, 1)]);
    app.toggle_channel(0, 1);
    assert!(app.get_selected_channels().is_empty());
}

#[test]
fn computed_channels_are_named_after_the_file_channels() {
    let mut app = two_files();
    app.add_computed_channel("Boost".to_string());
    app.add_computed_channel("Lambda".to_string());
    assert_eq!(app.get_file_computed_channels(), &["Boost".to_string(), "Lambda".to_string()]);
    assert_eq!(app.get_channel_name(0, 3), "IAT");
    assert_eq!(app.get_channel_name(0, 4), "Boost");
    assert_eq!(app.get_channel_name(0, 5), "Lambda");
    assert_eq!(app.get_channel_name(0, 6), "Unknown");
    assert_eq!(app.get_channel_name(1, 1), "Unknown");
    app.remove_computed_channel(0);
    assert_eq!(app.get_channel_name(0, 4), "Lambda");
    app.remove_computed_channel(5);
    assert_eq!(app.get_file_computed_channels(), &["Lambda".to_string()]);
    app.switch_to_file_tab(1);
    assert!(app.get_file_computed_channels().is_empty());
}

#[test]
fn computed_channels_need_an_active_tab() {
    let mut app = new_app();
    app.add_computed_channel("Boost".to_string());
    assert_eq!(
        toast(&app),
        Some(("No tab is open".to_string(), ToastType::Warning))
    );
    assert!(app.get_file_computed_channels().is_empty());
}

#[test]
fn computed_channels_follow_their_file_on_removal() {
    let mut app = two_files();
    app.switch_to_file_tab(1);
    app.add_computed_channel("Boost".to_string());
    app.remove_file(0);
    assert_eq!(app.get_channel_name(0, 1), "Boost");
}

#[test]
fn adding_a_selected_channel_is_refused() {
    let mut app = two_files();
    app.add_channel(0, 0);
    app.add_channel(0, 0);
    assert_eq!(app.get_selected_channels().len(), 1);
    assert_eq!(
        toast(&app),
        Some((
            "Channel already selected".to_string(),
            ToastType::Warning
        ))
    );
}

#[test]
fn adding_a_channel_of_another_file_is_refused() {
    let mut app = two_files();
    app.add_channel(1, 0);
    assert!(app.get_selected_channels().is_empty());
    assert_eq!(
        toast(&app),
        Some((
            "Channel is not from the open tab".to_string(),
            ToastType::Warning
        ))
    );
}

#[test]
fn adding_without_a_tab_is_refused() {
    let mut app = new_app();
    app.add_channel(0, 0);
    assert_eq!(
        toast(&app),
        Some(("No tab is open".to_string(), ToastType::Warning))
    );
}

#[test]
fn channel_limit_in_single_plot_mode() {
    let mut app = two_files();
    app.add_channel(0, 0);
    app.add_channel(0, 1);
    app.add_channel(0, 2);
    app.add_channel(0, 3);
    assert_eq!(app.get_selected_channels().len(), 3);
    assert_eq!(
        toast(&app),
        Some(("Too many channels".to_string(), ToastType::Warning))
    );
}

#[test]
fn channel_colors_follow_the_palette() {
    let mut app = two_files();
    assert_eq!(app.get_channel_color(1), [2, 2, 2]);
    assert_eq!(app.get_channel_color(4), [2, 2, 2]);
    app.color_blind_mode = true;
    assert_eq!(app.get_channel_color(1), [8, 8, 8]);
    assert_eq!(app.get_channel_color(2), [9, 9, 9]);
}

#[test]
fn toasts_carry_their_type() {
    let mut app = new_app();
    app.show_toast("hello");
    assert_eq!(toast(&app), Some(("hello".to_string(), ToastType::Info)));
    app.show_toast_success("ok");
    assert_eq!(toast(&app), Some(("ok".to_string(), ToastType::Success)));
    app.show_toast_warning("careful");
    assert_eq!(
        toast(&app),
        Some(("careful".to_string(), ToastType::Warning))
    );
    app.show_toast_error("bad");
    assert_eq!(toast(&app), Some(("bad".to_string(), ToastType::Error)));
    app.show_toast_with_type("x", ToastType::Info);
    assert_eq!(toast(&app), Some(("x".to_string(), ToastType::Info)));
}

// ============================================
// Stacked plot areas
// ============================================

/// The first file's tab in stacked mode with channels 0 and 1 in "Plot 1".
fn stacked() -> UltraLogApp {
    let mut app = two_files();
    app.add_channel(0, 0);
    app.add_channel(0, 1);
    app.toggle_stacked_mode();
    app
}

#[test]
fn entering_stacked_mode_puts_channels_in_the_first_plot() {
    let app = stacked();
    let t = app.active_tab.unwrap();
    assert!(app.tabs[t].stacked_mode);
    assert_eq!(app.tabs[t].plot_areas.len(), 1);
    assert_eq!(app.tabs[t].plot_areas[0].name, "Plot 1");
    assert_eq!(app.tabs[t].plot_areas[0].id, 0);
    assert_eq!(plot_indices(&app), vec![vec![0, 1]]);
    assert_eq!(app.tabs[t].next_plot_area_id, 1);
    assert_eq!(
        toast(&app),
        Some(("Stacked plot mode enabled".to_string(), ToastType::Success))
    );
}

#[test]
fn creating_plot_areas() {
    let mut app = stacked();
    app.create_plot_area("Second".to_string());
    let t = app.active_tab.unwrap();
    assert_eq!(app.tabs[t].plot_areas.len(), 2);
    assert_eq!(app.tabs[t].plot_areas[1].id, 1);
    assert_eq!(app.tabs[t].plot_areas[1].name, "Second");
    assert_eq!(app.tabs[t].next_plot_area_id, 2);
    assert_eq!(
        toast(&app),
        Some(("Plot area created".to_string(), ToastType::Success))
    );
    for _ in 0..8 {
        app.create_plot_area("more".to_string());
    }
    assert_eq!(app.tabs[t].plot_areas.len(), 10);
    app.create_plot_area("too many".to_string());
    assert_eq!(app.tabs[t].plot_areas.len(), 10);
    assert_eq!(
        toast(&app),
        Some((
            "Maximum 10 plot areas allowed".to_string(),
            ToastType::Warning
        ))
    );
}

#[test]
fn creating_a_plot_area_without_a_tab() {
    let mut app = new_app();
    app.create_plot_area("x".to_string());
    assert_eq!(
        toast(&app),
        Some(("No active tab".to_string(), ToastType::Warning))
    );
}

#[test]
fn stacked_add_goes_to_the_first_plot_with_room() {
    let mut app = stacked();
    app.create_plot_area("Second".to_string());
    app.add_channel(0, 3);
    assert_eq!(plot_indices(&app), vec![vec![0, 1], vec![2]]);
    assert_eq!(app.get_selected_channels()[2], sel(0, 3, 2));
}

#[test]
fn stacked_add_with_all_plots_full() {
    let mut app = stacked();
    app.add_channel(0, 3);
    assert_eq!(app.get_selected_channels().len(), 2);
    assert_eq!(
        toast(&app),
        Some((
            "All plots are full. Create a new plot area.".to_string(),
            ToastType::Warning
        ))
    );
}

#[test]
fn add_channel_to_plot_refusals() {
    let mut app = stacked();
    app.add_channel_to_plot(0, 2, 99);
    assert_eq!(
        toast(&app),
        Some(("Plot area not found".to_string(), ToastType::Error))
    );
    app.add_channel_to_plot(0, 2, 0);
    assert_eq!(
        toast(&app),
        Some((
            "Plot 'Plot 1' is full (max 2 channels)".to_string(),
            ToastType::Warning
        ))
    );
    app.create_plot_area("Second".to_string());
    app.add_channel_to_plot(0, 0, 1);
    assert_eq!(
        toast(&app),
        Some((
            "Channel already selected".to_string(),
            ToastType::Warning
        ))
    );
    app.add_channel_to_plot(0, 2, 1);
    app.add_channel_to_plot(0, 3, 1);
    assert_eq!(app.get_selected_channels().len(), 4);
    assert_eq!(plot_indices(&app), vec![vec![0, 1], vec![2, 3]]);
    app.create_plot_area("Third".to_string());
    app.add_channel_to_plot(0, 3, 2);
    assert_eq!(
        toast(&app),
        Some((
            "Maximum 4 total channels reached".to_string(),
            ToastType::Warning
        ))
    );
}

#[test]
fn moving_a_channel_between_plots() {
    let mut app = stacked();
    app.create_plot_area("Second".to_string());
    app.move_channel_to_plot(0, 1);
    assert_eq!(plot_indices(&app), vec![vec![1], vec![0]]);
    // moving into its own plot changes nothing
    app.move_channel_to_plot(0, 1);
    assert_eq!(plot_indices(&app), vec![vec![1], vec![0]]);
    app.add_channel(0, 2);
    assert_eq!(plot_indices(&app), vec![vec![1, 2], vec![0]]);
    app.move_channel_to_plot(0, 0);
    assert_eq!(plot_indices(&app), vec![vec![1, 2], vec![0]]);
    assert_eq!(
        toast(&app),
        Some(("Target plot is full".to_string(), ToastType::Warning))
    );
}

#[test]
fn removing_a_channel_renumbers_plot_entries() {
    let mut app = stacked();
    app.create_plot_area("Second".to_string());
    app.add_channel(0, 2);
    assert_eq!(plot_indices(&app), vec![vec![0, 1], vec![2]]);
    app.remove_channel_from_plot(0);
    assert_eq!(app.get_selected_channels(), &[sel(0, 1, 1), sel(0, 2, 2)]);
    assert_eq!(plot_indices(&app), vec![vec![0], vec![1]]);
}

#[test]
fn deleting_a_plot_area_removes_its_channels() {
    let mut app = stacked();
    app.create_plot_area("Second".to_string());
    app.add_channel(0, 2);
    app.add_channel(0, 3);
    assert_eq!(plot_indices(&app), vec![vec![0, 1], vec![2, 3]]);
    app.delete_plot_area(0);
    assert_eq!(app.get_selected_channels(), &[sel(0, 2, 2), sel(0, 3, 0)]);
    assert_eq!(plot_indices(&app), vec![vec![0, 1]]);
    assert_eq!(
        toast(&app),
        Some(("Plot area deleted".to_string(), ToastType::Success))
    );
    app.delete_plot_area(1);
    assert_eq!(
        toast(&app),
        Some((
            "Cannot delete the last plot area".to_string(),
            ToastType::Warning
        ))
    );
}

#[test]
fn leaving_stacked_mode_keeps_the_first_plot_with_all_channels() {
    let mut app = stacked();
    app.create_plot_area("Second".to_string());
    app.add_channel(0, 2);
    app.toggle_stacked_mode();
    let t = app.active_tab.unwrap();
    assert!(!app.tabs[t].stacked_mode);
    assert_eq!(plot_indices(&app), vec![vec![0, 1, 2]]);
    assert_eq!(
        toast(&app),
        Some(("Stacked plot mode disabled".to_string(), ToastType::Success))
    );
}

#[test]
fn add_then_remove_channel_restores_the_selection() {
    let mut app = stacked();
    app.create_plot_area("Second".to_string());
    let before_sel = app.get_selected_channels().to_vec();
    let before_plots = plot_indices(&app);
    app.add_channel(0, 3);
    assert_eq!(app.get_selected_channels().len(), 3);
    app.remove_channel(2);
    assert_eq!(app.get_selected_channels(), before_sel.as_slice());
    assert_eq!(plot_indices(&app), before_plots);
}

// ============================================
// Removing files
// ============================================

#[test]
fn removing_a_file_renumbers_later_tabs() {
    let mut app = two_files();
    app.switch_to_file_tab(1);
    app.add_channel(1, 0);
    app.remove_file(0);
    assert_eq!(app.files.len(), 1);
    assert_eq!(app.files[0].name, "b.mlg");
    assert_eq!(app.tabs.len(), 1);
    assert_eq!(app.tabs[0].file_index, 0);
    assert_eq!(app.tabs[0].selected_channels, vec![sel(0, 0, 0)]);
    assert_eq!(app.active_tab, Some(0));
    assert_eq!(app.selected_file, Some(0));
}

#[test]
fn removing_a_middle_file_keeps_tab_order() {
    let mut app = new_app();
    for name in ["a", "b", "c"] {
        app.add_loaded_file(file(name, &["x"], 1));
    }
    app.add_channel(2, 0);
    app.remove_file(1);
    assert_eq!(app.files.len(), 2);
    assert_eq!(app.files[1].name, "c");
    let files: Vec<usize> = app.tabs.iter().map(|t| t.file_index).collect();
    assert_eq!(files, vec![0, 1]);
    assert_eq!(app.tabs[1].name, "c");
    assert_eq!(app.tabs[1].selected_channels, vec![sel(1, 0, 0)]);
    assert_eq!(app.active_tab, Some(1));
    assert_eq!(app.selected_file, Some(1));
}

#[test]
fn file_references_after_a_removal() {
    assert_eq!(file_index_after_removal(2, 2), None);
    assert_eq!(file_index_after_removal(5, 2), Some(4));
    assert_eq!(file_index_after_removal(1, 2), Some(1));
}

#[test]
fn removing_the_only_file() {
    let mut app = new_app();
    app.add_loaded_file(file("a", &["x"], 1));
    app.remove_file(0);
    assert!(app.files.is_empty());
    assert!(app.tabs.is_empty());
    assert_eq!(app.active_tab, None);
    assert_eq!(app.selected_file, None);
    // out of range: nothing happens
    app.remove_file(0);
    assert!(app.files.is_empty());
}

// ============================================
// Keyboard shortcuts
// ============================================

fn keys(focused: bool, command: bool, shift: bool, pressed: &[Key]) -> ShortcutInput {
    ShortcutInput {
        focused,
        command,
        shift,
        pressed: pressed.to_vec(),
    }
}

#[test]
fn shortcuts_are_off_while_a_widget_has_focus() {
    let mut app = two_files();
    let action = app.handle_keyboard_shortcuts(&keys(true, true, false, &[Key::W]));
    assert_eq!(action, ShortcutAction::Nothing);
    assert_eq!(app.tabs.len(), 2);
}

#[test]
fn command_shortcuts() {
    let mut app = two_files();
    assert_eq!(
        app.handle_keyboard_shortcuts(&keys(false, true, false, &[Key::O])),
        ShortcutAction::OpenFile
    );
    app.handle_keyboard_shortcuts(&keys(false, true, false, &[Key::Comma]));
    assert_eq!(app.active_panel, ActivePanel::Settings);
    app.handle_keyboard_shortcuts(&keys(false, true, false, &[Key::Num2]));
    assert_eq!(app.active_tool, ActiveTool::ScatterPlot);
    app.handle_keyboard_shortcuts(&keys(false, true, false, &[Key::Num3]));
    assert_eq!(app.active_tool, ActiveTool::Histogram);
    // with shift, the digits do nothing
    app.handle_keyboard_shortcuts(&keys(false, true, true, &[Key::Num1]));
    assert_eq!(app.active_tool, ActiveTool::Histogram);
    app.handle_keyboard_shortcuts(&keys(false, true, true, &[Key::T]));
    assert_eq!(app.active_panel, ActivePanel::Tools);
    app.handle_keyboard_shortcuts(&keys(false, true, true, &[Key::C]));
    assert_eq!(app.active_panel, ActivePanel::ToolProperties);
    app.handle_keyboard_shortcuts(&keys(false, true, true, &[Key::F]));
    assert_eq!(app.active_panel, ActivePanel::Files);
    app.handle_keyboard_shortcuts(&keys(false, true, false, &[Key::W]));
    assert_eq!(app.tabs.len(), 1);
}

#[test]
fn selected_shortcut_follows_precedence() {
    let mut app = two_files();
    app.add_channel(0, 0);
    assert_eq!(
        app.selected_shortcut(&keys(false, true, false, &[Key::W, Key::O])),
        Shortcut::OpenFile
    );
    assert_eq!(
        app.selected_shortcut(&keys(false, false, false, &[Key::ArrowRight, Key::ArrowLeft])),
        Shortcut::StepBack
    );
    assert_eq!(
        app.selected_shortcut(&keys(false, false, true, &[Key::ArrowRight])),
        Shortcut::StepForward
    );
    assert_eq!(
        app.selected_shortcut(&keys(true, false, false, &[Key::Space])),
        Shortcut::Nothing
    );
}

#[test]
fn playback_shortcuts_need_selected_channels() {
    let mut app = two_files();
    let action = app.handle_keyboard_shortcuts(&keys(false, false, false, &[Key::Space]));
    assert_eq!(action, ShortcutAction::Nothing);
    assert!(!app.is_playing);
}

#[test]
fn stepping_through_records() {
    let mut app = two_files();
    app.add_channel(0, 0);
    app.is_playing = true;
    let action = app.handle_keyboard_shortcuts(&keys(false, false, false, &[Key::ArrowRight]));
    assert_eq!(action, ShortcutAction::StepRecord(1));
    assert!(!app.is_playing);
    assert_eq!(app.get_cursor_record(), Some(1));
    let action = app.handle_keyboard_shortcuts(&keys(false, false, true, &[Key::ArrowRight]));
    assert_eq!(action, ShortcutAction::StepRecord(11));
    app.set_cursor_record(Some(95));
    let action = app.handle_keyboard_shortcuts(&keys(false, false, true, &[Key::ArrowRight]));
    assert_eq!(action, ShortcutAction::StepRecord(99));
    let action = app.handle_keyboard_shortcuts(&keys(false, false, true, &[Key::ArrowLeft]));
    assert_eq!(action, ShortcutAction::StepRecord(89));
    app.set_cursor_record(Some(3));
    let action = app.handle_keyboard_shortcuts(&keys(false, false, true, &[Key::ArrowLeft]));
    assert_eq!(action, ShortcutAction::StepRecord(0));
    assert_eq!(app.get_cursor_record(), Some(0));
}

#[test]
fn home_end_and_play() {
    let mut app = two_files();
    app.add_channel(0, 0);
    app.is_playing = true;
    assert_eq!(
        app.handle_keyboard_shortcuts(&keys(false, false, false, &[Key::Home])),
        ShortcutAction::JumpToStart
    );
    assert!(!app.is_playing);
    assert_eq!(
        app.handle_keyboard_shortcuts(&keys(false, false, false, &[Key::End])),
        ShortcutAction::JumpToEnd
    );
    assert_eq!(
        app.handle_keyboard_shortcuts(&keys(false, false, false, &[Key::Space])),
        ShortcutAction::PlaybackToggled
    );
    assert!(app.is_playing);
    app.handle_keyboard_shortcuts(&keys(false, false, false, &[Key::Space]));
    assert!(!app.is_playing);
}

#[test]
fn stepping_in_a_file_without_records_only_stops() {
    let mut app = two_files();
    app.switch_to_file_tab(1);
    app.add_channel(1, 0);
    app.is_playing = true;
    let action = app.handle_keyboard_shortcuts(&keys(false, false, false, &[Key::ArrowLeft]));
    assert_eq!(action, ShortcutAction::StopPlayback);
    assert!(!app.is_playing);
    assert_eq!(app.get_cursor_record(), None);
}
