//! Application state of the log viewer: loaded files, tabs, selected
//! channels, stacked plot areas and toast notifications.

use vstd::prelude::*;

use crate::indices::{
    descending, drop_ref, drop_ref_exec, drop_refs, drop_refs_exec, sort_descending, without,
    without_exec,
};

verus! {

/// Kind of a toast notification.
#[derive(Clone, Copy, Debug, PartialEq, Eq)]
pub enum ToastType {
    Info,
    Success,
    Warning,
    Error,
}

/// The main view.
#[derive(Clone, Copy, Debug, PartialEq, Eq)]
pub enum ActiveTool {
    LogViewer,
    ScatterPlot,
    Histogram,
}

/// The side panel.
#[derive(Clone, Copy, Debug, PartialEq, Eq)]
pub enum ActivePanel {
    Files,
    ToolProperties,
    Tools,
    Settings,
}

/// A channel selected for display in a tab.
#[derive(Clone, Copy, Debug, PartialEq, Eq)]
pub struct SelectedChannel {
    pub file_index: usize,
    pub channel_index: usize,
    pub color_index: usize,
}

/// A plot area of a tab, showing the selected channels whose indices it
/// lists.
#[derive(Clone, Debug)]
pub struct PlotArea {
    pub id: usize,
    pub name: String,
    pub channel_indices: Vec<usize>,
}

/// Abstract view of a plot area.
pub struct PlotAreaView {
    pub id: usize,
    pub name: Seq<char>,
    pub channel_indices: Seq<usize>,
}

impl View for PlotArea {
    type V = PlotAreaView;

    open spec fn view(&self) -> PlotAreaView {
        PlotAreaView { id: self.id, name: self.name@, channel_indices: self.channel_indices@ }
    }
}

/// A tab: the view of one loaded file.
#[derive(Clone, Debug)]
pub struct Tab {
    pub file_index: usize,
    pub name: String,
    pub selected_channels: Vec<SelectedChannel>,
    pub plot_areas: Vec<PlotArea>,
    pub next_plot_area_id: usize,
    pub stacked_mode: bool,
    pub channel_search: String,
    pub cursor_record: Option<usize>,
    pub chart_interacted: bool,
}

/// Abstract view of a tab.
pub struct TabView {
    pub file_index: usize,
    pub name: Seq<char>,
    pub selected_channels: Seq<SelectedChannel>,
    pub plot_areas: Seq<PlotAreaView>,
    pub next_plot_area_id: usize,
    pub stacked_mode: bool,
    pub channel_search: Seq<char>,
    pub cursor_record: Option<usize>,
    pub chart_interacted: bool,
}

impl View for Tab {
    type V = TabView;

    open spec fn view(&self) -> TabView {
        TabView {
            file_index: self.file_index,
            name: self.name@,
            selected_channels: self.selected_channels@,
            plot_areas: self.plot_areas@.map_values(|p: PlotArea| p@),
            next_plot_area_id: self.next_plot_area_id,
            stacked_mode: self.stacked_mode,
            channel_search: self.channel_search@,
            cursor_record: self.cursor_record,
            chart_interacted: self.chart_interacted,
        }
    }
}

impl Tab {
    /// A new tab for a file, with no channels selected and no plot areas.
    pub fn new(file_index: usize, name: String) -> (tab: Tab)
        ensures
            tab@ == new_tab_view(file_index, name@),
    {
        let tab = Tab {
            file_index,
            name,
            selected_channels: Vec::new(),
            plot_areas: Vec::new(),
            next_plot_area_id: 0,
            stacked_mode: false,
            channel_search: String::new(),
            cursor_record: None,
            chart_interacted: false,
        };
        assert(tab.plot_areas@.map_values(|p: PlotArea| p@) =~= Seq::empty());
        tab
    }
}

/// The view of a new tab for a file.
pub open spec fn new_tab_view(file_index: usize, name: Seq<char>) -> TabView {
    TabView {
        file_index,
        name,
        selected_channels: Seq::empty(),
        plot_areas: Seq::empty(),
        next_plot_area_id: 0,
        stacked_mode: false,
        channel_search: Seq::empty(),
        cursor_record: None,
        chart_interacted: false,
    }
}

/// A loaded log file, as far as the tab and channel logic sees it.
#[derive(Clone, Debug)]
pub struct LoadedFile {
    /// The file's path, as its components.
    pub path: Vec<String>,
    pub name: String,
    pub channel_names: Vec<String>,
    /// Number of data records (timestamps) in the file.
    pub record_count: usize,
    /// Names of the computed channels added to the file, in order; they
    /// are numbered after the file's own channels.
    pub computed_channel_names: Vec<String>,
}

/// Abstract view of a loaded file.
pub struct LoadedFileView {
    pub path: Seq<Seq<char>>,
    pub name: Seq<char>,
    pub channel_names: Seq<Seq<char>>,
    pub record_count: usize,
    pub computed_channel_names: Seq<Seq<char>>,
}

impl View for LoadedFile {
    type V = LoadedFileView;

    open spec fn view(&self) -> LoadedFileView {
        LoadedFileView {
            path: self.path@.map_values(|s: String| s@),
            name: self.name@,
            channel_names: self.channel_names@.map_values(|s: String| s@),
            record_count: self.record_count,
            computed_channel_names: self.computed_channel_names@.map_values(|s: String| s@),
        }
    }
}

/// The outcome of loading a file.
#[derive(Debug)]
pub enum LoadResult {
    Success(LoadedFile),
    Error(String),
}

/// Limits on channel selection.
#[derive(Clone, Copy, Debug, PartialEq, Eq)]
pub struct Limits {
    /// Channels per tab in single-plot mode.
    pub max_channels: usize,
    /// Channels per tab in stacked mode.
    pub max_total_channels: usize,
    /// Channels per plot area.
    pub max_channels_per_plot: usize,
}

/// Most plot areas per tab.
pub const MAX_PLOT_AREAS: usize = 10;

impl PlotArea {
    /// A new, empty plot area.
    pub fn new(id: usize, name: String) -> (p: PlotArea)
        ensures
            p@ == (PlotAreaView { id, name: name@, channel_indices: Seq::empty() }),
    {
        PlotArea { id, name, channel_indices: Vec::new() }
    }

    /// Whether another channel fits in this plot area.
    pub fn has_capacity(&self, limits: &Limits) -> (b: bool)
        ensures
            b == (self.channel_indices.len() < limits.max_channels_per_plot),
    {
        self.channel_indices.len() < limits.max_channels_per_plot
    }
}

/// The texts of the toasts that report refused actions and loaded files,
/// in the user's language.
#[derive(Clone, Debug)]
pub struct ToastTexts {
    /// A file with the same path is already loaded.
    pub file_already_loaded: String,
    /// A file has been loaded.
    pub file_loaded: String,
    /// There is no active tab.
    pub no_active_tab: String,
    /// A channel of a file other than the active tab's was chosen.
    pub channel_from_active_tab: String,
    /// The tab holds as many channels as it may.
    pub max_channels: String,
    /// The channel is already selected.
    pub channel_already_selected: String,
}

/// Abstract view of the toast texts.
pub struct ToastTextsView {
    pub file_already_loaded: Seq<char>,
    pub file_loaded: Seq<char>,
    pub no_active_tab: Seq<char>,
    pub channel_from_active_tab: Seq<char>,
    pub max_channels: Seq<char>,
    pub channel_already_selected: Seq<char>,
}

impl View for ToastTexts {
    type V = ToastTextsView;

    open spec fn view(&self) -> ToastTextsView {
        ToastTextsView {
            file_already_loaded: self.file_already_loaded@,
            file_loaded: self.file_loaded@,
            no_active_tab: self.no_active_tab@,
            channel_from_active_tab: self.channel_from_active_tab@,
            max_channels: self.max_channels@,
            channel_already_selected: self.channel_already_selected@,
        }
    }
}

/// Application state of the log viewer.
pub struct UltraLogApp {
    /// Loaded log files.
    pub files: Vec<LoadedFile>,
    /// Selected file (the active tab's file).
    pub selected_file: Option<usize>,
    /// Pending toast notification.
    pub toast_message: Option<(String, ToastType)>,
    /// Open tabs, one per file being viewed.
    pub tabs: Vec<Tab>,
    /// Index of the active tab.
    pub active_tab: Option<usize>,
    /// Whether the colorblind-friendly palette is used.
    pub color_blind_mode: bool,
    /// Chart colors.
    pub chart_colors: Vec<[u8; 3]>,
    /// Colorblind-friendly chart colors.
    pub colorblind_colors: Vec<[u8; 3]>,
    /// Channel selection limits.
    pub limits: Limits,
    /// Active tool (main view).
    pub active_tool: ActiveTool,
    /// Active side panel.
    pub active_panel: ActivePanel,
    /// Whether playback is running.
    pub is_playing: bool,
    /// Toast texts in the user's language.
    pub texts: ToastTexts,
}

/// Abstract view of the application state.
pub struct AppView {
    pub files: Seq<LoadedFileView>,
    pub selected_file: Option<usize>,
    pub toast: Option<(Seq<char>, ToastType)>,
    pub tabs: Seq<TabView>,
    pub active_tab: Option<usize>,
    pub color_blind_mode: bool,
    pub chart_colors: Seq<[u8; 3]>,
    pub colorblind_colors: Seq<[u8; 3]>,
    pub limits: Limits,
    pub active_tool: ActiveTool,
    pub active_panel: ActivePanel,
    pub is_playing: bool,
    pub texts: ToastTextsView,
}

impl View for UltraLogApp {
    type V = AppView;

    open spec fn view(&self) -> AppView {
        AppView {
            files: self.files@.map_values(|f: LoadedFile| f@),
            selected_file: self.selected_file,
            toast: match self.toast_message {
                Some((m, t)) => Some((m@, t)),
                None => None,
            },
            tabs: self.tabs@.map_values(|t: Tab| t@),
            active_tab: self.active_tab,
            color_blind_mode: self.color_blind_mode,
            chart_colors: self.chart_colors@,
            colorblind_colors: self.colorblind_colors@,
            limits: self.limits,
            active_tool: self.active_tool,
            active_panel: self.active_panel,
            is_playing: self.is_playing,
            texts: self.texts@,
        }
    }
}

impl AppView {
    /// Well-formedness: the active tab exists, every tab views an existing
    /// file and no two tabs view the same file, and both palettes have
    /// colors.
    pub open spec fn wf(self) -> bool {
        &&& self.active_tab matches Some(t) ==> t < self.tabs.len()
        &&& forall|i: int| 0 <= i < self.tabs.len() ==> #[trigger] self.tabs[i].file_index < self.files.len()
        &&& forall|i: int, j: int|
            0 <= i < self.tabs.len() && 0 <= j < self.tabs.len() && i != j ==> #[trigger] self.tabs[i].file_index
                != #[trigger] self.tabs[j].file_index
        &&& self.chart_colors.len() > 0
        &&& self.colorblind_colors.len() > 0
    }

    /// The state with a toast shown.
    pub open spec fn with_toast(self, message: Seq<char>, toast_type: ToastType) -> AppView {
        AppView { toast: Some((message, toast_type)), ..self }
    }

    /// The state after closing tab `tab_index`.
    pub open spec fn close_tab(self, tab_index: usize) -> AppView {
        if tab_index >= self.tabs.len() {
            self
        } else {
            let tabs = self.tabs.remove(tab_index as int);
            if tabs.len() == 0 {
                AppView { tabs, active_tab: None, selected_file: None, ..self }
            } else {
                match self.active_tab {
                    None => AppView { tabs, ..self },
                    Some(active) => {
                        let a = if active >= tabs.len() {
                            (tabs.len() - 1) as usize
                        } else if active > tab_index {
                            (active - 1) as usize
                        } else {
                            active
                        };
                        AppView {
                            tabs,
                            active_tab: Some(a),
                            selected_file: Some(tabs[a as int].file_index),
                            ..self
                        }
                    },
                }
            }
        }
    }
}

/// Index of the first tab that views file `file_index`.
pub open spec fn tab_position(tabs: Seq<TabView>, file_index: usize) -> Option<int>
    decreases tabs.len(),
{
    if tabs.len() == 0 {
        None
    } else {
        match tab_position(tabs.drop_last(), file_index) {
            Some(i) => Some(i),
            None => if tabs.last().file_index == file_index {
                Some(tabs.len() - 1)
            } else {
                None
            },
        }
    }
}

/// Index of the first plot area with id `id`.
pub open spec fn plot_position(plots: Seq<PlotAreaView>, id: usize) -> Option<int>
    decreases plots.len(),
{
    if plots.len() == 0 {
        None
    } else {
        match plot_position(plots.drop_last(), id) {
            Some(i) => Some(i),
            None => if plots.last().id == id {
                Some(plots.len() - 1)
            } else {
                None
            },
        }
    }
}

/// Index of the first plot area that lists channel `c`.
pub open spec fn plot_holding(plots: Seq<PlotAreaView>, c: usize) -> Option<int>
    decreases plots.len(),
{
    if plots.len() == 0 {
        None
    } else {
        match plot_holding(plots.drop_last(), c) {
            Some(i) => Some(i),
            None => if plots.last().channel_indices.contains(c) {
                Some(plots.len() - 1)
            } else {
                None
            },
        }
    }
}

/// Where `tab_position` points, a tab views the file; when it finds none,
/// no tab does.
pub proof fn lemma_tab_position(tabs: Seq<TabView>, file_index: usize)
    ensures
        tab_position(tabs, file_index) matches Some(i) ==> 0 <= i < tabs.len()
            && tabs[i].file_index == file_index,
        tab_position(tabs, file_index) is None ==> forall|i: int|
            0 <= i < tabs.len() ==> #[trigger] tabs[i].file_index != file_index,
    decreases tabs.len(),
{
    if tabs.len() > 0 {
        lemma_tab_position(tabs.drop_last(), file_index);
        if tab_position(tabs, file_index) is None {
            assert forall|i: int| 0 <= i < tabs.len() implies #[trigger] tabs[i].file_index
                != file_index by {
                if i < tabs.len() - 1 {
                    assert(tabs[i] == tabs.drop_last()[i]);
                }
            }
        }
    }
}

/// Where `plot_position` points, the plot area has the id.
pub proof fn lemma_plot_position(plots: Seq<PlotAreaView>, id: usize)
    ensures
        plot_position(plots, id) matches Some(i) ==> 0 <= i < plots.len() && plots[i].id == id,
    decreases plots.len(),
{
    if plots.len() > 0 {
        lemma_plot_position(plots.drop_last(), id);
    }
}

/// Where `plot_holding` points, the plot area lists the channel.
pub proof fn lemma_plot_holding(plots: Seq<PlotAreaView>, c: usize)
    ensures
        plot_holding(plots, c) matches Some(i) ==> 0 <= i < plots.len()
            && plots[i].channel_indices.contains(c),
    decreases plots.len(),
{
    if plots.len() > 0 {
        lemma_plot_holding(plots.drop_last(), c);
    }
}

impl AppView {
    /// The state with tab `t` replaced by `tab`.
    pub open spec fn with_tab(self, t: int, tab: TabView) -> AppView {
        AppView { tabs: self.tabs.update(t, tab), ..self }
    }

    /// The state after switching to the tab of file `file_index`, opening
    /// one when there is none.
    pub open spec fn switch_to_file_tab(self, file_index: usize) -> AppView {
        match tab_position(self.tabs, file_index) {
            Some(t) => AppView {
                active_tab: Some(t as usize),
                selected_file: Some(file_index),
                ..self
            },
            None => AppView {
                tabs: self.tabs.push(new_tab_view(file_index, self.files[file_index as int].name)),
                active_tab: Some(self.tabs.len() as usize),
                selected_file: Some(file_index),
                ..self
            },
        }
    }

    /// The selected channels of the active tab.
    pub open spec fn selected_channels(self) -> Seq<SelectedChannel> {
        match self.active_tab {
            Some(t) => self.tabs[t as int].selected_channels,
            None => Seq::empty(),
        }
    }

    /// The state after removing selected channel `c` of the active tab,
    /// from the selection and from every plot area.
    pub open spec fn remove_channel_from_plot(self, c: usize) -> AppView {
        match self.active_tab {
            None => self,
            Some(t) => {
                let tab = self.tabs[t as int];
                if c >= tab.selected_channels.len() {
                    self
                } else {
                    self.with_tab(
                        t as int,
                        TabView {
                            selected_channels: tab.selected_channels.remove(c as int),
                            plot_areas: tab.plot_areas.map_values(
                                |p: PlotAreaView|
                                    PlotAreaView {
                                        channel_indices: drop_ref(p.channel_indices, c),
                                        ..p
                                    },
                            ),
                            ..tab
                        },
                    )
                }
            },
        }
    }

    /// The state after moving selected channel `c` of the active tab from
    /// the first plot area that lists it to the plot area `target_id`.
    pub open spec fn move_channel_to_plot(self, c: usize, target_id: usize) -> AppView {
        match self.active_tab {
            None => self,
            Some(t) => {
                let tab = self.tabs[t as int];
                match (plot_holding(tab.plot_areas, c), plot_position(tab.plot_areas, target_id)) {
                    (Some(cur), Some(tgt)) => {
                        if cur == tgt {
                            self
                        } else if tab.plot_areas[tgt].channel_indices.len()
                            >= self.limits.max_channels_per_plot {
                            self.with_toast("Target plot is full"@, ToastType::Warning)
                        } else {
                            let from = tab.plot_areas[cur];
                            let to = tab.plot_areas[tgt];
                            let plots = tab.plot_areas.update(
                                cur,
                                PlotAreaView {
                                    channel_indices: without(from.channel_indices, c),
                                    ..from
                                },
                            ).update(
                                tgt,
                                PlotAreaView { channel_indices: to.channel_indices.push(c), ..to },
                            );
                            self.with_tab(t as int, TabView { plot_areas: plots, ..tab })
                        }
                    },
                    _ => self,
                }
            },
        }
    }
}

/// The indices `0..n`.
pub open spec fn index_range(n: nat) -> Seq<usize> {
    Seq::new(n, |i: int| i as usize)
}

/// Whether file `f`'s channel `c` is among the selected channels.
pub open spec fn is_selected(sel: Seq<SelectedChannel>, f: usize, c: usize) -> bool {
    exists|k: int| 0 <= k < sel.len() && sel[k].file_index == f && sel[k].channel_index == c
}

/// Whether a selected channel uses color `i`.
pub open spec fn color_used(sel: Seq<SelectedChannel>, i: int) -> bool {
    exists|k: int| 0 <= k < sel.len() && sel[k].color_index == i
}

/// The first color index at or after `i` (and below `n`) that no selected
/// channel uses; 0 when all are used.
pub open spec fn first_free_color_from(sel: Seq<SelectedChannel>, i: int, n: int) -> usize
    decreases n - i,
{
    if i >= n {
        0
    } else if !color_used(sel, i) {
        i as usize
    } else {
        first_free_color_from(sel, i + 1, n)
    }
}

/// Index of the first plot area with room for another channel.
pub open spec fn first_with_capacity(plots: Seq<PlotAreaView>, max: usize) -> Option<int>
    decreases plots.len(),
{
    if plots.len() == 0 {
        None
    } else {
        match first_with_capacity(plots.drop_last(), max) {
            Some(i) => Some(i),
            None => if plots.last().channel_indices.len() < max {
                Some(plots.len() - 1)
            } else {
                None
            },
        }
    }
}

/// `s` after removing, in turn, the entry at each position of `d` that is
/// still in range.
pub open spec fn remove_in_order(s: Seq<SelectedChannel>, d: Seq<usize>) -> Seq<SelectedChannel>
    decreases d.len(),
{
    if d.len() == 0 {
        s
    } else {
        let s2 = if d[0] < s.len() {
            s.remove(d[0] as int)
        } else {
            s
        };
        remove_in_order(s2, d.drop_first())
    }
}

/// Plot area `q` after the channels at the positions in `r` are removed,
/// unless it is the plot area `id` itself.
pub open spec fn plot_after_delete(q: PlotAreaView, id: usize, r: Seq<usize>) -> PlotAreaView {
    if q.id != id {
        PlotAreaView { channel_indices: drop_refs(q.channel_indices, r), ..q }
    } else {
        q
    }
}

/// A selected channel after file `index` is removed from the file list.
pub open spec fn shift_selected(c: SelectedChannel, index: usize) -> SelectedChannel {
    if c.file_index > index {
        SelectedChannel { file_index: (c.file_index - 1) as usize, ..c }
    } else {
        c
    }
}

/// A tab after file `index` is removed from the file list: tabs of later
/// files, and their channels, move down by one.
pub open spec fn shift_tab(tab: TabView, index: usize) -> TabView {
    if tab.file_index > index {
        TabView {
            file_index: (tab.file_index - 1) as usize,
            selected_channels: tab.selected_channels.map_values(
                |c: SelectedChannel| shift_selected(c, index),
            ),
            ..tab
        }
    } else {
        tab
    }
}

impl AppView {
    /// The state after a file has finished loading: the file is appended and
    /// selected, and a new active tab views it, its cursor on the first
    /// record when the file has records.
    pub open spec fn add_loaded_file(self, file: LoadedFileView) -> AppView {
        let index = self.files.len() as usize;
        let tab = TabView {
            cursor_record: if file.record_count > 0 {
                Some(0usize)
            } else {
                None
            },
            ..new_tab_view(index, file.name)
        };
        AppView {
            files: self.files.push(file),
            selected_file: Some(index),
            tabs: self.tabs.push(tab),
            active_tab: Some(self.tabs.len() as usize),
            active_panel: ActivePanel::ToolProperties,
            ..self
        }.with_toast(self.texts.file_loaded, ToastType::Success)
    }

    /// Whether a loaded file has the path `path`.
    pub open spec fn is_loaded(self, path: Seq<Seq<char>>) -> bool {
        exists|i: int| 0 <= i < self.files.len() && #[trigger] self.files[i].path == path
    }

    /// The display name of file `f`'s channel `c`; "Unknown" when there is
    /// no such channel.
    pub open spec fn channel_name(self, f: usize, c: usize) -> Seq<char> {
        if f >= self.files.len() {
            "Unknown"@
        } else {
            let file = self.files[f as int];
            let n = file.channel_names.len();
            if c < n {
                file.channel_names[c as int]
            } else if c - n < file.computed_channel_names.len() {
                file.computed_channel_names[c - n]
            } else {
                "Unknown"@
            }
        }
    }

    /// The state after adding a computed channel named `name` to the active
    /// tab's file.
    pub open spec fn add_computed_channel(self, name: Seq<char>) -> AppView {
        match self.active_tab {
            None => self.with_toast(self.texts.no_active_tab, ToastType::Warning),
            Some(t) => {
                let f = self.tabs[t as int].file_index as int;
                let file = self.files[f];
                AppView {
                    files: self.files.update(
                        f,
                        LoadedFileView {
                            computed_channel_names: file.computed_channel_names.push(name),
                            ..file
                        },
                    ),
                    ..self
                }
            },
        }
    }

    /// The state after removing computed channel `index` of the active tab's
    /// file; nothing changes when there is no such channel.
    pub open spec fn remove_computed_channel(self, index: usize) -> AppView {
        match self.active_tab {
            None => self,
            Some(t) => {
                let f = self.tabs[t as int].file_index as int;
                let file = self.files[f];
                if index < file.computed_channel_names.len() {
                    AppView {
                        files: self.files.update(
                            f,
                            LoadedFileView {
                                computed_channel_names: file.computed_channel_names.remove(
                                    index as int,
                                ),
                                ..file
                            },
                        ),
                        ..self
                    }
                } else {
                    self
                }
            },
        }
    }
}

impl AppView {
    /// The state after removing file `index`: its tab is closed, later
    /// files' tabs and channels are renumbered, and the selected file
    /// follows the active tab.
    pub open spec fn remove_file(self, index: usize) -> AppView {
        if index >= self.files.len() {
            self
        } else {
            let s1 = match tab_position(self.tabs, index) {
                Some(t) => self.close_tab(t as usize),
                None => self,
            };
            let tabs = s1.tabs.map_values(|tab: TabView| shift_tab(tab, index));
            AppView {
                files: s1.files.remove(index as int),
                tabs,
                selected_file: match s1.active_tab {
                    Some(t) => Some(tabs[t as int].file_index),
                    None => None,
                },
                ..s1
            }
        }
    }

    /// The state after deleting plot area `id` of the active tab together
    /// with its channels (removed from the selection from the highest
    /// position down); the other plot areas drop those channels and renumber
    /// the rest. The last plot area cannot be deleted.
    pub open spec fn delete_plot_area(self, id: usize) -> AppView {
        match self.active_tab {
            None => self,
            Some(t) => {
                let tab = self.tabs[t as int];
                if tab.plot_areas.len() <= 1 {
                    self.with_toast("Cannot delete the last plot area"@, ToastType::Warning)
                } else {
                    match plot_position(tab.plot_areas, id) {
                        None => self,
                        Some(p) => {
                            let r = tab.plot_areas[p].channel_indices;
                            let sel = remove_in_order(
                                tab.selected_channels,
                                r.sort_by(descending()),
                            );
                            let plots = tab.plot_areas.map_values(
                                |q: PlotAreaView| plot_after_delete(q, id, r),
                            ).remove(p);
                            self.with_tab(
                                t as int,
                                TabView { selected_channels: sel, plot_areas: plots, ..tab },
                            ).with_toast("Plot area deleted"@, ToastType::Success)
                        },
                    }
                }
            },
        }
    }

    /// The state after creating a plot area named `name` in the active tab.
    pub open spec fn create_plot_area(self, name: Seq<char>) -> AppView {
        match self.active_tab {
            None => self.with_toast("No active tab"@, ToastType::Warning),
            Some(t) => {
                let tab = self.tabs[t as int];
                if tab.plot_areas.len() >= MAX_PLOT_AREAS {
                    self.with_toast("Maximum 10 plot areas allowed"@, ToastType::Warning)
                } else {
                    let plot = PlotAreaView {
                        id: tab.next_plot_area_id,
                        name,
                        channel_indices: Seq::empty(),
                    };
                    self.with_tab(
                        t as int,
                        TabView {
                            plot_areas: tab.plot_areas.push(plot),
                            next_plot_area_id: (tab.next_plot_area_id + 1) as usize,
                            ..tab
                        },
                    ).with_toast("Plot area created"@, ToastType::Success)
                }
            },
        }
    }

    /// The state after toggling stacked plot mode of the active tab.
    /// Entering it makes sure there is a plot area and puts all channels in
    /// the first one when it is empty; leaving it keeps only the first plot
    /// area, holding all channels.
    pub open spec fn toggle_stacked_mode(self) -> AppView {
        match self.active_tab {
            None => self,
            Some(t) => {
                let tab = self.tabs[t as int];
                let n = tab.selected_channels.len();
                if !tab.stacked_mode {
                    let (plots1, next1) = if tab.plot_areas.len() == 0 {
                        (
                            seq![
                                PlotAreaView {
                                    id: 0,
                                    name: "Plot 1"@,
                                    channel_indices: Seq::empty(),
                                },
                            ],
                            1usize,
                        )
                    } else {
                        (tab.plot_areas, tab.next_plot_area_id)
                    };
                    let plots2 = if n > 0 && plots1[0].channel_indices.len() == 0 {
                        plots1.update(
                            0,
                            PlotAreaView { channel_indices: index_range(n), ..plots1[0] },
                        )
                    } else {
                        plots1
                    };
                    self.with_tab(
                        t as int,
                        TabView {
                            stacked_mode: true,
                            plot_areas: plots2,
                            next_plot_area_id: next1,
                            ..tab
                        },
                    ).with_toast("Stacked plot mode enabled"@, ToastType::Success)
                } else {
                    let plots2 = if tab.plot_areas.len() > 0 {
                        seq![PlotAreaView { channel_indices: index_range(n), ..tab.plot_areas[0] }]
                    } else {
                        tab.plot_areas
                    };
                    self.with_tab(
                        t as int,
                        TabView { stacked_mode: false, plot_areas: plots2, ..tab },
                    ).with_toast("Stacked plot mode disabled"@, ToastType::Success)
                }
            },
        }
    }

    /// Why adding file `f`'s channel `c` to plot area `plot_id` of the
    /// active tab is refused, as the toast that says so; `None` when it is
    /// added.
    pub open spec fn add_to_plot_refusal(self, f: usize, c: usize, plot_id: usize) -> Option<
        (Seq<char>, ToastType),
    > {
        match self.active_tab {
            None => Some((self.texts.no_active_tab, ToastType::Warning)),
            Some(t) => {
                let tab = self.tabs[t as int];
                if f != tab.file_index {
                    Some((self.texts.channel_from_active_tab, ToastType::Warning))
                } else if tab.selected_channels.len() >= self.limits.max_total_channels {
                    Some(
                        (
                            "Maximum "@ + crate::text::decimal(
                                self.limits.max_total_channels as nat,
                            ) + " total channels reached"@,
                            ToastType::Warning,
                        ),
                    )
                } else {
                    match plot_position(tab.plot_areas, plot_id) {
                        None => Some(("Plot area not found"@, ToastType::Error)),
                        Some(p) => {
                            let plot = tab.plot_areas[p];
                            if plot.channel_indices.len() >= self.limits.max_channels_per_plot {
                                Some(
                                    (
                                        "Plot '"@ + plot.name + "' is full (max "@
                                            + crate::text::decimal(
                                            self.limits.max_channels_per_plot as nat,
                                        ) + " channels)"@,
                                        ToastType::Warning,
                                    ),
                                )
                            } else if is_selected(tab.selected_channels, f, c) {
                                Some((self.texts.channel_already_selected, ToastType::Warning))
                            } else {
                                None
                            }
                        },
                    }
                }
            },
        }
    }

    /// The channel that adding file `f`'s channel `c` appends to the
    /// active tab's selection: it takes the first free color.
    pub open spec fn new_selection(self, t: int, f: usize, c: usize) -> SelectedChannel {
        let sel = self.tabs[t].selected_channels;
        SelectedChannel {
            file_index: f,
            channel_index: c,
            color_index: first_free_color_from(sel, 0, self.chart_colors.len() as int),
        }
    }

    /// The state after adding file `f`'s channel `c` to plot area `plot_id`
    /// of the active tab (stacked mode).
    pub open spec fn add_channel_to_plot(self, f: usize, c: usize, plot_id: usize) -> AppView {
        match self.add_to_plot_refusal(f, c, plot_id) {
            Some((m, k)) => self.with_toast(m, k),
            None => {
                let t = self.active_tab->0 as int;
                let tab = self.tabs[t];
                let p = plot_position(tab.plot_areas, plot_id)->0;
                let n = tab.selected_channels.len();
                self.with_tab(
                    t,
                    TabView {
                        selected_channels: tab.selected_channels.push(self.new_selection(t, f, c)),
                        plot_areas: tab.plot_areas.update(
                            p,
                            PlotAreaView {
                                channel_indices: tab.plot_areas[p].channel_indices.push(
                                    n as usize,
                                ),
                                ..tab.plot_areas[p]
                            },
                        ),
                        ..tab
                    },
                )
            },
        }
    }

    /// The state after adding file `f`'s channel `c` to the active tab. In
    /// stacked mode it goes to the first plot area with room; otherwise to
    /// the selection and to the first plot area, if any.
    pub open spec fn add_channel(self, f: usize, c: usize) -> AppView {
        match self.active_tab {
            None => self.with_toast(self.texts.no_active_tab, ToastType::Warning),
            Some(t) => {
                let tab = self.tabs[t as int];
                if f != tab.file_index {
                    self.with_toast(self.texts.channel_from_active_tab, ToastType::Warning)
                } else if tab.stacked_mode {
                    match first_with_capacity(tab.plot_areas, self.limits.max_channels_per_plot) {
                        Some(p) => self.add_channel_to_plot(f, c, tab.plot_areas[p].id),
                        None => self.with_toast(
                            "All plots are full. Create a new plot area."@,
                            ToastType::Warning,
                        ),
                    }
                } else if tab.selected_channels.len() >= self.limits.max_channels {
                    self.with_toast(self.texts.max_channels, ToastType::Warning)
                } else if is_selected(tab.selected_channels, f, c) {
                    self.with_toast(self.texts.channel_already_selected, ToastType::Warning)
                } else {
                    let n = tab.selected_channels.len();
                    let plots = if tab.plot_areas.len() > 0 {
                        tab.plot_areas.update(
                            0,
                            PlotAreaView {
                                channel_indices: tab.plot_areas[0].channel_indices.push(
                                    n as usize,
                                ),
                                ..tab.plot_areas[0]
                            },
                        )
                    } else {
                        tab.plot_areas
                    };
                    self.with_tab(
                        t as int,
                        TabView {
                            selected_channels: tab.selected_channels.push(
                                self.new_selection(t as int, f, c),
                            ),
                            plot_areas: plots,
                            ..tab
                        },
                    )
                }
            },
        }
    }

    /// Whether adding file `f`'s channel `c` reads that channel of the file
    /// (when it is accepted).
    pub open spec fn add_channel_reads_channel(self, f: usize, c: usize) -> bool {
        match self.active_tab {
            None => false,
            Some(t) => {
                let tab = self.tabs[t as int];
                if f != tab.file_index {
                    false
                } else if tab.stacked_mode {
                    match first_with_capacity(tab.plot_areas, self.limits.max_channels_per_plot) {
                        Some(p) => self.add_to_plot_refusal(f, c, tab.plot_areas[p].id) is None,
                        None => false,
                    }
                } else {
                    tab.selected_channels.len() < self.limits.max_channels && !is_selected(
                        tab.selected_channels,
                        f,
                        c,
                    )
                }
            },
        }
    }
}

impl UltraLogApp {
    /// Index of the first tab that views file `file_index`.
    fn find_tab(&self, file_index: usize) -> (res: Option<usize>)
        ensures
            res matches Some(i) ==> tab_position(self@.tabs, file_index) == Some(i as int),
            res is None ==> tab_position(self@.tabs, file_index) is None,
    {
        let ghost tv = self@.tabs;
        let mut i: usize = 0;
        while i < self.tabs.len()
            invariant
                i <= self.tabs.len(),
                tv == self@.tabs,
                tab_position(tv.take(i as int), file_index) is None,
            decreases self.tabs.len() - i,
        {
            assert(tv.take(i + 1).drop_last() =~= tv.take(i as int));
            if self.tabs[i].file_index == file_index {
                proof {
                    lemma_position_prefix_tab(tv, file_index, i + 1);
                }
                return Some(i);
            }
            i = i + 1;
        }
        assert(tv.take(i as int) =~= tv);
        None
    }

    /// Index of the first plot area of tab `t` with id `id`.
    fn find_plot(&self, t: usize, id: usize) -> (res: Option<usize>)
        requires
            t < self.tabs.len(),
        ensures
            res matches Some(i) ==> plot_position(self@.tabs[t as int].plot_areas, id) == Some(
                i as int,
            ),
            res is None ==> plot_position(self@.tabs[t as int].plot_areas, id) is None,
    {
        let ghost pv = self@.tabs[t as int].plot_areas;
        let plots = &self.tabs[t].plot_areas;
        assert(pv == plots@.map_values(|p: PlotArea| p@));
        let mut i: usize = 0;
        while i < plots.len()
            invariant
                i <= plots.len(),
                pv == plots@.map_values(|p: PlotArea| p@),
                t < self.tabs.len(),
                pv == self@.tabs[t as int].plot_areas,
                plot_position(pv.take(i as int), id) is None,
            decreases plots.len() - i,
        {
            assert(pv.take(i + 1).drop_last() =~= pv.take(i as int));
            assert(pv[i as int] == plots@[i as int]@);
            if plots[i].id == id {
                proof {
                    let pt = pv.take(i + 1);
                    assert(pt.last() == pv[i as int]);
                    assert(plot_position(pt, id) == Some(i as int));
                    lemma_position_prefix_plot(pv, id, i + 1);
                }
                return Some(i);
            }
            i = i + 1;
        }
        assert(pv.take(i as int) =~= pv);
        None
    }

    /// Index of the first plot area of tab `t` that lists channel `c`.
    fn find_plot_holding(&self, t: usize, c: usize) -> (res: Option<usize>)
        requires
            t < self.tabs.len(),
        ensures
            res matches Some(i) ==> plot_holding(self@.tabs[t as int].plot_areas, c) == Some(
                i as int,
            ),
            res is None ==> plot_holding(self@.tabs[t as int].plot_areas, c) is None,
    {
        let ghost pv = self@.tabs[t as int].plot_areas;
        let plots = &self.tabs[t].plot_areas;
        assert(pv == plots@.map_values(|p: PlotArea| p@));
        let mut i: usize = 0;
        while i < plots.len()
            invariant
                i <= plots.len(),
                pv == plots@.map_values(|p: PlotArea| p@),
                t < self.tabs.len(),
                pv == self@.tabs[t as int].plot_areas,
                plot_holding(pv.take(i as int), c) is None,
            decreases plots.len() - i,
        {
            assert(pv.take(i + 1).drop_last() =~= pv.take(i as int));
            assert(pv[i as int] == plots@[i as int]@);
            if crate::indices::contains_index(&plots[i].channel_indices, c) {
                proof {
                    let pt = pv.take(i + 1);
                    assert(pt.last() == pv[i as int]);
                    assert(plot_holding(pt, c) == Some(i as int));
                    lemma_position_prefix_holding(pv, c, i + 1);
                }
                return Some(i);
            }
            i = i + 1;
        }
        assert(pv.take(i as int) =~= pv);
        None
    }

    /// Index of the first plot area of tab `t` with room for another
    /// channel.
    fn find_plot_with_capacity(&self, t: usize) -> (res: Option<usize>)
        requires
            t < self.tabs.len(),
        ensures
            res matches Some(i) ==> first_with_capacity(
                self@.tabs[t as int].plot_areas,
                self.limits.max_channels_per_plot,
            ) == Some(i as int),
            res is None ==> first_with_capacity(
                self@.tabs[t as int].plot_areas,
                self.limits.max_channels_per_plot,
            ) is None,
    {
        let ghost pv = self@.tabs[t as int].plot_areas;
        let max = self.limits.max_channels_per_plot;
        let plots = &self.tabs[t].plot_areas;
        assert(pv == plots@.map_values(|p: PlotArea| p@));
        let mut i: usize = 0;
        while i < plots.len()
            invariant
                i <= plots.len(),
                pv == plots@.map_values(|p: PlotArea| p@),
                t < self.tabs.len(),
                max == self.limits.max_channels_per_plot,
                pv == self@.tabs[t as int].plot_areas,
                first_with_capacity(pv.take(i as int), max) is None,
            decreases plots.len() - i,
        {
            assert(pv.take(i + 1).drop_last() =~= pv.take(i as int));
            assert(pv[i as int] == plots@[i as int]@);
            if plots[i].has_capacity(&self.limits) {
                proof {
                    let pt = pv.take(i + 1);
                    assert(pt.last() == pv[i as int]);
                    assert(first_with_capacity(pt, max) == Some(i as int));
                    lemma_first_with_capacity_prefix(pv, max, i + 1);
                }
                return Some(i);
            }
            i = i + 1;
        }
        assert(pv.take(i as int) =~= pv);
        None
    }

    /// Switches to the tab of file `file_index`, opening one when there is
    /// none.
    pub fn switch_to_file_tab(&mut self, file_index: usize)
        requires
            file_index < old(self).files.len(),
        ensures
            final(self)@ == old(self)@.switch_to_file_tab(file_index),
    {
        match self.find_tab(file_index) {
            Some(t) => {
                self.active_tab = Some(t);
                self.selected_file = Some(file_index);
            },
            None => {
                let name = self.files[file_index].name.clone();
                let tab = Tab::new(file_index, name);
                let ghost old_tabs = self.tabs@;
                self.tabs.push(tab);
                assert(self.tabs@.map_values(|t: Tab| t@) =~= old_tabs.map_values(|t: Tab| t@).push(
                    tab@,
                ));
                self.active_tab = Some(self.tabs.len() - 1);
                self.selected_file = Some(file_index);
            },
        }
    }

    /// The selected channels of the active tab.
    pub fn get_selected_channels(&self) -> (res: &[SelectedChannel])
        requires
            self@.wf(),
        ensures
            res@ == self@.selected_channels(),
    {
        if let Some(t) = self.active_tab {
            self.tabs[t].selected_channels.as_slice()
        } else {
            let empty: &[SelectedChannel] = &[];
            assert(empty@ =~= Seq::<SelectedChannel>::empty());
            empty
        }
    }

    /// The channel search text of the active tab.
    pub fn get_channel_search(&self) -> (res: &str)
        requires
            self@.wf(),
        ensures
            res@ == (match self.active_tab {
                Some(t) => self@.tabs[t as int].channel_search,
                None => Seq::empty(),
            }),
    {
        if let Some(t) = self.active_tab {
            self.tabs[t].channel_search.as_str()
        } else {
            proof {
                reveal_strlit("");
            }
            ""
        }
    }

    /// Sets the channel search text of the active tab.
    pub fn set_channel_search(&mut self, search: String)
        requires
            old(self)@.wf(),
        ensures
            final(self)@ == (match old(self).active_tab {
                Some(t) => old(self)@.with_tab(
                    t as int,
                    TabView { channel_search: search@, ..old(self)@.tabs[t as int] },
                ),
                None => old(self)@,
            }),
    {
        if let Some(t) = self.active_tab {
            let ghost old_tabs = self.tabs@;
            self.tabs[t].channel_search = search;
            assert(self.tabs@.map_values(|x: Tab| x@) =~= old_tabs.map_values(|x: Tab| x@).update(
                t as int,
                self.tabs@[t as int]@,
            ));
        }
    }

    /// Removes selected channel `channel_idx` of the active tab, from the
    /// selection and from every plot area.
    pub fn remove_channel_from_plot(&mut self, channel_idx: usize)
        requires
            old(self)@.wf(),
        ensures
            final(self)@ == old(self)@.remove_channel_from_plot(channel_idx),
    {
        let t = match self.active_tab {
            Some(t) => t,
            None => return,
        };
        if channel_idx >= self.tabs[t].selected_channels.len() {
            return;
        }
        let ghost old_tabs = self.tabs@;
        let new_plots = plots_drop_ref(&self.tabs[t].plot_areas, channel_idx);
        self.tabs[t].plot_areas = new_plots;
        self.tabs[t].selected_channels.remove(channel_idx);
        assert(self.tabs@.map_values(|x: Tab| x@) =~= old_tabs.map_values(|x: Tab| x@).update(
            t as int,
            self.tabs@[t as int]@,
        ));
    }
}

impl UltraLogApp {
    /// Removes selected channel `index` of the active tab.
    pub fn remove_channel(&mut self, index: usize)
        requires
            old(self)@.wf(),
        ensures
            final(self)@ == old(self)@.remove_channel_from_plot(index),
    {
        self.remove_channel_from_plot(index);
    }

    /// Moves selected channel `channel_idx` of the active tab from the first
    /// plot area that lists it to plot area `target_plot_id`.
    pub fn move_channel_to_plot(&mut self, channel_idx: usize, target_plot_id: usize)
        requires
            old(self)@.wf(),
        ensures
            final(self)@ == old(self)@.move_channel_to_plot(channel_idx, target_plot_id),
    {
        let t = match self.active_tab {
            Some(t) => t,
            None => return,
        };
        let current = self.find_plot_holding(t, channel_idx);
        let target = self.find_plot(t, target_plot_id);
        let (cur, tgt) = match (current, target) {
            (Some(cur), Some(tgt)) => (cur, tgt),
            _ => return,
        };
        proof {
            lemma_plot_holding(self@.tabs[t as int].plot_areas, channel_idx);
            lemma_plot_position(self@.tabs[t as int].plot_areas, target_plot_id);
        }
        if cur == tgt {
            return;
        }
        if !self.tabs[t].plot_areas[tgt].has_capacity(&self.limits) {
            self.show_toast_warning("Target plot is full");
            return;
        }
        let ghost old_tabs = self.tabs@;
        let ghost old_plots = self.tabs@[t as int].plot_areas@;
        let new_cur = without_exec(&self.tabs[t].plot_areas[cur].channel_indices, channel_idx);
        self.tabs[t].plot_areas[cur].channel_indices = new_cur;
        self.tabs[t].plot_areas[tgt].channel_indices.push(channel_idx);
        assert(self.tabs@[t as int].plot_areas@.map_values(|p: PlotArea| p@) =~= old_plots.map_values(
            |p: PlotArea| p@,
        ).update(cur as int, self.tabs@[t as int].plot_areas@[cur as int]@).update(
            tgt as int,
            self.tabs@[t as int].plot_areas@[tgt as int]@,
        ));
        assert(self.tabs@.map_values(|x: Tab| x@) =~= old_tabs.map_values(|x: Tab| x@).update(
            t as int,
            self.tabs@[t as int]@,
        ));
    }

    /// Creates a plot area named `name` in the active tab.
    pub fn create_plot_area(&mut self, name: String)
        requires
            old(self)@.wf(),
            old(self).active_tab matches Some(t) ==> (old(self).tabs@[t as int].plot_areas.len()
                < MAX_PLOT_AREAS ==> old(self).tabs@[t as int].next_plot_area_id < usize::MAX),
        ensures
            final(self)@ == old(self)@.create_plot_area(name@),
    {
        let t = match self.active_tab {
            Some(t) => t,
            None => {
                self.show_toast_warning("No active tab");
                return;
            },
        };
        if self.tabs[t].plot_areas.len() >= MAX_PLOT_AREAS {
            self.show_toast_warning("Maximum 10 plot areas allowed");
            return;
        }
        let ghost old_tabs = self.tabs@;
        let ghost old_plots = self.tabs@[t as int].plot_areas@;
        let new_id = self.tabs[t].next_plot_area_id;
        self.tabs[t].next_plot_area_id = new_id + 1;
        let plot = PlotArea::new(new_id, name);
        self.tabs[t].plot_areas.push(plot);
        assert(self.tabs@[t as int].plot_areas@.map_values(|p: PlotArea| p@) =~= old_plots.map_values(
            |p: PlotArea| p@,
        ).push(plot@));
        assert(self.tabs@.map_values(|x: Tab| x@) =~= old_tabs.map_values(|x: Tab| x@).update(
            t as int,
            self.tabs@[t as int]@,
        ));
        self.show_toast_success("Plot area created");
    }

    /// Toggles stacked plot mode of the active tab.
    pub fn toggle_stacked_mode(&mut self)
        requires
            old(self)@.wf(),
        ensures
            final(self)@ == old(self)@.toggle_stacked_mode(),
    {
        let t = match self.active_tab {
            Some(t) => t,
            None => return,
        };
        let ghost old_tabs = self.tabs@;
        let ghost old_plots = self.tabs@[t as int].plot_areas@.map_values(|p: PlotArea| p@);
        let n = self.tabs[t].selected_channels.len();
        let stacked = !self.tabs[t].stacked_mode;
        self.tabs[t].stacked_mode = stacked;
        if stacked {
            if self.tabs[t].plot_areas.len() == 0 {
                let plot = PlotArea::new(0, String::from_str("Plot 1"));
                self.tabs[t].plot_areas.push(plot);
                self.tabs[t].next_plot_area_id = 1;
                assert(self.tabs@[t as int].plot_areas@.map_values(|p: PlotArea| p@) =~= seq![
                    plot@,
                ]);
            }
            let ghost plots1 = self.tabs@[t as int].plot_areas@.map_values(|p: PlotArea| p@);
            if n > 0 && self.tabs[t].plot_areas[0].channel_indices.len() == 0 {
                let all = index_range_exec(n);
                self.tabs[t].plot_areas[0].channel_indices = all;
                assert(self.tabs@[t as int].plot_areas@.map_values(|p: PlotArea| p@) =~= plots1.update(
                    0,
                    PlotAreaView { channel_indices: index_range(n as nat), ..plots1[0] },
                ));
            }
            assert(self.tabs@.map_values(|x: Tab| x@) =~= old_tabs.map_values(|x: Tab| x@).update(
                t as int,
                self.tabs@[t as int]@,
            ));
            self.show_toast_success("Stacked plot mode enabled");
        } else {
            if self.tabs[t].plot_areas.len() > 0 {
                let all = index_range_exec(n);
                self.tabs[t].plot_areas[0].channel_indices = all;
                self.tabs[t].plot_areas.truncate(1);
                assert(self.tabs@[t as int].plot_areas@.map_values(|p: PlotArea| p@) =~= seq![
                    PlotAreaView { channel_indices: index_range(n as nat), ..old_plots[0] },
                ]);
            }
            assert(self.tabs@.map_values(|x: Tab| x@) =~= old_tabs.map_values(|x: Tab| x@).update(
                t as int,
                self.tabs@[t as int]@,
            ));
            self.show_toast_success("Stacked plot mode disabled");
        }
    }

    /// Adds file `file_index`'s channel `channel_index` to plot area
    /// `plot_area_id` of the active tab (stacked mode).
    pub fn add_channel_to_plot(&mut self, file_index: usize, channel_index: usize, plot_area_id: usize)
        requires
            old(self)@.wf(),
            old(self)@.add_to_plot_refusal(file_index, channel_index, plot_area_id) is None
                ==> channel_index < old(self).files@[file_index as int].channel_names.len(),
        ensures
            final(self)@ == old(self)@.add_channel_to_plot(file_index, channel_index, plot_area_id),
    {
        let t = match self.active_tab {
            Some(t) => t,
            None => {
                let m = self.texts.no_active_tab.clone();
                self.show_toast_warning(m.as_str());
                return;
            },
        };
        if file_index != self.tabs[t].file_index {
            let m = self.texts.channel_from_active_tab.clone();
            self.show_toast_warning(m.as_str());
            return;
        }
        if self.tabs[t].selected_channels.len() >= self.limits.max_total_channels {
            let msg = String::from_str("Maximum ").concat(
                crate::text::decimal_string(self.limits.max_total_channels).as_str(),
            ).concat(" total channels reached");
            self.show_toast_warning(msg.as_str());
            return;
        }
        let p = match self.find_plot(t, plot_area_id) {
            Some(p) => p,
            None => {
                self.show_toast_error("Plot area not found");
                return;
            },
        };
        proof {
            lemma_plot_position(self@.tabs[t as int].plot_areas, plot_area_id);
        }
        if !self.tabs[t].plot_areas[p].has_capacity(&self.limits) {
            let msg = String::from_str("Plot '").concat(self.tabs[t].plot_areas[p].name.as_str()).concat(
                "' is full (max ",
            ).concat(crate::text::decimal_string(self.limits.max_channels_per_plot).as_str()).concat(
                " channels)",
            );
            self.show_toast_warning(msg.as_str());
            return;
        }
        if is_selected_exec(&self.tabs[t].selected_channels, file_index, channel_index) {
            let m = self.texts.channel_already_selected.clone();
            self.show_toast_warning(m.as_str());
            return;
        }
        let color_index = first_free_color(&self.tabs[t].selected_channels, self.chart_colors.len());
        let ghost old_tabs = self.tabs@;
        let ghost old_plots = self.tabs@[t as int].plot_areas@;
        self.tabs[t].selected_channels.push(
            SelectedChannel { file_index, channel_index, color_index },
        );
        let new_idx = self.tabs[t].selected_channels.len() - 1;
        self.tabs[t].plot_areas[p].channel_indices.push(new_idx);
        assert(self.tabs@[t as int].plot_areas@.map_values(|q: PlotArea| q@) =~= old_plots.map_values(
            |q: PlotArea| q@,
        ).update(p as int, self.tabs@[t as int].plot_areas@[p as int]@));
        assert(self.tabs@.map_values(|x: Tab| x@) =~= old_tabs.map_values(|x: Tab| x@).update(
            t as int,
            self.tabs@[t as int]@,
        ));
    }

    /// Adds file `file_index`'s channel `channel_index` to the active tab.
    pub fn add_channel(&mut self, file_index: usize, channel_index: usize)
        requires
            old(self)@.wf(),
            old(self)@.add_channel_reads_channel(file_index, channel_index) ==> channel_index
                < old(self).files@[file_index as int].channel_names.len(),
        ensures
            final(self)@ == old(self)@.add_channel(file_index, channel_index),
    {
        let t = match self.active_tab {
            Some(t) => t,
            None => {
                let m = self.texts.no_active_tab.clone();
                self.show_toast_warning(m.as_str());
                return;
            },
        };
        if file_index != self.tabs[t].file_index {
            let m = self.texts.channel_from_active_tab.clone();
            self.show_toast_warning(m.as_str());
            return;
        }
        if self.tabs[t].stacked_mode {
            match self.find_plot_with_capacity(t) {
                Some(p) => {
                    proof {
                        lemma_first_with_capacity(
                            self@.tabs[t as int].plot_areas,
                            self.limits.max_channels_per_plot,
                        );
                    }
                    let id = self.tabs[t].plot_areas[p].id;
                    self.add_channel_to_plot(file_index, channel_index, id);
                },
                None => {
                    self.show_toast_warning("All plots are full. Create a new plot area.");
                },
            }
            return;
        }
        if self.tabs[t].selected_channels.len() >= self.limits.max_channels {
            let m = self.texts.max_channels.clone();
            self.show_toast_warning(m.as_str());
            return;
        }
        if is_selected_exec(&self.tabs[t].selected_channels, file_index, channel_index) {
            let m = self.texts.channel_already_selected.clone();
            self.show_toast_warning(m.as_str());
            return;
        }
        let color_index = first_free_color(&self.tabs[t].selected_channels, self.chart_colors.len());
        let ghost old_tabs = self.tabs@;
        let ghost old_plots = self.tabs@[t as int].plot_areas@;
        self.tabs[t].selected_channels.push(
            SelectedChannel { file_index, channel_index, color_index },
        );
        if self.tabs[t].plot_areas.len() > 0 {
            let new_idx = self.tabs[t].selected_channels.len() - 1;
            self.tabs[t].plot_areas[0].channel_indices.push(new_idx);
            assert(self.tabs@[t as int].plot_areas@.map_values(|q: PlotArea| q@) =~= old_plots.map_values(
                |q: PlotArea| q@,
            ).update(0, self.tabs@[t as int].plot_areas@[0]@));
        }
        assert(self.tabs@.map_values(|x: Tab| x@) =~= old_tabs.map_values(|x: Tab| x@).update(
            t as int,
            self.tabs@[t as int]@,
        ));
    }
}

impl UltraLogApp {
    /// Deletes plot area `plot_area_id` of the active tab together with its
    /// channels.
    pub fn delete_plot_area(&mut self, plot_area_id: usize)
        requires
            old(self)@.wf(),
        ensures
            final(self)@ == old(self)@.delete_plot_area(plot_area_id),
    {
        let t = match self.active_tab {
            Some(t) => t,
            None => return,
        };
        if self.tabs[t].plot_areas.len() <= 1 {
            self.show_toast_warning("Cannot delete the last plot area");
            return;
        }
        let p = match self.find_plot(t, plot_area_id) {
            Some(p) => p,
            None => return,
        };
        proof {
            lemma_plot_position(self@.tabs[t as int].plot_areas, plot_area_id);
        }
        let ghost old_app = self@;
        let ghost old_tabs = self.tabs@;
        let ghost tab = self@.tabs[t as int];
        let ghost r = tab.plot_areas[p as int].channel_indices;
        let order = sort_descending(&self.tabs[t].plot_areas[p].channel_indices);
        let mut k: usize = 0;
        assert(order@.skip(0) =~= order@);
        while k < order.len()
            invariant
                k <= order.len(),
                t < self.tabs.len(),
                (AppView { tabs: old_app.tabs, ..self@ }) == old_app,
                p < tab.plot_areas.len(),
                self.tabs@.len() == old_tabs.len(),
                forall|j: int| 0 <= j < old_tabs.len() && j != t ==> self.tabs@[j] == old_tabs[j],
                self.tabs@[t as int]@ == (TabView {
                    selected_channels: self.tabs@[t as int]@.selected_channels,
                    ..tab
                }),
                remove_in_order(tab.selected_channels, r.sort_by(descending())) == remove_in_order(
                    self.tabs@[t as int]@.selected_channels,
                    order@.skip(k as int),
                ),
            decreases order.len() - k,
        {
            let idx = order[k];
            assert(order@.skip(k as int).drop_first() =~= order@.skip(k + 1));
            if idx < self.tabs[t].selected_channels.len() {
                self.tabs[t].selected_channels.remove(idx);
            }
            k = k + 1;
        }
        assert(order@.skip(k as int) =~= Seq::<usize>::empty());
        let new_plots = plots_after_delete(&self.tabs[t].plot_areas, plot_area_id, p);
        self.tabs[t].plot_areas = new_plots;
        assert(self.tabs@.map_values(|x: Tab| x@) =~= old_tabs.map_values(|x: Tab| x@).update(
            t as int,
            self.tabs@[t as int]@,
        ));
        self.show_toast_success("Plot area deleted");
    }
}

impl UltraLogApp {
    /// Removes loaded file `index`, closing its tab and renumbering later
    /// files in the remaining tabs.
    pub fn remove_file(&mut self, index: usize)
        requires
            old(self)@.wf(),
        ensures
            final(self)@ == old(self)@.remove_file(index),
    {
        if index >= self.files.len() {
            return;
        }
        if let Some(t) = self.find_tab(index) {
            proof {
                lemma_tab_position(self@.tabs, index);
            }
            self.close_tab(t);
        }
        let ghost s1 = self@;
        let ghost old_tabs = self.tabs@;
        let mut k: usize = 0;
        while k < self.tabs.len()
            invariant
                k <= self.tabs.len(),
                self.tabs@.len() == old_tabs.len(),
                (AppView { tabs: s1.tabs, ..self@ }) == s1,
                s1.tabs == old_tabs.map_values(|x: Tab| x@),
                forall|j: int| 0 <= j < k ==> #[trigger] self.tabs@[j]@ == shift_tab(old_tabs[j]@, index),
                forall|j: int| k <= j < old_tabs.len() ==> #[trigger] self.tabs@[j] == old_tabs[j],
            decreases self.tabs.len() - k,
        {
            if self.tabs[k].file_index > index {
                let shifted = shift_selected_exec(&self.tabs[k].selected_channels, index);
                self.tabs[k].selected_channels = shifted;
                self.tabs[k].file_index = self.tabs[k].file_index - 1;
            }
            k = k + 1;
        }
        let ghost tabs2 = s1.tabs.map_values(|tab: TabView| shift_tab(tab, index));
        assert(self.tabs@.map_values(|x: Tab| x@) =~= tabs2);
        let ghost old_files = self.files@;
        self.files.remove(index);
        assert(self.files@.map_values(|f: LoadedFile| f@) =~= old_files.map_values(
            |f: LoadedFile| f@,
        ).remove(index as int));
        match self.active_tab {
            Some(tab_idx) => {
                self.selected_file = Some(self.tabs[tab_idx].file_index);
            },
            None => {
                self.selected_file = None;
            },
        }
    }
}

impl UltraLogApp {
    /// The cursor record of the active tab.
    pub fn get_cursor_record(&self) -> (r: Option<usize>)
        requires
            self@.wf(),
        ensures
            r == (match self.active_tab {
                Some(t) => self@.tabs[t as int].cursor_record,
                None => None,
            }),
    {
        match self.active_tab {
            Some(t) => self.tabs[t].cursor_record,
            None => None,
        }
    }

    /// Sets the cursor record of the active tab.
    pub fn set_cursor_record(&mut self, record: Option<usize>)
        requires
            old(self)@.wf(),
        ensures
            final(self)@ == (match old(self).active_tab {
                Some(t) => old(self)@.with_tab(
                    t as int,
                    TabView { cursor_record: record, ..old(self)@.tabs[t as int] },
                ),
                None => old(self)@,
            }),
    {
        if let Some(t) = self.active_tab {
            let ghost old_tabs = self.tabs@;
            self.tabs[t].cursor_record = record;
            assert(self.tabs@.map_values(|x: Tab| x@) =~= old_tabs.map_values(|x: Tab| x@).update(
                t as int,
                self.tabs@[t as int]@,
            ));
        }
    }

    /// Whether the chart of the active tab has been interacted with.
    pub fn get_chart_interacted(&self) -> (b: bool)
        requires
            self@.wf(),
        ensures
            b == (match self.active_tab {
                Some(t) => self@.tabs[t as int].chart_interacted,
                None => false,
            }),
    {
        match self.active_tab {
            Some(t) => self.tabs[t].chart_interacted,
            None => false,
        }
    }

    /// Sets whether the chart of the active tab has been interacted with.
    pub fn set_chart_interacted(&mut self, interacted: bool)
        requires
            old(self)@.wf(),
        ensures
            final(self)@ == (match old(self).active_tab {
                Some(t) => old(self)@.with_tab(
                    t as int,
                    TabView { chart_interacted: interacted, ..old(self)@.tabs[t as int] },
                ),
                None => old(self)@,
            }),
    {
        if let Some(t) = self.active_tab {
            let ghost old_tabs = self.tabs@;
            self.tabs[t].chart_interacted = interacted;
            assert(self.tabs@.map_values(|x: Tab| x@) =~= old_tabs.map_values(|x: Tab| x@).update(
                t as int,
                self.tabs@[t as int]@,
            ));
        }
    }

    /// Channel names of the active tab's file.
    pub fn get_available_channel_names(&self) -> (names: Vec<String>)
        requires
            self@.wf(),
        ensures
            names@.map_values(|s: String| s@) == (match self.active_tab {
                Some(t) => {
                    let f = self@.tabs[t as int].file_index;
                    if f < self@.files.len() {
                        self@.files[f as int].channel_names
                    } else {
                        Seq::empty()
                    }
                },
                None => Seq::empty(),
            }),
    {
        let mut names: Vec<String> = Vec::new();
        if let Some(t) = self.active_tab {
            let f = self.tabs[t].file_index;
            if f < self.files.len() {
                let src = &self.files[f].channel_names;
                let mut i: usize = 0;
                while i < src.len()
                    invariant
                        i <= src.len(),
                        names@.len() == i,
                        names@.map_values(|s: String| s@) == src@.take(i as int).map_values(
                            |s: String| s@,
                        ),
                    decreases src.len() - i,
                {
                    let ghost before = names@;
                    let c = src[i].clone();
                    assert(c@ == src@[i as int]@);
                    names.push(c);
                    assert(names@ == before.push(c));
                    assert(src@.take(i + 1) == src@.take(i as int).push(src@[i as int]));
                    assert forall|k: int| 0 <= k < i + 1 implies names@[k]@ == src@[k]@ by {
                        if k < i {
                            assert(before.map_values(|s: String| s@)[k] == src@.take(
                                i as int,
                            ).map_values(|s: String| s@)[k]);
                        }
                    }
                    i = i + 1;
                    assert(names@.map_values(|s: String| s@) =~= src@.take(i as int).map_values(
                        |s: String| s@,
                    ));
                }
                assert(src@.take(src.len() as int) =~= src@);
                return names;
            }
        }
        assert(names@.map_values(|s: String| s@) =~= Seq::empty());
        names
    }
}

impl UltraLogApp {
    /// Takes in a file that has finished loading: appends and selects it and
    /// opens an active tab for it.
    pub fn add_loaded_file(&mut self, file: LoadedFile)
        requires
            old(self).files.len() < usize::MAX,
            old(self).tabs.len() < usize::MAX,
        ensures
            final(self)@ == old(self)@.add_loaded_file(file@),
    {
        let ghost old_files = self.files@;
        let ghost old_tabs = self.tabs@;
        let ghost fv = file@;
        let index = self.files.len();
        let name = file.name.clone();
        let has_records = file.record_count > 0;
        self.files.push(file);
        assert(self.files@.map_values(|f: LoadedFile| f@) =~= old_files.map_values(
            |f: LoadedFile| f@,
        ).push(fv));
        self.selected_file = Some(index);
        let mut tab = Tab::new(index, name);
        if has_records {
            tab.cursor_record = Some(0);
        }
        self.tabs.push(tab);
        assert(self.tabs@.map_values(|t: Tab| t@) =~= old_tabs.map_values(|t: Tab| t@).push(tab@));
        self.active_tab = Some(self.tabs.len() - 1);
        let m = self.texts.file_loaded.clone();
        self.show_toast_success(m.as_str());
        self.active_panel = ActivePanel::ToolProperties;
    }

    /// Decides whether loading the file at `path` may start: it may not
    /// when a file with that path is already loaded, which a toast says.
    pub fn start_loading_file(&mut self, path: &Vec<String>) -> (start: bool)
        ensures
            start == !old(self)@.is_loaded(path@.map_values(|s: String| s@)),
            final(self)@ == (if start {
                old(self)@
            } else {
                old(self)@.with_toast(old(self)@.texts.file_already_loaded, ToastType::Warning)
            }),
    {
        let ghost p = path@.map_values(|s: String| s@);
        let ghost s0 = self@;
        let mut i: usize = 0;
        while i < self.files.len()
            invariant
                i <= self.files.len(),
                self@ == s0,
                s0 == old(self)@,
                p == path@.map_values(|s: String| s@),
                forall|k: int| 0 <= k < i ==> #[trigger] self@.files[k].path != p,
            decreases self.files.len() - i,
        {
            if same_path(&self.files[i].path, path) {
                assert(self@.files[i as int].path == p);
                let m = self.texts.file_already_loaded.clone();
                self.show_toast_warning(m.as_str());
                return false;
            }
            i = i + 1;
        }
        true
    }

    /// Takes in the outcome of loading a file: a loaded file is added and
    /// opened in a new tab; a failure is reported in an error toast.
    pub fn check_loading_complete(&mut self, result: LoadResult)
        requires
            old(self).files.len() < usize::MAX,
            old(self).tabs.len() < usize::MAX,
        ensures
            final(self)@ == (match result {
                LoadResult::Success(file) => old(self)@.add_loaded_file(file@),
                LoadResult::Error(e) => old(self)@.with_toast(
                    "Error: "@ + e@,
                    ToastType::Error,
                ),
            }),
    {
        match result {
            LoadResult::Success(file) => self.add_loaded_file(file),
            LoadResult::Error(e) => {
                let msg = String::from_str("Error: ").concat(e.as_str());
                self.show_toast_error(msg.as_str());
            },
        }
    }

    /// The display name of file `file_index`'s channel `channel_index`.
    pub fn get_channel_name(&self, file_index: usize, channel_index: usize) -> (name: String)
        ensures
            name@ == self@.channel_name(file_index, channel_index),
    {
        if file_index >= self.files.len() {
            return String::from_str("Unknown");
        }
        let file = &self.files[file_index];
        let n = file.channel_names.len();
        if channel_index < n {
            file.channel_names[channel_index].clone()
        } else if channel_index - n < file.computed_channel_names.len() {
            file.computed_channel_names[channel_index - n].clone()
        } else {
            String::from_str("Unknown")
        }
    }

    /// Names of the computed channels of the active tab's file.
    pub fn get_file_computed_channels(&self) -> (names: &[String])
        requires
            self@.wf(),
        ensures
            names@.map_values(|s: String| s@) == (match self.active_tab {
                Some(t) => self@.files[self@.tabs[t as int].file_index as int].computed_channel_names,
                None => Seq::empty(),
            }),
    {
        match self.active_tab {
            Some(t) => {
                let f = self.tabs[t].file_index;
                assert(self@.tabs[t as int].file_index == f);
                self.files[f].computed_channel_names.as_slice()
            },
            None => {
                let empty: &[String] = &[];
                assert(empty@.map_values(|s: String| s@) =~= Seq::empty());
                empty
            },
        }
    }

    /// Adds a computed channel named `name` to the active tab's file.
    pub fn add_computed_channel(&mut self, name: String)
        requires
            old(self)@.wf(),
        ensures
            final(self)@ == old(self)@.add_computed_channel(name@),
    {
        let t = match self.active_tab {
            Some(t) => t,
            None => {
                let m = self.texts.no_active_tab.clone();
                self.show_toast_warning(m.as_str());
                return;
            },
        };
        let f = self.tabs[t].file_index;
        let ghost old_files = self.files@;
        let ghost old_names = self.files@[f as int].computed_channel_names@;
        self.files[f].computed_channel_names.push(name);
        assert(self.files@[f as int].computed_channel_names@.map_values(|s: String| s@)
            =~= old_names.map_values(|s: String| s@).push(name@));
        assert(self.files@.map_values(|x: LoadedFile| x@) =~= old_files.map_values(
            |x: LoadedFile| x@,
        ).update(f as int, self.files@[f as int]@));
    }

    /// Removes computed channel `index` of the active tab's file, if it has
    /// one.
    pub fn remove_computed_channel(&mut self, index: usize)
        requires
            old(self)@.wf(),
        ensures
            final(self)@ == old(self)@.remove_computed_channel(index),
    {
        if let Some(t) = self.active_tab {
            let f = self.tabs[t].file_index;
            if index < self.files[f].computed_channel_names.len() {
                let ghost old_files = self.files@;
                let ghost old_names = self.files@[f as int].computed_channel_names@;
                self.files[f].computed_channel_names.remove(index);
                assert(self.files@[f as int].computed_channel_names@.map_values(|s: String| s@)
                    =~= old_names.map_values(|s: String| s@).remove(index as int));
                assert(self.files@.map_values(|x: LoadedFile| x@) =~= old_files.map_values(
                    |x: LoadedFile| x@,
                ).update(f as int, self.files@[f as int]@));
            }
        }
    }
}

/// What becomes of a reference to file `file_index` when file `removed` is
/// removed from the file list: none for the removed file itself, one lower
/// for a later file, unchanged for an earlier one.
pub fn file_index_after_removal(file_index: usize, removed: usize) -> (r: Option<usize>)
    ensures
        r == (if file_index == removed {
            None
        } else if file_index > removed {
            Some((file_index - 1) as usize)
        } else {
            Some(file_index)
        }),
{
    if file_index == removed {
        None
    } else if file_index > removed {
        Some(file_index - 1)
    } else {
        Some(file_index)
    }
}

/// Whether two paths have the same components.
fn same_path(a: &Vec<String>, b: &Vec<String>) -> (r: bool)
    ensures
        r == (a@.map_values(|s: String| s@) == b@.map_values(|s: String| s@)),
{
    if a.len() != b.len() {
        assert(a@.map_values(|s: String| s@).len() != b@.map_values(|s: String| s@).len());
        return false;
    }
    let mut i: usize = 0;
    while i < a.len()
        invariant
            i <= a.len(),
            a.len() == b.len(),
            forall|k: int| 0 <= k < i ==> #[trigger] a@[k]@ == b@[k]@,
        decreases a.len() - i,
    {
        if a[i] != b[i] {
            assert(a@.map_values(|s: String| s@)[i as int] != b@.map_values(|s: String| s@)[i as int]);
            return false;
        }
        i = i + 1;
    }
    assert(a@.map_values(|s: String| s@) =~= b@.map_values(|s: String| s@));
    true
}

/// Selected channels after file `index` is removed from the file list.
fn shift_selected_exec(sel: &Vec<SelectedChannel>, index: usize) -> (res: Vec<SelectedChannel>)
    ensures
        res@ == sel@.map_values(|c: SelectedChannel| shift_selected(c, index)),
{
    let mut res: Vec<SelectedChannel> = Vec::new();
    let mut i: usize = 0;
    while i < sel.len()
        invariant
            i <= sel.len(),
            res@ == sel@.take(i as int).map_values(|c: SelectedChannel| shift_selected(c, index)),
        decreases sel.len() - i,
    {
        let c = sel[i];
        if c.file_index > index {
            res.push(SelectedChannel { file_index: c.file_index - 1, ..c });
        } else {
            res.push(c);
        }
        i = i + 1;
        assert(res@ =~= sel@.take(i as int).map_values(|c: SelectedChannel| shift_selected(c, index)));
    }
    assert(sel@.take(sel.len() as int) =~= sel@);
    res
}

/// The plot areas after plot area `p` (with id `id`) is deleted along with
/// its channels.
fn plots_after_delete(plots: &Vec<PlotArea>, id: usize, p: usize) -> (res: Vec<PlotArea>)
    requires
        p < plots.len(),
    ensures
        res@.map_values(|q: PlotArea| q@) == plots@.map_values(|q: PlotArea| q@).map_values(
            |q: PlotAreaView| plot_after_delete(q, id, plots@[p as int]@.channel_indices),
        ).remove(p as int),
{
    let r = &plots[p].channel_indices;
    let mut res: Vec<PlotArea> = Vec::new();
    let mut k: usize = 0;
    while k < plots.len()
        invariant
            k <= plots.len(),
            p < plots.len(),
            r@ == plots@[p as int]@.channel_indices,
            res@.len() == k,
            forall|m: int|
                0 <= m < k ==> #[trigger] res@[m]@ == plot_after_delete(plots@[m]@, id, r@),
        decreases plots.len() - k,
    {
        let q = &plots[k];
        let indices = if q.id != id {
            drop_refs_exec(&q.channel_indices, r)
        } else {
            copy_indices(&q.channel_indices)
        };
        res.push(PlotArea { id: q.id, name: q.name.clone(), channel_indices: indices });
        k = k + 1;
    }
    let ghost mapped = res@.map_values(|q: PlotArea| q@);
    res.remove(p);
    assert(res@.map_values(|q: PlotArea| q@) =~= plots@.map_values(|q: PlotArea| q@).map_values(
        |q: PlotAreaView| plot_after_delete(q, id, r@),
    ).remove(p as int));
    res
}

/// A copy of an index list.
fn copy_indices(s: &Vec<usize>) -> (res: Vec<usize>)
    ensures
        res@ == s@,
{
    let mut res: Vec<usize> = Vec::new();
    let mut i: usize = 0;
    while i < s.len()
        invariant
            i <= s.len(),
            res@ == s@.take(i as int),
        decreases s.len() - i,
    {
        res.push(s[i]);
        i = i + 1;
        assert(res@ =~= s@.take(i as int));
    }
    assert(s@.take(s.len() as int) =~= s@);
    res
}

/// The indices `0..n`.
fn index_range_exec(n: usize) -> (v: Vec<usize>)
    ensures
        v@ == index_range(n as nat),
{
    let mut v: Vec<usize> = Vec::new();
    let mut i: usize = 0;
    while i < n
        invariant
            i <= n,
            v@ == index_range(i as nat),
        decreases n - i,
    {
        v.push(i);
        i = i + 1;
        assert(v@ =~= index_range(i as nat));
    }
    v
}

/// The plot areas with `drop_ref` applied to their channel lists.
fn plots_drop_ref(plots: &Vec<PlotArea>, c: usize) -> (res: Vec<PlotArea>)
    ensures
        res@.map_values(|p: PlotArea| p@) == plots@.map_values(|p: PlotArea| p@).map_values(
            |p: PlotAreaView| PlotAreaView { channel_indices: drop_ref(p.channel_indices, c), ..p },
        ),
{
    let mut res: Vec<PlotArea> = Vec::new();
    let mut k: usize = 0;
    while k < plots.len()
        invariant
            k <= plots.len(),
            res@.len() == k,
            forall|m: int|
                0 <= m < k ==> #[trigger] res@[m]@ == (PlotAreaView {
                    channel_indices: drop_ref(plots@[m]@.channel_indices, c),
                    ..plots@[m]@
                }),
        decreases plots.len() - k,
    {
        let p = &plots[k];
        let q = PlotArea {
            id: p.id,
            name: p.name.clone(),
            channel_indices: drop_ref_exec(&p.channel_indices, c),
        };
        res.push(q);
        k = k + 1;
    }
    assert(res@.map_values(|p: PlotArea| p@) =~= plots@.map_values(|p: PlotArea| p@).map_values(
        |p: PlotAreaView| PlotAreaView { channel_indices: drop_ref(p.channel_indices, c), ..p },
    ));
    res
}

proof fn lemma_first_with_capacity_prefix(plots: Seq<PlotAreaView>, max: usize, i: int)
    requires
        0 <= i <= plots.len(),
        first_with_capacity(plots.take(i), max) is Some,
    ensures
        first_with_capacity(plots, max) == first_with_capacity(plots.take(i), max),
    decreases plots.len(),
{
    if i < plots.len() {
        assert(plots.drop_last().take(i) == plots.take(i));
        lemma_first_with_capacity_prefix(plots.drop_last(), max, i);
    } else {
        assert(plots.take(i) == plots);
    }
}

/// Where `first_with_capacity` points, the plot area has room.
pub proof fn lemma_first_with_capacity(plots: Seq<PlotAreaView>, max: usize)
    ensures
        first_with_capacity(plots, max) matches Some(i) ==> 0 <= i < plots.len()
            && plots[i].channel_indices.len() < max,
    decreases plots.len(),
{
    if plots.len() > 0 {
        lemma_first_with_capacity(plots.drop_last(), max);
    }
}

/// Whether file `f`'s channel `c` is among the selected channels.
fn is_selected_exec(sel: &Vec<SelectedChannel>, f: usize, c: usize) -> (b: bool)
    ensures
        b == is_selected(sel@, f, c),
{
    let mut k: usize = 0;
    while k < sel.len()
        invariant
            k <= sel.len(),
            forall|j: int| 0 <= j < k ==> !(sel@[j].file_index == f && sel@[j].channel_index == c),
        decreases sel.len() - k,
    {
        if sel[k].file_index == f && sel[k].channel_index == c {
            return true;
        }
        k = k + 1;
    }
    false
}

/// The first color index below `n` that no selected channel uses; 0 when
/// all are used.
fn first_free_color(sel: &Vec<SelectedChannel>, n: usize) -> (res: usize)
    ensures
        res == first_free_color_from(sel@, 0, n as int),
{
    let mut i: usize = 0;
    while i < n
        invariant
            i <= n,
            first_free_color_from(sel@, 0, n as int) == first_free_color_from(
                sel@,
                i as int,
                n as int,
            ),
        decreases n - i,
    {
        let mut used = false;
        let mut k: usize = 0;
        while k < sel.len()
            invariant
                k <= sel.len(),
                used == exists|j: int| 0 <= j < k && sel@[j].color_index == i,
            decreases sel.len() - k,
        {
            if sel[k].color_index == i {
                used = true;
            }
            k = k + 1;
        }
        if !used {
            return i;
        }
        i = i + 1;
    }
    0
}

proof fn lemma_position_prefix_tab(tabs: Seq<TabView>, file_index: usize, i: int)
    requires
        0 <= i <= tabs.len(),
        tab_position(tabs.take(i), file_index) is Some,
    ensures
        tab_position(tabs, file_index) == tab_position(tabs.take(i), file_index),
    decreases tabs.len(),
{
    if i < tabs.len() {
        assert(tabs.drop_last().take(i) == tabs.take(i));
        lemma_position_prefix_tab(tabs.drop_last(), file_index, i);
    } else {
        assert(tabs.take(i) == tabs);
    }
}

proof fn lemma_position_prefix_plot(plots: Seq<PlotAreaView>, id: usize, i: int)
    requires
        0 <= i <= plots.len(),
        plot_position(plots.take(i), id) is Some,
    ensures
        plot_position(plots, id) == plot_position(plots.take(i), id),
    decreases plots.len(),
{
    if i < plots.len() {
        assert(plots.drop_last().take(i) == plots.take(i));
        lemma_position_prefix_plot(plots.drop_last(), id, i);
    } else {
        assert(plots.take(i) == plots);
    }
}

proof fn lemma_position_prefix_holding(plots: Seq<PlotAreaView>, c: usize, i: int)
    requires
        0 <= i <= plots.len(),
        plot_holding(plots.take(i), c) is Some,
    ensures
        plot_holding(plots, c) == plot_holding(plots.take(i), c),
    decreases plots.len(),
{
    if i < plots.len() {
        assert(plots.drop_last().take(i) == plots.take(i));
        lemma_position_prefix_holding(plots.drop_last(), c, i);
    } else {
        assert(plots.take(i) == plots);
    }
}

impl UltraLogApp {
    /// The initial state: no files and no tabs, the log viewer and the file
    /// panel shown, playback stopped, the standard palette in use.
    pub fn with_palettes(
        chart_colors: Vec<[u8; 3]>,
        colorblind_colors: Vec<[u8; 3]>,
        limits: Limits,
        texts: ToastTexts,
    ) -> (app: UltraLogApp)
        requires
            chart_colors.len() > 0,
            colorblind_colors.len() > 0,
        ensures
            app@.wf(),
            app@ == (AppView {
                files: Seq::empty(),
                selected_file: None,
                toast: None,
                tabs: Seq::empty(),
                active_tab: None,
                color_blind_mode: false,
                chart_colors: chart_colors@,
                colorblind_colors: colorblind_colors@,
                limits,
                active_tool: ActiveTool::LogViewer,
                active_panel: ActivePanel::Files,
                is_playing: false,
                texts: texts@,
            }),
    {
        let app = UltraLogApp {
            files: Vec::new(),
            selected_file: None,
            toast_message: None,
            tabs: Vec::new(),
            active_tab: None,
            color_blind_mode: false,
            chart_colors,
            colorblind_colors,
            limits,
            active_tool: ActiveTool::LogViewer,
            active_panel: ActivePanel::Files,
            is_playing: false,
            texts,
        };
        assert(app@.files =~= Seq::empty());
        assert(app@.tabs =~= Seq::empty());
        app
    }

    /// Color of a channel, from the palette chosen by the colorblind
    /// setting.
    pub fn get_channel_color(&self, color_index: usize) -> (c: [u8; 3])
        requires
            self@.wf(),
        ensures
            c == (if self.color_blind_mode {
                self.colorblind_colors@[(color_index % self.colorblind_colors.len()) as int]
            } else {
                self.chart_colors@[(color_index % self.chart_colors.len()) as int]
            }),
    {
        if self.color_blind_mode {
            self.colorblind_colors[color_index % self.colorblind_colors.len()]
        } else {
            self.chart_colors[color_index % self.chart_colors.len()]
        }
    }

    /// Shows a toast of the given type.
    pub fn show_toast_with_type(&mut self, message: &str, toast_type: ToastType)
        ensures
            final(self)@ == old(self)@.with_toast(message@, toast_type),
    {
        self.toast_message = Some((message.to_owned(), toast_type));
    }

    /// Shows an info toast.
    pub fn show_toast(&mut self, message: &str)
        ensures
            final(self)@ == old(self)@.with_toast(message@, ToastType::Info),
    {
        self.show_toast_with_type(message, ToastType::Info);
    }

    /// Shows a success toast.
    pub fn show_toast_success(&mut self, message: &str)
        ensures
            final(self)@ == old(self)@.with_toast(message@, ToastType::Success),
    {
        self.show_toast_with_type(message, ToastType::Success);
    }

    /// Shows a warning toast.
    pub fn show_toast_warning(&mut self, message: &str)
        ensures
            final(self)@ == old(self)@.with_toast(message@, ToastType::Warning),
    {
        self.show_toast_with_type(message, ToastType::Warning);
    }

    /// Shows an error toast.
    pub fn show_toast_error(&mut self, message: &str)
        ensures
            final(self)@ == old(self)@.with_toast(message@, ToastType::Error),
    {
        self.show_toast_with_type(message, ToastType::Error);
    }

    /// Closes tab `tab_index`; the active tab moves to stay on the same tab,
    /// or to the last tab when it was past the end.
    pub fn close_tab(&mut self, tab_index: usize)
        ensures
            final(self)@ == old(self)@.close_tab(tab_index),
    {
        if tab_index >= self.tabs.len() {
            return;
        }
        let ghost old_tabs = self.tabs@;
        self.tabs.remove(tab_index);
        assert(self.tabs@.map_values(|t: Tab| t@) =~= old_tabs.map_values(|t: Tab| t@).remove(
            tab_index as int,
        ));
        if self.tabs.len() == 0 {
            self.active_tab = None;
            self.selected_file = None;
        } else if let Some(active) = self.active_tab {
            if active >= self.tabs.len() {
                self.active_tab = Some(self.tabs.len() - 1);
            } else if active > tab_index {
                self.active_tab = Some(active - 1);
            }
            if let Some(tab_idx) = self.active_tab {
                self.selected_file = Some(self.tabs[tab_idx].file_index);
            }
        }
    }
}

/// Position of the first selected channel that is file `f`'s channel `c`.
pub open spec fn selected_position(sel: Seq<SelectedChannel>, f: usize, c: usize) -> Option<int>
    decreases sel.len(),
{
    if sel.len() == 0 {
        None
    } else {
        match selected_position(sel.drop_last(), f, c) {
            Some(i) => Some(i),
            None => if sel.last().file_index == f && sel.last().channel_index == c {
                Some(sel.len() - 1)
            } else {
                None
            },
        }
    }
}

/// Where `selected_position` points, the selection holds the channel.
pub proof fn lemma_selected_position(sel: Seq<SelectedChannel>, f: usize, c: usize)
    ensures
        selected_position(sel, f, c) matches Some(i) ==> 0 <= i < sel.len()
            && sel[i].file_index == f && sel[i].channel_index == c,
    decreases sel.len(),
{
    if sel.len() > 0 {
        lemma_selected_position(sel.drop_last(), f, c);
    }
}

proof fn lemma_selected_position_prefix(sel: Seq<SelectedChannel>, f: usize, c: usize, i: int)
    requires
        0 <= i <= sel.len(),
        selected_position(sel.take(i), f, c) is Some,
    ensures
        selected_position(sel, f, c) == selected_position(sel.take(i), f, c),
    decreases sel.len(),
{
    if i < sel.len() {
        assert(sel.drop_last().take(i) == sel.take(i));
        lemma_selected_position_prefix(sel.drop_last(), f, c, i);
    } else {
        assert(sel.take(i) == sel);
    }
}

/// Position of the first selected channel that is file `f`'s channel `c`.
fn find_selected(sel: &[SelectedChannel], f: usize, c: usize) -> (res: Option<usize>)
    ensures
        res matches Some(i) ==> selected_position(sel@, f, c) == Some(i as int),
        res is None ==> selected_position(sel@, f, c) is None,
{
    let mut i: usize = 0;
    while i < sel.len()
        invariant
            i <= sel.len(),
            selected_position(sel@.take(i as int), f, c) is None,
        decreases sel.len() - i,
    {
        assert(sel@.take(i + 1).drop_last() =~= sel@.take(i as int));
        if sel[i].file_index == f && sel[i].channel_index == c {
            proof {
                assert(selected_position(sel@.take(i + 1), f, c) == Some(i as int));
                lemma_selected_position_prefix(sel@, f, c, i + 1);
            }
            return Some(i);
        }
        i = i + 1;
    }
    assert(sel@.take(i as int) =~= sel@);
    None
}

impl AppView {
    /// The state after a click on file `f`'s channel `c` in the channel
    /// list: a selected channel is removed, another one added.
    pub open spec fn toggle_channel(self, f: usize, c: usize) -> AppView {
        match selected_position(self.selected_channels(), f, c) {
            Some(i) => self.remove_channel_from_plot(i as usize),
            None => self.add_channel(f, c),
        }
    }
}

impl UltraLogApp {
    /// Handles a click on file `file_index`'s channel `channel_index` in the
    /// channel list: removes the channel when it is selected, adds it
    /// otherwise.
    pub fn toggle_channel(&mut self, file_index: usize, channel_index: usize)
        requires
            old(self)@.wf(),
            selected_position(old(self)@.selected_channels(), file_index, channel_index) is None
                && old(self)@.add_channel_reads_channel(file_index, channel_index)
                ==> channel_index < old(self).files@[file_index as int].channel_names.len(),
        ensures
            final(self)@ == old(self)@.toggle_channel(file_index, channel_index),
    {
        let pos = find_selected(self.get_selected_channels(), file_index, channel_index);
        match pos {
            Some(i) => self.remove_channel(i),
            None => self.add_channel(file_index, channel_index),
        }
    }
}

} // verus!
