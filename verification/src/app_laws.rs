//! Properties that the application-state operations keep.

use vstd::prelude::*;

use crate::app::{
    first_with_capacity, plot_holding, plot_position, tab_position, AppView, PlotAreaView,
    TabView,
};
use crate::indices::{drop_ref, without};

verus! {

/// Every plot area of the tab lists only existing selected channels.
pub open spec fn plots_valid(tab: TabView) -> bool {
    forall|p: int, k: int|
        0 <= p < tab.plot_areas.len() && 0 <= k < tab.plot_areas[p].channel_indices.len()
            ==> #[trigger] tab.plot_areas[p].channel_indices[k] < tab.selected_channels.len()
}

/// Every tab's plot areas list only existing selected channels.
pub open spec fn all_plots_valid(app: AppView) -> bool {
    forall|t: int| 0 <= t < app.tabs.len() ==> plots_valid(#[trigger] app.tabs[t])
}

/// The plot area ids of the tab are distinct and below its next id.
pub open spec fn plot_ids_fresh(tab: TabView) -> bool {
    &&& forall|p: int| 0 <= p < tab.plot_areas.len() ==> #[trigger] tab.plot_areas[p].id < tab.next_plot_area_id
    &&& forall|p: int, q: int|
        0 <= p < tab.plot_areas.len() && 0 <= q < tab.plot_areas.len() && p != q
            ==> #[trigger] tab.plot_areas[p].id != #[trigger] tab.plot_areas[q].id
}

proof fn lemma_drop_ref_bound(s: Seq<usize>, c: usize, n: nat)
    requires
        c < n,
        forall|k: int| 0 <= k < s.len() ==> #[trigger] s[k] < n,
    ensures
        forall|k: int| 0 <= k < drop_ref(s, c).len() ==> #[trigger] drop_ref(s, c)[k] < n - 1,
    decreases s.len(),
{
    if s.len() > 0 {
        let p = s.drop_last();
        assert forall|k: int| 0 <= k < p.len() implies #[trigger] p[k] < n by {
            assert(p[k] == s[k]);
        }
        lemma_drop_ref_bound(p, c, n);
        assert(s.last() == s[s.len() - 1]);
        let r = drop_ref(p, c);
        let d = drop_ref(s, c);
        assert forall|k: int| 0 <= k < d.len() implies #[trigger] d[k] < n - 1 by {
            if k < r.len() {
                assert(d[k] == r[k]);
            }
        }
    }
}

proof fn lemma_without_bound(s: Seq<usize>, c: usize, n: nat)
    requires
        forall|k: int| 0 <= k < s.len() ==> #[trigger] s[k] < n,
    ensures
        forall|k: int| 0 <= k < without(s, c).len() ==> #[trigger] without(s, c)[k] < n,
    decreases s.len(),
{
    if s.len() > 0 {
        let p = s.drop_last();
        assert forall|k: int| 0 <= k < p.len() implies #[trigger] p[k] < n by {
            assert(p[k] == s[k]);
        }
        lemma_without_bound(p, c, n);
        assert(s.last() == s[s.len() - 1]);
        let r = without(p, c);
        let d = without(s, c);
        assert forall|k: int| 0 <= k < d.len() implies #[trigger] d[k] < n by {
            if k < r.len() {
                assert(d[k] == r[k]);
            }
        }
    }
}

proof fn lemma_with_tab_wf(app: AppView, t: int, tab: TabView)
    requires
        app.wf(),
        0 <= t < app.tabs.len(),
        tab.file_index == app.tabs[t].file_index,
    ensures
        app.with_tab(t, tab).wf(),
{
    let a2 = app.with_tab(t, tab);
    assert forall|i: int| 0 <= i < a2.tabs.len() implies #[trigger] a2.tabs[i].file_index
        == app.tabs[i].file_index by {}
}

/// Closing a tab keeps the state well-formed, and afterwards the selected
/// file is the active tab's file.
pub proof fn law_close_tab_wf(app: AppView, tab_index: usize)
    requires
        app.wf(),
    ensures
        app.close_tab(tab_index).wf(),
        tab_index < app.tabs.len() && app.active_tab is Some ==> ({
            let a2 = app.close_tab(tab_index);
            a2.active_tab matches Some(t) ==> a2.selected_file == Some(
                a2.tabs[t as int].file_index,
            )
        }),
{
    if tab_index < app.tabs.len() {
        let a2 = app.close_tab(tab_index);
        let tabs = app.tabs.remove(tab_index as int);
        assert(a2.tabs == tabs);
        assert forall|i: int| 0 <= i < tabs.len() implies #[trigger] tabs[i].file_index
            < app.files.len() by {
            if i < tab_index {
                assert(tabs[i] == app.tabs[i]);
            } else {
                assert(tabs[i] == app.tabs[i + 1]);
            }
        }
        assert forall|i: int, j: int|
            0 <= i < tabs.len() && 0 <= j < tabs.len() && i != j implies #[trigger] tabs[i].file_index
            != #[trigger] tabs[j].file_index by {
            let ii = if i < tab_index {
                i
            } else {
                i + 1
            };
            let jj = if j < tab_index {
                j
            } else {
                j + 1
            };
            assert(tabs[i] == app.tabs[ii]);
            assert(tabs[j] == app.tabs[jj]);
        }
    }
}

/// Closing a tab other than the active one keeps the same tab active.
pub proof fn law_close_tab_keeps_active(app: AppView, tab_index: usize)
    requires
        app.wf(),
        tab_index < app.tabs.len(),
        app.active_tab matches Some(a) && a != tab_index,
    ensures
        app.close_tab(tab_index).active_tab matches Some(b) && app.close_tab(tab_index).tabs[b as int]
            == app.tabs[app.active_tab->0 as int],
{
    let a = app.active_tab->0;
    let tabs = app.tabs.remove(tab_index as int);
    if a > tab_index {
        assert(tabs[a - 1] == app.tabs[a as int]);
    } else {
        assert(tabs[a as int] == app.tabs[a as int]);
    }
}

/// Switching to a file's tab keeps the state well-formed, activates a tab
/// that views that file, and selects the file.
pub proof fn law_switch_to_file_tab(app: AppView, file_index: usize)
    requires
        app.wf(),
        file_index < app.files.len(),
        app.tabs.len() < usize::MAX,
    ensures
        app.switch_to_file_tab(file_index).wf(),
        app.switch_to_file_tab(file_index).active_tab is Some,
        app.switch_to_file_tab(file_index).tabs[app.switch_to_file_tab(
            file_index,
        ).active_tab->0 as int].file_index == file_index,
        app.switch_to_file_tab(file_index).selected_file == Some(file_index),
{
    crate::app::lemma_tab_position(app.tabs, file_index);
    let a2 = app.switch_to_file_tab(file_index);
    if tab_position(app.tabs, file_index) is None {
        let tabs = a2.tabs;
        assert forall|i: int| 0 <= i < tabs.len() implies #[trigger] tabs[i].file_index
            < a2.files.len() by {
            if i < app.tabs.len() {
                assert(tabs[i] == app.tabs[i]);
            }
        }
        assert forall|i: int, j: int|
            0 <= i < tabs.len() && 0 <= j < tabs.len() && i != j implies #[trigger] tabs[i].file_index
            != #[trigger] tabs[j].file_index by {
            if i < app.tabs.len() {
                assert(tabs[i] == app.tabs[i]);
            }
            if j < app.tabs.len() {
                assert(tabs[j] == app.tabs[j]);
            }
        }
    }
}


/// The tabs left after closing the tab of file `index`, if it has one.
pub open spec fn tabs_without_file(app: AppView, index: usize) -> Seq<TabView> {
    match tab_position(app.tabs, index) {
        Some(t) => app.tabs.remove(t),
        None => app.tabs,
    }
}

/// The tabs that do not view file `index`, in order.
pub open spec fn tabs_of_other_files(tabs: Seq<TabView>, index: usize) -> Seq<TabView>
    decreases tabs.len(),
{
    if tabs.len() == 0 {
        Seq::empty()
    } else {
        let rest = tabs_of_other_files(tabs.drop_last(), index);
        if tabs.last().file_index == index {
            rest
        } else {
            rest.push(tabs.last())
        }
    }
}

proof fn lemma_other_files_none(tabs: Seq<TabView>, index: usize)
    requires
        forall|i: int| 0 <= i < tabs.len() ==> #[trigger] tabs[i].file_index != index,
    ensures
        tabs_of_other_files(tabs, index) == tabs,
    decreases tabs.len(),
{
    if tabs.len() > 0 {
        let p = tabs.drop_last();
        assert forall|i: int| 0 <= i < p.len() implies #[trigger] p[i].file_index != index by {
            assert(p[i] == tabs[i]);
        }
        lemma_other_files_none(p, index);
        assert(tabs.last() == tabs[tabs.len() - 1]);
        assert(p.push(tabs.last()) =~= tabs);
    }
}

proof fn lemma_other_files_one(tabs: Seq<TabView>, index: usize, t: int)
    requires
        0 <= t < tabs.len(),
        tabs[t].file_index == index,
        forall|i: int| 0 <= i < tabs.len() && i != t ==> #[trigger] tabs[i].file_index != index,
    ensures
        tabs_of_other_files(tabs, index) == tabs.remove(t),
    decreases tabs.len(),
{
    let p = tabs.drop_last();
    assert(tabs.last() == tabs[tabs.len() - 1]);
    if t == tabs.len() - 1 {
        assert forall|i: int| 0 <= i < p.len() implies #[trigger] p[i].file_index != index by {
            assert(p[i] == tabs[i]);
        }
        lemma_other_files_none(p, index);
        assert(tabs.remove(t) =~= p);
    } else {
        assert(p[t] == tabs[t]);
        assert forall|i: int| 0 <= i < p.len() && i != t implies #[trigger] p[i].file_index
            != index by {
            assert(p[i] == tabs[i]);
        }
        lemma_other_files_one(p, index, t);
        assert(p.remove(t).push(tabs.last()) =~= tabs.remove(t));
    }
}

/// Removing a file keeps the state well-formed and removes it from the file
/// list; the tabs left are those of the other files, in order, with later
/// files' tabs and channels renumbered down by one and nothing else about
/// them changed (a selected channel keeps its channel and its color);
/// every remaining tab views the same file as before, its selected channels that referred to
/// that file still do, and the selected file is the active tab's file.
pub proof fn law_remove_file(app: AppView, index: usize)
    requires
        app.wf(),
        index < app.files.len(),
        app.tabs.len() <= usize::MAX,
    ensures
        ({
            let a2 = app.remove_file(index);
            let before = tabs_without_file(app, index);
            &&& a2.files == app.files.remove(index as int)
            &&& a2.tabs == tabs_of_other_files(app.tabs, index).map_values(
                |tab: TabView| crate::app::shift_tab(tab, index),
            )
            &&& a2.selected_file == (match a2.active_tab {
                Some(t) => Some(a2.tabs[t as int].file_index),
                None => None,
            })
            &&& forall|j: int|
                0 <= j < a2.tabs.len() ==> {
                    &&& #[trigger] a2.tabs[j] == TabView {
                        file_index: a2.tabs[j].file_index,
                        selected_channels: a2.tabs[j].selected_channels,
                        ..before[j]
                    }
                    &&& a2.tabs[j].file_index == if before[j].file_index > index {
                        before[j].file_index - 1
                    } else {
                        before[j].file_index as int
                    }
                    &&& a2.tabs[j].selected_channels.len() == before[j].selected_channels.len()
                }
            &&& forall|j: int, k: int|
                0 <= j < a2.tabs.len() && 0 <= k < before[j].selected_channels.len() ==> {
                    let c = before[j].selected_channels[k];
                    let c2 = #[trigger] a2.tabs[j].selected_channels[k];
                    &&& c2.channel_index == c.channel_index
                    &&& c2.color_index == c.color_index
                    &&& c2.file_index == if before[j].file_index > index && c.file_index > index {
                        c.file_index - 1
                    } else {
                        c.file_index as int
                    }
                }
            &&& a2.wf()
            &&& a2.tabs.len() == before.len()
            &&& forall|j: int|
                0 <= j < a2.tabs.len() ==> a2.files[#[trigger] a2.tabs[j].file_index as int]
                    == app.files[before[j].file_index as int]
            &&& forall|j: int, k: int|
                0 <= j < a2.tabs.len() && 0 <= k < before[j].selected_channels.len()
                    && before[j].selected_channels[k].file_index == before[j].file_index
                    ==> #[trigger] a2.tabs[j].selected_channels[k].file_index
                    == a2.tabs[j].file_index
            &&& a2.active_tab matches Some(t) ==> a2.selected_file == Some(
                a2.tabs[t as int].file_index,
            )
        }),
{
    crate::app::lemma_tab_position(app.tabs, index);
    match tab_position(app.tabs, index) {
        Some(t) => {
            assert forall|i: int| 0 <= i < app.tabs.len() && i != t implies #[trigger] app.tabs[i].file_index
                != index by {
                assert(app.tabs[i].file_index != app.tabs[t].file_index);
            }
            lemma_other_files_one(app.tabs, index, t);
        },
        None => lemma_other_files_none(app.tabs, index),
    }
    let s1 = match tab_position(app.tabs, index) {
        Some(t) => app.close_tab(t as usize),
        None => app,
    };
    let before = tabs_without_file(app, index);
    assert(s1.tabs == before);
    if let Some(t) = tab_position(app.tabs, index) {
        law_close_tab_wf(app, t as usize);
    }
    assert(s1.wf());
    assert forall|j: int| 0 <= j < before.len() implies #[trigger] before[j].file_index
        != index by {
        if let Some(t) = tab_position(app.tabs, index) {
            let jj = if j < t {
                j
            } else {
                j + 1
            };
            assert(before[j] == app.tabs[jj]);
            assert(jj != t);
        }
    }
    let a2 = app.remove_file(index);
    assert forall|j: int| 0 <= j < a2.tabs.len() implies a2.files[#[trigger] a2.tabs[j].file_index
        as int] == app.files[before[j].file_index as int] && a2.tabs[j].file_index < a2.files.len() by {
        assert(a2.tabs[j] == crate::app::shift_tab(before[j], index));
    }
    assert forall|i: int, j: int|
        0 <= i < a2.tabs.len() && 0 <= j < a2.tabs.len() && i != j implies #[trigger] a2.tabs[i].file_index
        != #[trigger] a2.tabs[j].file_index by {
        assert(a2.tabs[i] == crate::app::shift_tab(before[i], index));
        assert(a2.tabs[j] == crate::app::shift_tab(before[j], index));
        assert(before[i].file_index != before[j].file_index);
    }
    assert forall|j: int, k: int|
        0 <= j < a2.tabs.len() && 0 <= k < before[j].selected_channels.len()
            && before[j].selected_channels[k].file_index == before[j].file_index
            implies #[trigger] a2.tabs[j].selected_channels[k].file_index
        == a2.tabs[j].file_index by {
        assert(a2.tabs[j] == crate::app::shift_tab(before[j], index));
    }
    assert forall|j: int| 0 <= j < a2.tabs.len() implies {
        &&& #[trigger] a2.tabs[j] == TabView {
            file_index: a2.tabs[j].file_index,
            selected_channels: a2.tabs[j].selected_channels,
            ..before[j]
        }
        &&& a2.tabs[j].file_index == if before[j].file_index > index {
            before[j].file_index - 1
        } else {
            before[j].file_index as int
        }
        &&& a2.tabs[j].selected_channels.len() == before[j].selected_channels.len()
    } by {
        assert(a2.tabs[j] == crate::app::shift_tab(before[j], index));
    }
    assert forall|j: int, k: int|
        0 <= j < a2.tabs.len() && 0 <= k < before[j].selected_channels.len() implies {
            let c = before[j].selected_channels[k];
            let c2 = #[trigger] a2.tabs[j].selected_channels[k];
            &&& c2.channel_index == c.channel_index
            &&& c2.color_index == c.color_index
            &&& c2.file_index == if before[j].file_index > index && c.file_index > index {
                c.file_index - 1
            } else {
                c.file_index as int
            }
        } by {
        assert(a2.tabs[j] == crate::app::shift_tab(before[j], index));
        if before[j].file_index > index {
            assert(a2.tabs[j].selected_channels[k] == crate::app::shift_selected(
                before[j].selected_channels[k],
                index,
            ));
        }
    }
}


proof fn lemma_with_tab_valid(app: AppView, t: int, tab: TabView)
    requires
        all_plots_valid(app),
        0 <= t < app.tabs.len(),
        plots_valid(tab),
    ensures
        all_plots_valid(app.with_tab(t, tab)),
{
    let a2 = app.with_tab(t, tab);
    assert forall|i: int| 0 <= i < a2.tabs.len() implies plots_valid(#[trigger] a2.tabs[i]) by {
        if i != t {
            assert(a2.tabs[i] == app.tabs[i]);
        }
    }
}

/// Removing a selected channel keeps the state well-formed and every plot
/// area listing only existing channels.
pub proof fn law_remove_channel_keeps_plots_valid(app: AppView, c: usize)
    requires
        app.wf(),
        all_plots_valid(app),
    ensures
        app.remove_channel_from_plot(c).wf(),
        all_plots_valid(app.remove_channel_from_plot(c)),
{
    if let Some(t) = app.active_tab {
        let tab = app.tabs[t as int];
        if c < tab.selected_channels.len() {
            assert(plots_valid(tab));
            let n = tab.selected_channels.len();
            let tab2 = app.remove_channel_from_plot(c).tabs[t as int];
            assert forall|p: int, k: int|
                0 <= p < tab2.plot_areas.len() && 0 <= k < tab2.plot_areas[p].channel_indices.len()
                    implies #[trigger] tab2.plot_areas[p].channel_indices[k]
                < tab2.selected_channels.len() by {
                let s = tab.plot_areas[p].channel_indices;
                assert forall|j: int| 0 <= j < s.len() implies #[trigger] s[j] < n by {
                    assert(tab.plot_areas[p].channel_indices[j] < n);
                }
                lemma_drop_ref_bound(s, c, n);
            }
            lemma_with_tab_wf(app, t as int, tab2);
            lemma_with_tab_valid(app, t as int, tab2);
        }
    }
}

/// Moving a channel between plot areas keeps the state well-formed and
/// every plot area listing only existing channels.
pub proof fn law_move_channel_keeps_plots_valid(app: AppView, c: usize, target: usize)
    requires
        app.wf(),
        all_plots_valid(app),
    ensures
        app.move_channel_to_plot(c, target).wf(),
        all_plots_valid(app.move_channel_to_plot(c, target)),
{
    if let Some(t) = app.active_tab {
        let tab = app.tabs[t as int];
        assert(plots_valid(tab));
        crate::app::lemma_plot_holding(tab.plot_areas, c);
        crate::app::lemma_plot_position(tab.plot_areas, target);
        if let (Some(cur), Some(tgt)) = (
            plot_holding(tab.plot_areas, c),
            plot_position(tab.plot_areas, target),
        ) {
            if cur != tgt && tab.plot_areas[tgt].channel_indices.len()
                < app.limits.max_channels_per_plot {
                let n = tab.selected_channels.len();
                let tab2 = app.move_channel_to_plot(c, target).tabs[t as int];
                let from = tab.plot_areas[cur].channel_indices;
                assert(c < n) by {
                    let k = choose|k: int| 0 <= k < from.len() && from[k] == c;
                    assert(tab.plot_areas[cur].channel_indices[k] < n);
                }
                assert forall|j: int| 0 <= j < from.len() implies #[trigger] from[j] < n by {
                    assert(tab.plot_areas[cur].channel_indices[j] < n);
                }
                lemma_without_bound(from, c, n);
                assert forall|p: int, k: int|
                    0 <= p < tab2.plot_areas.len() && 0 <= k
                        < tab2.plot_areas[p].channel_indices.len() implies #[trigger] tab2.plot_areas[p].channel_indices[k]
                    < tab2.selected_channels.len() by {
                    if p == tgt {
                        if k < tab.plot_areas[tgt].channel_indices.len() {
                            assert(tab.plot_areas[tgt].channel_indices[k] < n);
                        }
                    } else if p != cur {
                        assert(tab.plot_areas[p].channel_indices[k] < n);
                    }
                }
                lemma_with_tab_wf(app, t as int, tab2);
                lemma_with_tab_valid(app, t as int, tab2);
            }
        }
    }
}

/// Adding a channel to a plot area keeps the state well-formed and every
/// plot area listing only existing channels.
pub proof fn law_add_channel_to_plot_keeps_plots_valid(app: AppView, f: usize, c: usize, id: usize)
    requires
        app.wf(),
        all_plots_valid(app),
    ensures
        app.add_channel_to_plot(f, c, id).wf(),
        all_plots_valid(app.add_channel_to_plot(f, c, id)),
{
    if app.add_to_plot_refusal(f, c, id) is None {
        let t = app.active_tab->0 as int;
        let tab = app.tabs[t];
        assert(plots_valid(tab));
        crate::app::lemma_plot_position(tab.plot_areas, id);
        let p0 = plot_position(tab.plot_areas, id)->0;
        let tab2 = app.add_channel_to_plot(f, c, id).tabs[t];
        assert forall|p: int, k: int|
            0 <= p < tab2.plot_areas.len() && 0 <= k < tab2.plot_areas[p].channel_indices.len()
                implies #[trigger] tab2.plot_areas[p].channel_indices[k]
            < tab2.selected_channels.len() by {
            if p != p0 || k < tab.plot_areas[p].channel_indices.len() {
                assert(tab.plot_areas[p].channel_indices[k] < tab.selected_channels.len());
            }
        }
        lemma_with_tab_wf(app, t, tab2);
        lemma_with_tab_valid(app, t, tab2);
    }
}

/// Adding a channel keeps the state well-formed and every plot area
/// listing only existing channels.
pub proof fn law_add_channel_keeps_plots_valid(app: AppView, f: usize, c: usize)
    requires
        app.wf(),
        all_plots_valid(app),
    ensures
        app.add_channel(f, c).wf(),
        all_plots_valid(app.add_channel(f, c)),
{
    if let Some(t) = app.active_tab {
        let tab = app.tabs[t as int];
        assert(plots_valid(tab));
        if f == tab.file_index {
            if tab.stacked_mode {
                crate::app::lemma_first_with_capacity(
                    tab.plot_areas,
                    app.limits.max_channels_per_plot,
                );
                if let Some(p) = first_with_capacity(
                    tab.plot_areas,
                    app.limits.max_channels_per_plot,
                ) {
                    law_add_channel_to_plot_keeps_plots_valid(app, f, c, tab.plot_areas[p].id);
                }
            } else if tab.selected_channels.len() < app.limits.max_channels
                && !crate::app::is_selected(tab.selected_channels, f, c) {
                let tab2 = app.add_channel(f, c).tabs[t as int];
                assert forall|p: int, k: int|
                    0 <= p < tab2.plot_areas.len() && 0 <= k
                        < tab2.plot_areas[p].channel_indices.len() implies #[trigger] tab2.plot_areas[p].channel_indices[k]
                    < tab2.selected_channels.len() by {
                    if p != 0 || k < tab.plot_areas[p].channel_indices.len() {
                        assert(tab.plot_areas[p].channel_indices[k]
                            < tab.selected_channels.len());
                    }
                }
                lemma_with_tab_wf(app, t as int, tab2);
                lemma_with_tab_valid(app, t as int, tab2);
            }
        }
    }
}

/// Toggling stacked mode keeps the state well-formed, every plot area
/// listing only existing channels, and plot area ids distinct and below
/// the next id.
pub proof fn law_toggle_stacked_mode(app: AppView)
    requires
        app.wf(),
        all_plots_valid(app),
        app.active_tab matches Some(t) ==> plot_ids_fresh(app.tabs[t as int]),
    ensures
        app.toggle_stacked_mode().wf(),
        all_plots_valid(app.toggle_stacked_mode()),
        app.toggle_stacked_mode().active_tab matches Some(t) ==> plot_ids_fresh(
            app.toggle_stacked_mode().tabs[t as int],
        ),
{
    if let Some(t) = app.active_tab {
        let tab = app.tabs[t as int];
        assert(plots_valid(tab));
        let n = tab.selected_channels.len();
        let tab2 = app.toggle_stacked_mode().tabs[t as int];
        assert forall|p: int, k: int|
            0 <= p < tab2.plot_areas.len() && 0 <= k < tab2.plot_areas[p].channel_indices.len()
                implies #[trigger] tab2.plot_areas[p].channel_indices[k]
            < tab2.selected_channels.len() by {
            if tab.plot_areas.len() > 0 && (tab.stacked_mode || p != 0 || tab.plot_areas[0].channel_indices.len() != 0 || n == 0) {
                if !(p == 0 && (tab.stacked_mode || (n > 0 && tab.plot_areas[0].channel_indices.len() == 0))) {
                    assert(tab.plot_areas[p].channel_indices[k] < n);
                }
            }
        }
        lemma_with_tab_wf(app, t as int, tab2);
        lemma_with_tab_valid(app, t as int, tab2);
        let a2 = app.toggle_stacked_mode();
        assert(a2.tabs[t as int] == tab2);
        assert(plot_ids_fresh(tab2)) by {
            if tab.stacked_mode && tab.plot_areas.len() > 0 {
                assert(tab2.plot_areas[0].id == tab.plot_areas[0].id);
            } else if !tab.stacked_mode && tab.plot_areas.len() > 0 {
                assert forall|p: int| 0 <= p < tab2.plot_areas.len() implies #[trigger] tab2.plot_areas[p].id
                    == tab.plot_areas[p].id by {}
            }
        }
    }
}

/// Creating a plot area keeps the state well-formed, every plot area
/// listing only existing channels, and plot area ids distinct and below
/// the next id.
pub proof fn law_create_plot_area(app: AppView, name: Seq<char>)
    requires
        app.wf(),
        all_plots_valid(app),
        app.active_tab matches Some(t) ==> plot_ids_fresh(app.tabs[t as int]),
        app.active_tab matches Some(t) ==> app.tabs[t as int].next_plot_area_id < usize::MAX,
    ensures
        app.create_plot_area(name).wf(),
        all_plots_valid(app.create_plot_area(name)),
        app.create_plot_area(name).active_tab matches Some(t) ==> plot_ids_fresh(
            app.create_plot_area(name).tabs[t as int],
        ),
        app.active_tab matches Some(t) ==> (app.tabs[t as int].plot_areas.len()
            <= crate::app::MAX_PLOT_AREAS ==> app.create_plot_area(name).tabs[t as int].plot_areas.len()
            <= crate::app::MAX_PLOT_AREAS),
        app.active_tab matches Some(t) ==> ({
            let a2 = app.create_plot_area(name);
            let tab = app.tabs[t as int];
            if tab.plot_areas.len() < crate::app::MAX_PLOT_AREAS {
                &&& a2.tabs.len() == app.tabs.len()
                &&& a2.tabs[t as int].plot_areas == tab.plot_areas.push(
                    PlotAreaView { id: tab.next_plot_area_id, name, channel_indices: Seq::empty() },
                )
                &&& a2.tabs[t as int].next_plot_area_id == tab.next_plot_area_id + 1
                &&& a2.tabs[t as int].selected_channels == tab.selected_channels
                &&& forall|u: int| 0 <= u < app.tabs.len() && u != t ==> a2.tabs[u] == app.tabs[u]
                &&& a2.toast == Some(("Plot area created"@, crate::app::ToastType::Success))
            } else {
                a2 == app.with_toast(
                    "Maximum 10 plot areas allowed"@,
                    crate::app::ToastType::Warning,
                )
            }
        }),
{
    if let Some(t) = app.active_tab {
        let tab = app.tabs[t as int];
        assert(plots_valid(tab));
        if tab.plot_areas.len() < crate::app::MAX_PLOT_AREAS {
            let tab2 = app.create_plot_area(name).tabs[t as int];
            assert forall|p: int, k: int|
                0 <= p < tab2.plot_areas.len() && 0 <= k < tab2.plot_areas[p].channel_indices.len()
                    implies #[trigger] tab2.plot_areas[p].channel_indices[k]
                < tab2.selected_channels.len() by {
                assert(tab.plot_areas[p].channel_indices[k] < tab.selected_channels.len());
            }
            lemma_with_tab_wf(app, t as int, tab2);
            lemma_with_tab_valid(app, t as int, tab2);
        }
    }
}


proof fn lemma_drop_ref_below(s: Seq<usize>, c: usize)
    requires
        forall|k: int| 0 <= k < s.len() ==> #[trigger] s[k] < c,
    ensures
        drop_ref(s, c) == s,
    decreases s.len(),
{
    if s.len() > 0 {
        let p = s.drop_last();
        assert forall|k: int| 0 <= k < p.len() implies #[trigger] p[k] < c by {
            assert(p[k] == s[k]);
        }
        lemma_drop_ref_below(p, c);
        assert(s.last() == s[s.len() - 1]);
        assert(p.push(s.last()) =~= s);
    }
}

/// Removing the channel that an accepted add of a channel to the active tab
/// has appended gives back the state as it was.
pub proof fn law_add_then_remove_channel(app: AppView, f: usize, c: usize)
    requires
        app.wf(),
        all_plots_valid(app),
        app.add_channel_reads_channel(f, c),
    ensures
        ({
            let n = app.tabs[app.active_tab->0 as int].selected_channels.len();
            app.add_channel(f, c).remove_channel_from_plot(n as usize) == app
        }),
{
    let t = app.active_tab->0 as int;
    let tab = app.tabs[t];
    assert(plots_valid(tab));
    let n = tab.selected_channels.len();
    let a2 = app.add_channel(f, c);
    let tab2 = a2.tabs[t];
    let q: int = if tab.stacked_mode {
        let p = first_with_capacity(tab.plot_areas, app.limits.max_channels_per_plot)->0;
        crate::app::lemma_first_with_capacity(tab.plot_areas, app.limits.max_channels_per_plot);
        let id = tab.plot_areas[p].id;
        crate::app::lemma_plot_position(tab.plot_areas, id);
        plot_position(tab.plot_areas, id)->0
    } else {
        0
    };
    assert(tab2.selected_channels == tab.selected_channels.push(tab2.selected_channels.last()));
    assert(tab2.plot_areas.len() == tab.plot_areas.len());
    assert forall|p: int| 0 <= p < tab.plot_areas.len() implies #[trigger] tab2.plot_areas[p]
        == (if p == q {
        PlotAreaView {
            channel_indices: tab.plot_areas[p].channel_indices.push(n as usize),
            ..tab.plot_areas[p]
        }
    } else {
        tab.plot_areas[p]
    }) by {}
    let a3 = a2.remove_channel_from_plot(n as usize);
    let tab3 = a3.tabs[t];
    assert(tab3.selected_channels =~= tab.selected_channels);
    assert forall|p: int| 0 <= p < tab.plot_areas.len() implies #[trigger] tab3.plot_areas[p]
        == tab.plot_areas[p] by {
        let s = tab.plot_areas[p].channel_indices;
        assert forall|k: int| 0 <= k < s.len() implies #[trigger] s[k] < n by {
            assert(tab.plot_areas[p].channel_indices[k] < n);
        }
        lemma_drop_ref_below(s, n as usize);
        if p == q {
            assert(s.push(n as usize).drop_last() =~= s);
        }
    }
    assert(tab3.plot_areas =~= tab.plot_areas);
    assert(tab3 == tab);
    assert(a3.tabs =~= app.tabs);
}


proof fn lemma_remove_in_order_len(s: Seq<crate::app::SelectedChannel>, d: Seq<usize>)
    requires
        forall|i: int, j: int| 0 <= i < j < d.len() ==> d[i] > d[j],
        forall|k: int| 0 <= k < d.len() ==> #[trigger] d[k] < s.len(),
    ensures
        crate::app::remove_in_order(s, d).len() == s.len() - d.len(),
    decreases d.len(),
{
    if d.len() > 0 {
        let s2 = s.remove(d[0] as int);
        let d2 = d.drop_first();
        assert forall|k: int| 0 <= k < d2.len() implies #[trigger] d2[k] < s2.len() by {
            assert(d2[k] == d[k + 1]);
            assert(d[0] > d[k + 1]);
        }
        assert forall|i: int, j: int| 0 <= i < j < d2.len() implies d2[i] > d2[j] by {
            assert(d2[i] == d[i + 1] && d2[j] == d[j + 1]);
        }
        lemma_remove_in_order_len(s2, d2);
    }
}

/// Deleting a plot area whose channel list has no repeats keeps the state
/// well-formed, every plot area listing only existing channels, and plot
/// area ids distinct and below the next id.
pub proof fn law_delete_plot_area(app: AppView, id: usize)
    requires
        app.wf(),
        all_plots_valid(app),
        app.active_tab matches Some(t) ==> plot_ids_fresh(app.tabs[t as int]),
        app.active_tab matches Some(t) ==> app.tabs[t as int].selected_channels.len()
            < usize::MAX,
        app.active_tab matches Some(t) ==> (plot_position(app.tabs[t as int].plot_areas, id) matches Some(
            p,
        ) ==> app.tabs[t as int].plot_areas[p].channel_indices.no_duplicates()),
    ensures
        app.delete_plot_area(id).wf(),
        all_plots_valid(app.delete_plot_area(id)),
        app.delete_plot_area(id).active_tab matches Some(t) ==> plot_ids_fresh(
            app.delete_plot_area(id).tabs[t as int],
        ),
{
    if let Some(t) = app.active_tab {
        let tab = app.tabs[t as int];
        assert(plots_valid(tab));
        crate::app::lemma_plot_position(tab.plot_areas, id);
        if tab.plot_areas.len() > 1 {
            if let Some(p) = plot_position(tab.plot_areas, id) {
                let n = tab.selected_channels.len() as usize;
                let r = tab.plot_areas[p].channel_indices;
                assert forall|k: int| 0 <= k < r.len() implies #[trigger] r[k] < n by {
                    assert(tab.plot_areas[p].channel_indices[k] < n);
                }
                let d = r.sort_by(crate::indices::descending());
                crate::indices::lemma_descending_total();
                r.lemma_sort_by_ensures(crate::indices::descending());
                r.lemma_multiset_has_no_duplicates();
                broadcast use vstd::seq_lib::group_to_multiset_ensures;

                assert forall|x: usize| d.to_multiset().contains(x) implies d.to_multiset().count(x)
                    == 1 by {}
                d.lemma_multiset_has_no_duplicates_conv();
                assert(r.to_multiset().len() == d.to_multiset().len());
                assert(d.len() == r.len());
                assert forall|k: int| 0 <= k < d.len() implies #[trigger] d[k] < n by {
                    assert(d.contains(d[k]));
                    assert(r.contains(d[k]));
                }
                assert forall|i: int, j: int| 0 <= i < j < d.len() implies d[i] > d[j] by {
                    assert((crate::indices::descending())(d[i], d[j]));
                }
                lemma_remove_in_order_len(tab.selected_channels, d);
                let tab2 = app.delete_plot_area(id).tabs[t as int];
                let mapped = tab.plot_areas.map_values(
                    |q: PlotAreaView| crate::app::plot_after_delete(q, id, r),
                );
                assert(tab2.plot_areas == mapped.remove(p));
                assert(tab2.selected_channels.len() == n - r.len());
                assert forall|q: int, k: int|
                    0 <= q < tab2.plot_areas.len() && 0 <= k
                        < tab2.plot_areas[q].channel_indices.len() implies #[trigger] tab2.plot_areas[q].channel_indices[k]
                    < tab2.selected_channels.len() by {
                    let qq = if q < p {
                        q
                    } else {
                        q + 1
                    };
                    assert(tab2.plot_areas[q] == mapped[qq]);
                    assert(tab.plot_areas[qq].id != id);
                    let s = tab.plot_areas[qq].channel_indices;
                    assert forall|j: int| 0 <= j < s.len() implies #[trigger] s[j] < n by {
                        assert(tab.plot_areas[qq].channel_indices[j] < n);
                    }
                    crate::indices::lemma_drop_refs_bound(s, r, n);
                }
                lemma_with_tab_wf(app, t as int, tab2);
                lemma_with_tab_valid(app, t as int, tab2);
                assert(plot_ids_fresh(tab2)) by {
                    assert forall|q: int| 0 <= q < tab2.plot_areas.len() implies #[trigger] tab2.plot_areas[q].id
                        == tab.plot_areas[if q < p {
                        q
                    } else {
                        q + 1
                    }].id by {}
                }
            }
        }
    }
}


/// Taking in a loaded file keeps the state well-formed; the new active tab
/// views the new file, which is the selected file.
pub proof fn law_add_loaded_file(app: AppView, file: crate::app::LoadedFileView)
    requires
        app.wf(),
        all_plots_valid(app),
        app.files.len() < usize::MAX,
        app.tabs.len() < usize::MAX,
    ensures
        app.add_loaded_file(file).wf(),
        all_plots_valid(app.add_loaded_file(file)),
        app.add_loaded_file(file).active_tab == Some(app.tabs.len() as usize),
        app.add_loaded_file(file).tabs[app.tabs.len() as int].file_index == app.files.len(),
        app.add_loaded_file(file).selected_file == Some(app.files.len() as usize),
{
    let a2 = app.add_loaded_file(file);
    assert forall|i: int| 0 <= i < a2.tabs.len() implies #[trigger] a2.tabs[i].file_index
        < a2.files.len() by {
        if i < app.tabs.len() {
            assert(a2.tabs[i] == app.tabs[i]);
        }
    }
    assert forall|i: int, j: int|
        0 <= i < a2.tabs.len() && 0 <= j < a2.tabs.len() && i != j implies #[trigger] a2.tabs[i].file_index
        != #[trigger] a2.tabs[j].file_index by {
        if i < app.tabs.len() {
            assert(a2.tabs[i] == app.tabs[i]);
        }
        if j < app.tabs.len() {
            assert(a2.tabs[j] == app.tabs[j]);
        }
    }
    assert forall|t: int| 0 <= t < a2.tabs.len() implies plots_valid(#[trigger] a2.tabs[t]) by {
        if t < app.tabs.len() {
            assert(a2.tabs[t] == app.tabs[t]);
        }
    }
}

/// A second click on a channel in the channel list undoes the first, when
/// the first added the channel.
pub proof fn law_toggle_channel_twice(app: AppView, f: usize, c: usize)
    requires
        app.wf(),
        all_plots_valid(app),
        crate::app::selected_position(app.selected_channels(), f, c) is None,
        app.add_channel_reads_channel(f, c),
    ensures
        app.toggle_channel(f, c).toggle_channel(f, c) == app,
{
    let t = app.active_tab->0 as int;
    let sel = app.tabs[t].selected_channels;
    let a2 = app.add_channel(f, c);
    let sel2 = a2.tabs[t].selected_channels;
    assert(sel2.drop_last() =~= sel);
    assert(sel2.last().file_index == f && sel2.last().channel_index == c);
    assert(crate::app::selected_position(sel2, f, c) == Some(sel.len() as int));
    law_add_then_remove_channel(app, f, c);
}

/// No two selected channels are the same channel of the same file.
pub open spec fn pairs_distinct(sel: Seq<crate::app::SelectedChannel>) -> bool {
    forall|i: int, j: int|
        0 <= i < j < sel.len() ==> !(#[trigger] sel[i].file_index == #[trigger] sel[j].file_index
            && sel[i].channel_index == sel[j].channel_index)
}

/// Adding a channel changes only the active tab. Its selection keeps the
/// old one as a prefix and grows by at most the added channel; no channel
/// is selected twice; and the selection stays within the channel limit of
/// the tab's mode.
pub proof fn law_add_channel_selection(app: AppView, f: usize, c: usize)
    requires
        app.wf(),
        app.active_tab is Some,
        pairs_distinct(app.tabs[app.active_tab->0 as int].selected_channels),
    ensures
        ({
            let t = app.active_tab->0 as int;
            let a2 = app.add_channel(f, c);
            let old_sel = app.tabs[t].selected_channels;
            let new_sel = a2.tabs[t].selected_channels;
            &&& a2.active_tab == app.active_tab
            &&& a2.tabs.len() == app.tabs.len()
            &&& a2.tabs[t].file_index == app.tabs[t].file_index
            &&& forall|u: int| 0 <= u < app.tabs.len() && u != t ==> a2.tabs[u] == app.tabs[u]
            &&& (new_sel == old_sel || (new_sel == old_sel.push(new_sel.last())
                && new_sel.last().file_index == f && new_sel.last().channel_index == c))
            &&& pairs_distinct(new_sel)
            &&& !app.tabs[t].stacked_mode && old_sel.len() <= app.limits.max_channels
                ==> new_sel.len() <= app.limits.max_channels
            &&& app.tabs[t].stacked_mode && old_sel.len() <= app.limits.max_total_channels
                ==> new_sel.len() <= app.limits.max_total_channels
        }),
{
    let t = app.active_tab->0 as int;
    let tab = app.tabs[t];
    let old_sel = tab.selected_channels;
    let a2 = app.add_channel(f, c);
    let new_sel = a2.tabs[t].selected_channels;
    if new_sel != old_sel {
        assert(!crate::app::is_selected(old_sel, f, c));
        assert(new_sel.drop_last() =~= old_sel);
        assert forall|i: int, j: int| 0 <= i < j < new_sel.len() implies !(
        #[trigger] new_sel[i].file_index == #[trigger] new_sel[j].file_index
            && new_sel[i].channel_index == new_sel[j].channel_index) by {
            if j < old_sel.len() {
                assert(new_sel[i] == old_sel[i] && new_sel[j] == old_sel[j]);
            } else {
                assert(new_sel[i] == old_sel[i]);
                if new_sel[i].file_index == f && new_sel[i].channel_index == c {
                    assert(crate::app::is_selected(old_sel, f, c));
                }
            }
        }
    }
}

proof fn lemma_first_free_color(sel: Seq<crate::app::SelectedChannel>, i: int, n: int)
    requires
        0 <= i,
        n <= usize::MAX,
    ensures
        ({
            let c = crate::app::first_free_color_from(sel, i, n) as int;
            ||| (i <= c < n && (forall|k: int| 0 <= k < sel.len() ==> sel[k].color_index != c)
                && forall|d: int|
                i <= d < c ==> #[trigger] crate::app::color_used(sel, d))
            ||| (c == 0 && forall|d: int|
                i <= d < n ==> #[trigger] crate::app::color_used(sel, d))
        }),
    decreases n - i,
{
    if i < n && crate::app::color_used(sel, i) {
        lemma_first_free_color(sel, i + 1, n);
    } else if i < n {
        assert forall|k: int| 0 <= k < sel.len() implies sel[k].color_index != i by {
            if sel[k].color_index == i {
                assert(crate::app::color_used(sel, i));
            }
        }
    }
}

/// A channel added to a selection gets the first color of the palette that
/// no selected channel uses, or the first color when all are in use.
pub proof fn law_new_selection_color(app: AppView, f: usize, c: usize)
    requires
        app.wf(),
        app.active_tab is Some,
        app.chart_colors.len() <= usize::MAX,
    ensures
        ({
            let t = app.active_tab->0 as int;
            let sel = app.tabs[t].selected_channels;
            let n = app.chart_colors.len() as int;
            let color = app.new_selection(t, f, c).color_index as int;
            ||| (0 <= color < n && (forall|k: int| 0 <= k < sel.len() ==> sel[k].color_index != color)
                && forall|d: int|
                0 <= d < color ==> #[trigger] crate::app::color_used(sel, d))
            ||| (color == 0 && forall|d: int|
                0 <= d < n ==> #[trigger] crate::app::color_used(sel, d))
        }),
{
    let t = app.active_tab->0 as int;
    lemma_first_free_color(app.tabs[t].selected_channels, 0, app.chart_colors.len() as int);
}

/// Closing tab `tab_index` removes exactly that tab, keeping the others in
/// order. The active tab stays on the same tab when an earlier one is
/// closed, stays at its position when it is itself closed (showing the next
/// tab), or moves to the new last tab when it was past the end; with no tab
/// left nothing is active or selected. Closing a tab that does not exist
/// changes nothing.
pub proof fn law_close_tab_result(app: AppView, tab_index: usize)
    ensures
        tab_index >= app.tabs.len() ==> app.close_tab(tab_index) == app,
        tab_index < app.tabs.len() ==> {
            let a2 = app.close_tab(tab_index);
            let len2 = app.tabs.len() - 1;
            &&& a2.tabs.len() == len2
            &&& forall|i: int| 0 <= i < tab_index ==> #[trigger] a2.tabs[i] == app.tabs[i]
            &&& forall|i: int| tab_index <= i < len2 ==> #[trigger] a2.tabs[i] == app.tabs[i + 1]
            &&& a2.files == app.files
            &&& len2 == 0 ==> a2.active_tab is None && a2.selected_file is None
            &&& len2 > 0 ==> (match app.active_tab {
                None => a2.active_tab is None && a2.selected_file == app.selected_file,
                Some(a) => {
                    let a_new: int = if a >= len2 {
                        len2 - 1
                    } else if a > tab_index {
                        a - 1
                    } else {
                        a as int
                    };
                    &&& a2.active_tab == Some(a_new as usize)
                    &&& a2.selected_file == Some(a2.tabs[a_new].file_index)
                },
            })
        },
{
}

} // verus!
