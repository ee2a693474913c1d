//! The session state: the single mutable aggregate the event loop owns,
//! with the selection engine's operations on it.

use vstd::prelude::*;
use crate::catalog::pairs_map;
use crate::filter::filter_templates;
use crate::filter::is_fold_subseq;
use crate::filter::spec_filtered;
use crate::order::sorted_pos;
use crate::order::sorted_strict;
use crate::order::toggle_sorted;
use crate::strings::line_count;
use vstd::string::StringExecFns;
use vstd::string::StrSliceExecFns;

verus! {

/// Which part of the interface key input is directed at.
#[derive(Debug, PartialEq, Eq, Structural, Clone, Copy)]
pub enum InputMode {
    Normal,
    Editing,
    Confirm,
}

/// What the preview pane shows.
#[derive(Debug, PartialEq, Eq, Structural, Clone, Copy)]
pub enum PreviewMode {
    Highlighted,
    Combined,
}

/// The choice offered when the target file already exists.
#[derive(Debug, PartialEq, Eq, Structural, Clone, Copy)]
pub enum ConfirmAction {
    Append,
    Overwrite,
}

/// The mathematical value of a session state.
#[verifier::ext_equal]
pub struct SessionView {
    pub templates: Seq<Seq<char>>,
    pub filtered: Seq<Seq<char>>,
    pub selected: Seq<Seq<char>>,
    pub highlighted: int,
    pub query: Seq<char>,
    pub input_mode: InputMode,
    pub contents: Map<Seq<char>, Seq<char>>,
    pub is_loading: bool,
    pub error: Option<Seq<char>>,
    pub notification: Option<Seq<char>>,
    pub preview_scroll: int,
    pub preview_height: int,
    pub preview_mode: PreviewMode,
    pub confirm_action: Option<ConfirmAction>,
    pub should_quit_after_save: bool,
}

/// Application state and selection logic.
pub struct App {
    /// List of all available template names, sorted and unique.
    pub templates: Vec<String>,
    /// List of template names that match the current search query.
    pub filtered_templates: Vec<String>,
    /// Selected template names, sorted and unique.
    pub selected_templates: Vec<String>,
    /// Current index in the filtered templates list.
    pub highlighted_index: usize,
    /// Current search input string.
    pub search_query: String,
    /// Current input mode.
    pub input_mode: InputMode,
    /// Pairs of template name and raw content.
    pub template_contents: Vec<(String, String)>,
    /// Whether the application is still fetching data.
    pub is_loading: bool,
    /// Current error message to display.
    pub error: Option<String>,
    /// Current success/info notification to display.
    pub notification: Option<String>,
    /// Scroll offset for the preview pane.
    pub preview_scroll: u16,
    /// Height of the preview pane's content area, set by the renderer.
    pub preview_height: u16,
    /// Current preview view mode.
    pub preview_mode: PreviewMode,
    /// Currently selected action in the confirmation modal.
    pub confirm_action: Option<ConfirmAction>,
    /// Whether the app should exit after the next successful save.
    pub should_quit_after_save: bool,
}

impl View for App {
    type V = SessionView;

    open spec fn view(&self) -> SessionView {
        SessionView {
            templates: self.templates.deep_view(),
            filtered: self.filtered_templates.deep_view(),
            selected: self.selected_templates.deep_view(),
            highlighted: self.highlighted_index as int,
            query: self.search_query@,
            input_mode: self.input_mode,
            contents: pairs_map(self.template_contents.deep_view()),
            is_loading: self.is_loading,
            error: self.error.deep_view(),
            notification: self.notification.deep_view(),
            preview_scroll: self.preview_scroll as int,
            preview_height: self.preview_height as int,
            preview_mode: self.preview_mode,
            confirm_action: self.confirm_action,
            should_quit_after_save: self.should_quit_after_save,
        }
    }
}

/// The highlighted index re-clamped to a list of the given length: the
/// last valid index when it ran past the end, zero for an empty list.
pub open spec fn clamp_index(h: int, len: int) -> int {
    if len == 0 {
        0
    } else if h >= len {
        len - 1
    } else {
        h
    }
}

impl App {
    /// The parts of well-formedness that do not concern the filtered
    /// list: catalog and selection are sorted and unique, the selection
    /// is drawn from the catalog, and at most one status message shows.
    pub open spec fn wf_core(self) -> bool {
        &&& sorted_strict(self@.templates)
        &&& sorted_strict(self@.selected)
        &&& forall|y: Seq<char>|
            #[trigger] self@.selected.contains(y) ==> self@.templates.contains(y)
        &&& !(self@.error is Some && self@.notification is Some)
    }

    /// Full well-formedness: additionally, every filtered name is a
    /// catalog name, and the highlighted index is valid — inside the
    /// filtered list when it is non-empty, zero when it is empty.
    pub open spec fn wf(self) -> bool {
        &&& self.wf_core()
        &&& forall|i: int|
            0 <= i < self@.filtered.len() ==> self@.templates.contains(#[trigger] self@.filtered[i])
        &&& if self@.filtered.len() == 0 {
            self@.highlighted == 0
        } else {
            0 <= self@.highlighted < self@.filtered.len()
        }
    }

    /// The empty session at startup: loading, in search-editing mode,
    /// with nothing selected and nothing shown.
    pub fn new() -> (a: App)
        ensures
            a.wf(),
            a@.templates =~= Seq::<Seq<char>>::empty(),
            a@.filtered =~= Seq::<Seq<char>>::empty(),
            a@.selected =~= Seq::<Seq<char>>::empty(),
            a@.highlighted == 0,
            a@.query =~= Seq::<char>::empty(),
            a@.input_mode == InputMode::Editing,
            a@.contents =~= Map::<Seq<char>, Seq<char>>::empty(),
            a@.is_loading == true,
            a@.error is None,
            a@.notification is None,
            a@.preview_scroll == 0,
            a@.preview_height == 0,
            a@.preview_mode == PreviewMode::Highlighted,
            a@.confirm_action is None,
            a@.should_quit_after_save == false,
    {
        let a = App {
            templates: Vec::new(),
            filtered_templates: Vec::new(),
            selected_templates: Vec::new(),
            highlighted_index: 0,
            search_query: String::new(),
            input_mode: InputMode::Editing,
            template_contents: Vec::new(),
            is_loading: true,
            error: None,
            notification: None,
            preview_scroll: 0,
            preview_height: 0,
            preview_mode: PreviewMode::Highlighted,
            confirm_action: None,
            should_quit_after_save: false,
        };
        proof {
            assert(a.templates.deep_view() =~= Seq::<Seq<char>>::empty());
            assert(a.filtered_templates.deep_view() =~= Seq::<Seq<char>>::empty());
            assert(a.selected_templates.deep_view() =~= Seq::<Seq<char>>::empty());
            assert(a.template_contents.deep_view() =~= Seq::<(Seq<char>, Seq<char>)>::empty());
        }
        a
    }

    /// Recomputes the filtered list for the current query and re-clamps
    /// the highlighted index.  For a non-empty query every name shown
    /// holds the query as an in-order subsequence up to ASCII case.
    pub fn apply_filter(&mut self)
        requires
            old(self).wf_core(),
        ensures
            final(self).wf(),
            final(self)@ == (SessionView {
                filtered: spec_filtered(old(self)@.templates, old(self)@.query),
                highlighted: clamp_index(
                    old(self)@.highlighted,
                    spec_filtered(old(self)@.templates, old(self)@.query).len() as int,
                ),
                ..old(self)@
            }),
            old(self)@.query.len() > 0 ==> forall|i: int|
                0 <= i < final(self)@.filtered.len() ==> is_fold_subseq(
                    old(self)@.query,
                    #[trigger] final(self)@.filtered[i],
                ),
    {
        let f = filter_templates(&self.templates, self.search_query.as_str());
        let ghost fv = f.deep_view();
        self.filtered_templates = f;
        let len = self.filtered_templates.len();
        if self.highlighted_index >= len && len > 0 {
            self.highlighted_index = len - 1;
        } else if len == 0 {
            self.highlighted_index = 0;
        }
        proof {
            assert forall|i: int| 0 <= i < self@.filtered.len() implies self@.templates.contains(
                #[trigger] self@.filtered[i],
            ) by {
                assert(self@.filtered[i] == fv[i]);
            }
            assert(old(self)@.query.len() > 0 ==> forall|i: int|
                0 <= i < self@.filtered.len() ==> is_fold_subseq(
                    old(self)@.query,
                    #[trigger] self@.filtered[i],
                )) by {
                if old(self)@.query.len() > 0 {
                    assert forall|i: int| 0 <= i < self@.filtered.len() implies is_fold_subseq(
                        old(self)@.query,
                        #[trigger] self@.filtered[i],
                    ) by {
                        assert(self@.filtered[i] == fv[i]);
                    }
                }
            }
            assert(self@ =~= (SessionView {
                filtered: spec_filtered(old(self)@.templates, old(self)@.query),
                highlighted: clamp_index(
                    old(self)@.highlighted,
                    spec_filtered(old(self)@.templates, old(self)@.query).len() as int,
                ),
                ..old(self)@
            }));
        }
    }

    /// Installs a snapshot's names as the catalog: sorted and unique,
    /// selection pruned to the new catalog, filter recomputed, loading
    /// over.
    pub fn set_templates(&mut self, templates: Vec<String>)
        requires
            old(self).wf_core(),
        ensures
            final(self).wf(),
            final(self)@ == (SessionView {
                templates: final(self)@.templates,
                filtered: final(self)@.filtered,
                selected: final(self)@.selected,
                highlighted: final(self)@.highlighted,
                is_loading: false,
                ..old(self)@
            }),
            sorted_strict(final(self)@.templates),
            final(self)@.templates.to_set() =~= templates.deep_view().to_set(),
            forall|y: Seq<char>|
                #[trigger] final(self)@.selected.contains(y) <==> (old(self)@.selected.contains(y)
                    && final(self)@.templates.contains(y)),
            final(self)@.filtered == spec_filtered(final(self)@.templates, old(self)@.query),
            final(self)@.highlighted == clamp_index(
                old(self)@.highlighted,
                final(self)@.filtered.len() as int,
            ),
    {
        let sorted = crate::catalog::sort_unique(templates);
        self.templates = sorted;
        let mut kept: Vec<String> = Vec::new();
        let ghost sel = old(self)@.selected;
        let ghost ts = self.templates.deep_view();
        let mut i: usize = 0;
        while i < self.selected_templates.len()
            invariant
                i <= self.selected_templates.len(),
                sel == self.selected_templates.deep_view(),
                ts == self.templates.deep_view(),
                sorted_strict(sel),
                sorted_strict(kept.deep_view()),
                forall|y: Seq<char>|
                    #[trigger] kept.deep_view().contains(y) <==> (sel.take(i as int).contains(y)
                        && ts.contains(y)),
            decreases self.selected_templates.len() - i,
        {
            let ghost pre = kept.deep_view();
            let present = crate::order::contains_str(&self.templates, self.selected_templates[i].as_str());
            proof {
                assert(self.selected_templates.deep_view()[i as int]
                    == self.selected_templates@[i as int].deep_view());
            }
            if present {
                proof {
                    assert(!kept.deep_view().contains(sel[i as int])) by {
                        if kept.deep_view().contains(sel[i as int]) {
                            assert(sel.take(i as int).contains(sel[i as int]));
                            let k = choose|k: int|
                                0 <= k < i && #[trigger] sel.take(i as int)[k] == sel[i as int];
                            assert(sel[k] == sel[i as int]);
                            crate::order::lemma_lex_lt_irrefl(sel[i as int]);
                        }
                    }
                }
                let _ = toggle_sorted(&mut kept, &self.selected_templates[i]);
                proof {
                    assert forall|y: Seq<char>| #[trigger] kept.deep_view().contains(y) implies (
                        sel.take(i + 1).contains(y) && ts.contains(y)) by {
                        if y == sel[i as int] {
                            assert(sel.take(i + 1)[i as int] == y);
                        } else {
                            assert(pre.contains(y));
                            let k = choose|k: int|
                                0 <= k < i && #[trigger] sel.take(i as int)[k] == y;
                            assert(sel.take(i + 1)[k] == y);
                        }
                    }
                    assert forall|y: Seq<char>|
                        sel.take(i + 1).contains(y) && ts.contains(y) implies
                        #[trigger] kept.deep_view().contains(y) by {
                        let k = choose|k: int| 0 <= k < i + 1 && #[trigger] sel.take(i + 1)[k] == y;
                        if k < i {
                            assert(sel.take(i as int)[k] == y);
                            assert(pre.contains(y));
                        } else {
                            assert(y == sel[i as int]);
                            assert(kept.deep_view().to_set().contains(y));
                        }
                    }
                }
            } else {
                proof {
                    assert(!ts.contains(sel[i as int]));
                    assert forall|y: Seq<char>| #[trigger] kept.deep_view().contains(y) implies (
                        sel.take(i + 1).contains(y) && ts.contains(y)) by {
                        assert(pre.contains(y));
                        let k = choose|k: int|
                            0 <= k < i && #[trigger] sel.take(i as int)[k] == y;
                        assert(sel.take(i + 1)[k] == y);
                    }
                    assert forall|y: Seq<char>|
                        sel.take(i + 1).contains(y) && ts.contains(y) implies
                        #[trigger] kept.deep_view().contains(y) by {
                        let k = choose|k: int| 0 <= k < i + 1 && #[trigger] sel.take(i + 1)[k] == y;
                        if k < i {
                            assert(sel.take(i as int)[k] == y);
                            assert(pre.contains(y));
                        } else {
                            assert(y == sel[i as int]);
                            assert(false);
                        }
                    }
                }
            }
            i = i + 1;
        }
        proof {
            assert(sel.take(sel.len() as int) =~= sel);
        }
        self.selected_templates = kept;
        self.apply_filter();
        self.is_loading = false;
        proof {
            assert(self@ =~= (SessionView {
                templates: self@.templates,
                filtered: self@.filtered,
                selected: self@.selected,
                highlighted: self@.highlighted,
                is_loading: false,
                ..old(self)@
            }));
        }
    }

    /// Moves the highlight to the next filtered name, wrapping from the
    /// last to the first; does nothing on an empty list.  Any move
    /// resets the preview scroll.
    pub fn next(&mut self)
        requires
            old(self).wf(),
        ensures
            final(self).wf(),
            old(self)@.filtered.len() == 0 ==> final(self)@ == old(self)@,
            old(self)@.filtered.len() > 0 ==> final(self)@ == (SessionView {
                highlighted: (old(self)@.highlighted + 1) % (old(self)@.filtered.len() as int),
                preview_scroll: 0,
                ..old(self)@
            }),
    {
        if self.filtered_templates.len() > 0 {
            self.highlighted_index = (self.highlighted_index + 1) % self.filtered_templates.len();
            self.preview_scroll = 0;
            proof {
                assert(self@ =~= (SessionView {
                    highlighted: (old(self)@.highlighted + 1) % (old(self)@.filtered.len() as int),
                    preview_scroll: 0,
                    ..old(self)@
                }));
            }
        } else {
            proof {
                assert(self@ =~= old(self)@);
            }
        }
    }

    /// Moves the highlight to the previous filtered name, wrapping from
    /// the first to the last; does nothing on an empty list.  Any move
    /// resets the preview scroll.
    pub fn previous(&mut self)
        requires
            old(self).wf(),
        ensures
            final(self).wf(),
            old(self)@.filtered.len() == 0 ==> final(self)@ == old(self)@,
            old(self)@.filtered.len() > 0 ==> final(self)@ == (SessionView {
                highlighted: if old(self)@.highlighted > 0 {
                    old(self)@.highlighted - 1
                } else {
                    old(self)@.filtered.len() - 1
                },
                preview_scroll: 0,
                ..old(self)@
            }),
    {
        if self.filtered_templates.len() > 0 {
            if self.highlighted_index > 0 {
                self.highlighted_index = self.highlighted_index - 1;
            } else {
                self.highlighted_index = self.filtered_templates.len() - 1;
            }
            self.preview_scroll = 0;
            proof {
                assert(self@ =~= (SessionView {
                    highlighted: if old(self)@.highlighted > 0 {
                        old(self)@.highlighted - 1
                    } else {
                        old(self)@.filtered.len() - 1
                    },
                    preview_scroll: 0,
                    ..old(self)@
                }));
            }
        } else {
            proof {
                assert(self@ =~= old(self)@);
            }
        }
    }

    /// Adds the currently highlighted name to the selection if absent,
    /// removes it if present; does nothing to the selection when the
    /// filtered list is empty.  Clears both status messages.
    pub fn toggle_selection(&mut self)
        requires
            old(self).wf(),
        ensures
            final(self).wf(),
            old(self)@.filtered.len() == 0 ==> final(self)@ == (SessionView {
                error: None,
                notification: None,
                ..old(self)@
            }),
            old(self)@.filtered.len() > 0 ==> {
                let name = old(self)@.filtered[old(self)@.highlighted];
                final(self)@ == (SessionView {
                    selected: if old(self)@.selected.contains(name) {
                        old(self)@.selected.remove(sorted_pos(old(self)@.selected, name))
                    } else {
                        old(self)@.selected.insert(sorted_pos(old(self)@.selected, name), name)
                    },
                    error: None,
                    notification: None,
                    ..old(self)@
                })
            },
            old(self)@.filtered.len() > 0 ==> final(self)@.selected.to_set() =~= {
                let name = old(self)@.filtered[old(self)@.highlighted];
                if old(self)@.selected.contains(name) {
                    old(self)@.selected.to_set().remove(name)
                } else {
                    old(self)@.selected.to_set().insert(name)
                }
            },
    {
        if self.highlighted_index < self.filtered_templates.len() {
            let name = self.filtered_templates[self.highlighted_index].clone();
            proof {
                assert(self@.filtered[self@.highlighted] == self.filtered_templates@[
                    self.highlighted_index as int].deep_view());
                assert(name@ == old(self)@.filtered[old(self)@.highlighted]);
                assert(self@.templates.contains(name@));
            }
            let added = toggle_sorted(&mut self.selected_templates, &name);
            self.error = None;
            self.notification = None;
            proof {
                let namev = old(self)@.filtered[old(self)@.highlighted];
                assert forall|y: Seq<char>| #[trigger] self@.selected.contains(y) implies
                    self@.templates.contains(y) by {
                    if y != namev {
                        assert(old(self)@.selected.contains(y));
                    }
                }
                if added {
                    assert(self@ =~= (SessionView {
                        selected: old(self)@.selected.insert(
                            sorted_pos(old(self)@.selected, namev),
                            namev,
                        ),
                        error: None,
                        notification: None,
                        ..old(self)@
                    }));
                } else {
                    assert(self@ =~= (SessionView {
                        selected: old(self)@.selected.remove(
                            sorted_pos(old(self)@.selected, namev),
                        ),
                        error: None,
                        notification: None,
                        ..old(self)@
                    }));
                }
            }
        } else {
            self.error = None;
            self.notification = None;
            proof {
                assert(self@ =~= (SessionView { error: None, notification: None, ..old(self)@ }));
            }
        }
    }

    /// The currently highlighted template name, if any.
    pub fn get_current_highlighted(&self) -> (r: Option<String>)
        requires
            self.wf(),
        ensures
            match r {
                Some(t) => self@.filtered.len() > 0 && t@ == self@.filtered[self@.highlighted],
                None => self@.filtered.len() == 0,
            },
    {
        if self.highlighted_index < self.filtered_templates.len() {
            let t = self.filtered_templates[self.highlighted_index].clone();
            proof {
                assert(self@.filtered[self@.highlighted] == self.filtered_templates@[
                    self.highlighted_index as int].deep_view());
                assert(t@ == self@.filtered[self@.highlighted]);
            }
            Some(t)
        } else {
            None
        }
    }
}

} // verus!

verus! {

/// The content a map gives a name, or the fallback text.
pub open spec fn content_or(m: Map<Seq<char>, Seq<char>>, t: Seq<char>, alt: Seq<char>) -> Seq<
    char,
> {
    if m.contains_key(t) {
        m[t]
    } else {
        alt
    }
}

/// The combined preview body: each name under a header, followed by its
/// content or a loading placeholder, then a blank line.
pub open spec fn combined_sections(names: Seq<Seq<char>>, m: Map<Seq<char>, Seq<char>>) -> Seq<
    char,
>
    decreases names.len(),
{
    if names.len() == 0 {
        Seq::empty()
    } else {
        combined_sections(names.drop_last(), m) + "### "@ + names.last() + " ###\n"@ + content_or(
            m,
            names.last(),
            "Loading..."@,
        ) + "\n\n"@
    }
}

/// The text the preview pane shows for a session state.
pub open spec fn preview_of(v: SessionView) -> Seq<char> {
    match v.preview_mode {
        PreviewMode::Highlighted => {
            if v.filtered.len() > 0 {
                "--- PREVIEWING: "@ + v.filtered[v.highlighted] + " ---\n\n"@ + content_or(
                    v.contents,
                    v.filtered[v.highlighted],
                    "Loading preview..."@,
                )
            } else {
                "No template highlighted."@
            }
        },
        PreviewMode::Combined => {
            if v.selected.len() == 0 {
                "No templates selected. Use [Highlighted] view to see templates."@
            } else {
                combined_sections(v.selected, v.contents)
            }
        },
    }
}

/// The generated ignore file: each selected name under a comment
/// header, followed by its content (empty when missing) and a newline.
pub open spec fn gitignore_sections(names: Seq<Seq<char>>, m: Map<Seq<char>, Seq<char>>) -> Seq<
    char,
>
    decreases names.len(),
{
    if names.len() == 0 {
        Seq::empty()
    } else {
        gitignore_sections(names.drop_last(), m) + "\n# --- "@ + names.last() + " ---\n"@
            + content_or(m, names.last(), Seq::empty()) + "\n"@
    }
}

/// The selected names joined with commas, in their sorted order.
pub open spec fn comma_joined(names: Seq<Seq<char>>) -> Seq<char>
    decreases names.len(),
{
    if names.len() == 0 {
        Seq::empty()
    } else if names.len() == 1 {
        names[0]
    } else {
        comma_joined(names.drop_last()) + ", "@ + names.last()
    }
}

/// The largest preview scroll offset a state allows: the rendered line
/// count less the viewport height, floored at zero and capped at the
/// scroll field's range.
pub open spec fn max_scroll_of(v: SessionView) -> int {
    let over = line_count(preview_of(v)) - v.preview_height;
    let c = if over <= 0 {
        0
    } else {
        over
    };
    if c > 65535 {
        65535
    } else {
        c
    }
}

impl App {
    /// The text the preview pane shows: the highlighted template's
    /// content under a header, or the selected templates' contents
    /// combined, with placeholders for missing pieces.
    pub fn get_combined_preview(&self) -> (r: String)
        requires
            self.wf(),
        ensures
            r@ == preview_of(self@),
    {
        match self.preview_mode {
            PreviewMode::Highlighted => {
                if self.filtered_templates.len() > 0 {
                    let t = &self.filtered_templates[self.highlighted_index];
                    proof {
                        assert(self@.filtered[self@.highlighted] == self.filtered_templates@[
                            self.highlighted_index as int].deep_view());
                    }
                    let mut s = String::new();
                    s.append("--- PREVIEWING: ");
                    s.append(t.as_str());
                    s.append(" ---\n\n");
                    match crate::catalog::lookup_content(&self.template_contents, t.as_str()) {
                        Some(c) => {
                            s.append(c.as_str());
                        },
                        None => {
                            s.append("Loading preview...");
                        },
                    }
                    proof {
                        assert(Seq::<char>::empty() + "--- PREVIEWING: "@ =~= "--- PREVIEWING: "@);
                        assert(s@ == preview_of(self@));
                    }
                    s
                } else {
                    String::from_str("No template highlighted.")
                }
            },
            PreviewMode::Combined => {
                if self.selected_templates.len() == 0 {
                    String::from_str(
                        "No templates selected. Use [Highlighted] view to see templates.",
                    )
                } else {
                    let ghost sel = self@.selected;
                    let ghost m = self@.contents;
                    let mut s = String::new();
                    let mut i: usize = 0;
                    proof {
                        assert(sel.take(0) =~= Seq::<Seq<char>>::empty());
                    }
                    while i < self.selected_templates.len()
                        invariant
                            i <= self.selected_templates.len(),
                            sel == self.selected_templates.deep_view(),
                            m == self@.contents,
                            s@ == combined_sections(sel.take(i as int), m),
                        decreases self.selected_templates.len() - i,
                    {
                        proof {
                            assert(sel.take(i + 1).drop_last() =~= sel.take(i as int));
                            assert(sel.take(i + 1).last() == sel[i as int]);
                            assert(sel[i as int] == self.selected_templates@[
                                i as int].deep_view());
                        }
                        let t = &self.selected_templates[i];
                        s.append("### ");
                        s.append(t.as_str());
                        s.append(" ###\n");
                        match crate::catalog::lookup_content(&self.template_contents, t.as_str()) {
                            Some(c) => {
                                s.append(c.as_str());
                            },
                            None => {
                                s.append("Loading...");
                            },
                        }
                        s.append("\n\n");
                        i = i + 1;
                    }
                    proof {
                        assert(sel.take(sel.len() as int) =~= sel);
                    }
                    s
                }
            },
        }
    }

    /// How many lines the preview text renders as.
    pub fn get_preview_line_count(&self) -> (r: usize)
        requires
            self.wf(),
        ensures
            r == line_count(preview_of(self@)),
    {
        let p = self.get_combined_preview();
        crate::strings::count_lines(p.as_str())
    }

    /// The largest preview scroll offset the current preview allows.
    pub fn max_preview_scroll(&self) -> (r: u16)
        requires
            self.wf(),
        ensures
            r as int == max_scroll_of(self@),
    {
        let lines = self.get_preview_line_count();
        let h = self.preview_height as usize;
        if lines > h {
            let d = lines - h;
            if d > 65535 {
                65535u16
            } else {
                d as u16
            }
        } else {
            0u16
        }
    }

    /// Records the preview pane's content height, as the renderer
    /// measured it.
    pub fn set_preview_height(&mut self, h: u16)
        requires
            old(self).wf(),
        ensures
            final(self).wf(),
            final(self)@ == (SessionView { preview_height: h as int, ..old(self)@ }),
    {
        self.preview_height = h;
        proof {
            assert(self@ =~= (SessionView { preview_height: h as int, ..old(self)@ }));
        }
    }

    /// The final ignore-file text for the current selection: each
    /// selected name in sorted order under a comment header, followed
    /// by its content and a blank separator line.
    pub fn generate_gitignore_content(&self) -> (r: String)
        requires
            self.wf(),
        ensures
            r@ == gitignore_sections(self@.selected, self@.contents),
    {
        let ghost sel = self@.selected;
        let ghost m = self@.contents;
        let mut s = String::new();
        let mut i: usize = 0;
        proof {
            assert(sel.take(0) =~= Seq::<Seq<char>>::empty());
        }
        while i < self.selected_templates.len()
            invariant
                i <= self.selected_templates.len(),
                sel == self.selected_templates.deep_view(),
                m == self@.contents,
                s@ == gitignore_sections(sel.take(i as int), m),
            decreases self.selected_templates.len() - i,
        {
            proof {
                assert(sel.take(i + 1).drop_last() =~= sel.take(i as int));
                assert(sel.take(i + 1).last() == sel[i as int]);
                assert(sel[i as int] == self.selected_templates@[i as int].deep_view());
            }
            let t = &self.selected_templates[i];
            s.append("\n# --- ");
            s.append(t.as_str());
            s.append(" ---\n");
            match crate::catalog::lookup_content(&self.template_contents, t.as_str()) {
                Some(c) => {
                    s.append(c.as_str());
                },
                None => (),
            }
            s.append("\n");
            proof {
                if !m.contains_key(sel[i as int]) {
                    assert(content_or(m, sel[i as int], Seq::empty()) =~= Seq::<char>::empty());
                }
            }
            i = i + 1;
        }
        proof {
            assert(sel.take(sel.len() as int) =~= sel);
        }
        s
    }

    /// The selected names joined with commas, in sorted order.
    pub fn get_selected_names_summary(&self) -> (r: String)
        requires
            self.wf(),
        ensures
            r@ == comma_joined(self@.selected),
    {
        let ghost sel = self@.selected;
        let mut s = String::new();
        let mut i: usize = 0;
        proof {
            assert(sel.take(0) =~= Seq::<Seq<char>>::empty());
        }
        while i < self.selected_templates.len()
            invariant
                i <= self.selected_templates.len(),
                sel == self.selected_templates.deep_view(),
                s@ == comma_joined(sel.take(i as int)),
            decreases self.selected_templates.len() - i,
        {
            proof {
                assert(sel.take(i + 1).drop_last() =~= sel.take(i as int));
                assert(sel.take(i + 1).last() == sel[i as int]);
                assert(sel[i as int] == self.selected_templates@[i as int].deep_view());
            }
            let t = &self.selected_templates[i];
            if i == 0 {
                s.append(t.as_str());
                proof {
                    assert(Seq::<char>::empty() + sel[0] =~= sel[0]);
                }
            } else {
                s.append(", ");
                s.append(t.as_str());
            }
            i = i + 1;
        }
        proof {
            assert(sel.take(sel.len() as int) =~= sel);
        }
        s
    }

    /// Scrolls the preview down one line, stopping at the bottom.
    pub fn scroll_preview_down(&mut self)
        requires
            old(self).wf(),
        ensures
            final(self).wf(),
            final(self)@ == (SessionView {
                preview_scroll: if old(self)@.preview_scroll < max_scroll_of(old(self)@) {
                    old(self)@.preview_scroll + 1
                } else {
                    old(self)@.preview_scroll
                },
                ..old(self)@
            }),
    {
        let max_scroll = self.max_preview_scroll();
        if self.preview_scroll < max_scroll {
            self.preview_scroll = self.preview_scroll + 1;
        }
        proof {
            assert(self@ =~= (SessionView {
                preview_scroll: if old(self)@.preview_scroll < max_scroll_of(old(self)@) {
                    old(self)@.preview_scroll + 1
                } else {
                    old(self)@.preview_scroll
                },
                ..old(self)@
            }));
        }
    }

    /// Scrolls the preview up one line, stopping at the top.
    pub fn scroll_preview_up(&mut self)
        requires
            old(self).wf(),
        ensures
            final(self).wf(),
            final(self)@ == (SessionView {
                preview_scroll: if old(self)@.preview_scroll > 0 {
                    old(self)@.preview_scroll - 1
                } else {
                    0
                },
                ..old(self)@
            }),
    {
        if self.preview_scroll > 0 {
            self.preview_scroll = self.preview_scroll - 1;
        }
        proof {
            assert(self@ =~= (SessionView {
                preview_scroll: if old(self)@.preview_scroll > 0 {
                    old(self)@.preview_scroll - 1
                } else {
                    0
                },
                ..old(self)@
            }));
        }
    }

    /// Scrolls the preview down a page of ten lines, stopping at the
    /// bottom.
    pub fn page_preview_down(&mut self)
        requires
            old(self).wf(),
        ensures
            final(self).wf(),
            final(self)@ == (SessionView {
                preview_scroll: if old(self)@.preview_scroll + 10 > max_scroll_of(old(self)@) {
                    max_scroll_of(old(self)@)
                } else {
                    old(self)@.preview_scroll + 10
                },
                ..old(self)@
            }),
    {
        let max_scroll = self.max_preview_scroll();
        let target = if self.preview_scroll > 65535 - 10 {
            65535u16
        } else {
            self.preview_scroll + 10
        };
        self.preview_scroll = if target > max_scroll {
            max_scroll
        } else {
            target
        };
        proof {
            assert(self@ =~= (SessionView {
                preview_scroll: if old(self)@.preview_scroll + 10 > max_scroll_of(old(self)@) {
                    max_scroll_of(old(self)@)
                } else {
                    old(self)@.preview_scroll + 10
                },
                ..old(self)@
            }));
        }
    }

    /// Scrolls the preview up a page of ten lines, stopping at the top.
    pub fn page_preview_up(&mut self)
        requires
            old(self).wf(),
        ensures
            final(self).wf(),
            final(self)@ == (SessionView {
                preview_scroll: if old(self)@.preview_scroll >= 10 {
                    old(self)@.preview_scroll - 10
                } else {
                    0
                },
                ..old(self)@
            }),
    {
        if self.preview_scroll >= 10 {
            self.preview_scroll = self.preview_scroll - 10;
        } else {
            self.preview_scroll = 0;
        }
        proof {
            assert(self@ =~= (SessionView {
                preview_scroll: if old(self)@.preview_scroll >= 10 {
                    old(self)@.preview_scroll - 10
                } else {
                    0
                },
                ..old(self)@
            }));
        }
    }
}

} // verus!

verus! {

/// The selection is always drawn from the catalog: a well-formed
/// session's selected names are a subset of its template names, so a
/// name outside the catalog can never be toggled in.
pub proof fn lemma_selection_subset(a: App)
    requires
        a.wf(),
    ensures
        a@.selected.to_set() <= a@.templates.to_set(),
{
    assert forall|y: Seq<char>| a@.selected.to_set().contains(y) implies
        a@.templates.to_set().contains(y) by {
        assert(a@.selected.contains(y));
    }
}

/// After `next` or `previous` on a non-empty filtered list the
/// highlighted index is a valid index, and both moves wrap: `next` on
/// the last index lands on the first, `previous` on the first lands on
/// the last, and anywhere else each moves by one.
pub proof fn lemma_navigation_wraps(a: App)
    requires
        a.wf(),
        a@.filtered.len() > 0,
    ensures
        0 <= (a@.highlighted + 1) % (a@.filtered.len() as int) < a@.filtered.len(),
        a@.highlighted == a@.filtered.len() - 1 ==> (a@.highlighted + 1) % (
        a@.filtered.len() as int) == 0,
        a@.highlighted < a@.filtered.len() - 1 ==> (a@.highlighted + 1) % (
        a@.filtered.len() as int) == a@.highlighted + 1,
        0 <= if a@.highlighted > 0 {
            a@.highlighted - 1
        } else {
            a@.filtered.len() - 1
        } < a@.filtered.len(),
{
    let len = a@.filtered.len() as int;
    if a@.highlighted == len - 1 {
        vstd::arithmetic::div_mod::lemma_mod_self_0(len);
    } else {
        vstd::arithmetic::div_mod::lemma_small_mod((a@.highlighted + 1) as nat, len as nat);
    }
}

} // verus!
