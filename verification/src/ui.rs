//! The demo page's state machine: what each user event does to the
//! page, and what the page must do in response. Rendering and the
//! browser events themselves belong to the front end, which turns each
//! event into a `PageEvent`.

use crate::demos::{demo_list, demos, default_index, liar_from};
use crate::runner::{outcome_of, run_source, Verdict};
use vstd::prelude::*;
use vstd::string::StringSliceAdditionalSpecFns;
use vstd::utf8::encode_utf8;

verus! {

/// The page: the chosen demo, the program text, the output and the
/// status of the last run (`None` before a run).
pub struct Page {
    pub selected: usize,
    pub source: String,
    pub output: String,
    pub status: Option<Verdict>,
    pub error: bool,
}

/// The page as values.
pub struct PageV {
    pub selected: usize,
    pub source: Seq<char>,
    pub output: Seq<char>,
    pub status: Option<Verdict>,
    pub error: bool,
}

impl View for Page {
    type V = PageV;

    open spec fn view(&self) -> PageV {
        PageV { selected: self.selected, source: self.source@, output: self.output@, status: self.status, error: self.error }
    }
}

/// A user event.
pub enum PageEvent {
    /// A demo was picked from the list.
    SelectDemo(usize),
    /// The program text was edited.
    SourceChanged(String),
    /// The run button.
    Run,
    /// The reset button: reload the chosen demo.
    Reset,
    /// The clear button: forget the last run.
    Clear,
    /// A key press: whether it is Enter, and whether Ctrl or Meta is held.
    KeyDown { enter: bool, ctrl: bool, meta: bool },
}

/// What the front end must do after an event.
#[derive(Clone, Copy, Debug, PartialEq, Eq, Structural)]
pub enum PageAction {
    /// Nothing more.
    Nothing,
    /// Cancel the key's default effect and send `Run`.
    RunShortcut,
}

/// The page after loading demo `idx`; an index past the list changes
/// nothing.
pub open spec fn load_spec(p: PageV, idx: usize) -> PageV {
    if idx < demo_list().len() {
        PageV { selected: idx, source: demo_list()[idx as int].source@, output: Seq::empty(), status: None, error: false }
    } else {
        p
    }
}

/// The page after a run of its program with outcome fields `output`,
/// `verdict`, `error`.
pub open spec fn after_run(p: PageV, output: Seq<char>, verdict: Verdict, error: bool) -> PageV {
    PageV { output, status: Some(verdict), error, ..p }
}

/// The page after `Clear`.
pub open spec fn cleared(p: PageV) -> PageV {
    PageV { output: Seq::empty(), status: None, error: false, ..p }
}

fn load_demo(page: &mut Page, idx: usize)
    ensures
        final(page)@ == load_spec(old(page)@, idx),
{
    let ds = demos();
    if idx < ds.len() {
        page.selected = idx;
        page.source = ds[idx].source.to_owned();
        page.output = String::new();
        page.status = None;
        page.error = false;
    }
}

/// The page as it opens: the default demo loaded, nothing run yet.
pub fn page_new() -> (r: Page)
    ensures
        r@.selected == liar_from(demo_list(), 0),
        r@.selected < demo_list().len(),
        r@ == load_spec(r@, r@.selected),
{
    let idx = default_index();
    let ds = demos();
    proof {
        lemma_liar_in_range(demo_list(), 0);
    }
    Page { selected: idx, source: ds[idx].source.to_owned(), output: String::new(), status: None, error: false }
}

/// A found demo index lies in the list.
proof fn lemma_liar_in_range(ds: Seq<crate::demos::Demo>, i: nat)
    ensures
        liar_from(ds, i) == 0 || liar_from(ds, i) < ds.len(),
    decreases ds.len() - i,
{
    if i < ds.len() {
        lemma_liar_in_range(ds, i + 1);
    }
}

/// Handles one event: the page changes as the contract says; the result
/// tells whether to redraw and what else to do.
pub fn page_update(page: &mut Page, event: PageEvent) -> (r: (bool, PageAction))
    ensures
        match event {
            PageEvent::SelectDemo(i) => final(page)@ == load_spec(old(page)@, i) && r == (true, PageAction::Nothing),
            PageEvent::SourceChanged(v) => final(page)@ == (PageV { source: v@, ..old(page)@ }) && r == (false, PageAction::Nothing),
            PageEvent::Run => r == (true, PageAction::Nothing) && exists|o: crate::runner::RunOutcome|
                #![trigger outcome_of(encode_utf8(old(page)@.source), o)]
                outcome_of(encode_utf8(old(page)@.source), o) && final(page)@ == after_run(old(page)@, o.output@, o.verdict, o.error),
            PageEvent::Reset => final(page)@ == load_spec(old(page)@, old(page)@.selected) && r == (true, PageAction::Nothing),
            PageEvent::Clear => final(page)@ == cleared(old(page)@) && r == (true, PageAction::Nothing),
            PageEvent::KeyDown { enter, ctrl, meta } => final(page)@ == old(page)@ && r == (false, if enter && (ctrl || meta) {
                PageAction::RunShortcut
            } else {
                PageAction::Nothing
            }),
        },
{
    match event {
        PageEvent::SelectDemo(i) => {
            load_demo(page, i);
            (true, PageAction::Nothing)
        },
        PageEvent::SourceChanged(v) => {
            page.source = v;
            (false, PageAction::Nothing)
        },
        PageEvent::Run => {
            let o = run_source(page.source.as_str());
            proof {
                assert(outcome_of(encode_utf8(old(page)@.source), o));
            }
            page.output = o.output;
            page.status = Some(o.verdict);
            page.error = o.error;
            (true, PageAction::Nothing)
        },
        PageEvent::Reset => {
            let idx = page.selected;
            load_demo(page, idx);
            (true, PageAction::Nothing)
        },
        PageEvent::Clear => {
            page.output = String::new();
            page.status = None;
            page.error = false;
            (true, PageAction::Nothing)
        },
        PageEvent::KeyDown { enter, ctrl, meta } => {
            if enter && (ctrl || meta) {
                (false, PageAction::RunShortcut)
            } else {
                (false, PageAction::Nothing)
            }
        },
    }
}

/// The status bar's style class: marked as an error when the last run
/// ended in one.
pub fn status_class(error: bool) -> (r: &'static str)
    ensures
        r@ == (if error { "status status-error"@ } else { "status"@ }),
{
    if error {
        "status status-error"
    } else {
        "status"
    }
}

} // verus!
