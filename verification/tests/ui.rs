use rust_to_prolog::demos::demos;
use rust_to_prolog::runner::Verdict;
use rust_to_prolog::ui::{page_new, page_update, status_class, PageAction, PageEvent};

#[test]
fn page_opens_on_the_liar_demo() {
    let p = page_new();
    let ds = demos();
    assert_eq!(p.selected, 4);
    assert_eq!(p.source, ds[4].source);
    assert_eq!(p.output, "");
    assert_eq!(p.status, None);
    assert!(!p.error);
}

#[test]
fn run_then_clear() {
    let mut p = page_new();
    assert_eq!(page_update(&mut p, PageEvent::SelectDemo(2)), (true, PageAction::Nothing));
    assert_eq!(page_update(&mut p, PageEvent::Run), (true, PageAction::Nothing));
    assert_eq!(p.output, "red\ngreen\nblue\n");
    assert_eq!(p.status, Some(Verdict::Failed));
    assert!(!p.error);
    assert_eq!(page_update(&mut p, PageEvent::Clear), (true, PageAction::Nothing));
    assert_eq!(p.output, "");
    assert_eq!(p.status, None);
}

#[test]
fn edits_are_kept_until_reset() {
    let mut p = page_new();
    let edited = "?- write(hi), nl.".to_string();
    assert_eq!(page_update(&mut p, PageEvent::SourceChanged(edited.clone())), (false, PageAction::Nothing));
    assert_eq!(p.source, edited);
    page_update(&mut p, PageEvent::Run);
    assert_eq!(p.output, "hi\n");
    assert_eq!(p.status, Some(Verdict::Halted));
    assert_eq!(page_update(&mut p, PageEvent::Reset), (true, PageAction::Nothing));
    assert_eq!(p.source, demos()[4].source);
    assert_eq!(p.output, "");
}

#[test]
fn selecting_past_the_list_changes_nothing() {
    let mut p = page_new();
    page_update(&mut p, PageEvent::SelectDemo(99));
    assert_eq!(p.selected, 4);
}

#[test]
fn ctrl_or_meta_enter_runs() {
    let mut p = page_new();
    assert_eq!(
        page_update(&mut p, PageEvent::KeyDown { enter: true, ctrl: true, meta: false }),
        (false, PageAction::RunShortcut)
    );
    assert_eq!(
        page_update(&mut p, PageEvent::KeyDown { enter: true, ctrl: false, meta: true }),
        (false, PageAction::RunShortcut)
    );
    assert_eq!(
        page_update(&mut p, PageEvent::KeyDown { enter: true, ctrl: false, meta: false }),
        (false, PageAction::Nothing)
    );
    assert_eq!(
        page_update(&mut p, PageEvent::KeyDown { enter: false, ctrl: true, meta: false }),
        (false, PageAction::Nothing)
    );
}

#[test]
fn a_failed_compile_marks_an_error() {
    let mut p = page_new();
    page_update(&mut p, PageEvent::SourceChanged("p(a).".to_string()));
    page_update(&mut p, PageEvent::Run);
    assert!(p.error);
    assert!(matches!(p.status, Some(Verdict::Pipeline(_))));
}

#[test]
fn status_bar_marks_errors() {
    assert_eq!(status_class(false), "status");
    assert_eq!(status_class(true), "status status-error");
}
