use manga_pdf::assembly::page_paths;
use manga_pdf::workflow::{next_stage, Stage};

fn drive(outcomes: &[bool]) -> Vec<Stage> {
    let mut stage = Stage::ListPages;
    let mut seen = vec![stage];
    for &ok in outcomes {
        stage = next_stage(stage, ok);
        seen.push(stage);
    }
    seen
}

#[test]
fn successful_chapter_walks_every_step() {
    let seen = drive(&[true, true, true, true, true, true]);
    assert_eq!(
        seen,
        vec![
            Stage::ListPages,
            Stage::CreateWorkspace,
            Stage::FetchPages,
            Stage::BuildDocument,
            Stage::CopyDocument,
            Stage::RemoveWorkspace { failed: false },
            Stage::Finished { ok: true },
        ]
    );
}

#[test]
fn page_failures_do_not_stop_the_chapter() {
    assert_eq!(next_stage(Stage::FetchPages, false), Stage::BuildDocument);
}

#[test]
fn failed_page_list_touches_no_workspace() {
    assert_eq!(next_stage(Stage::ListPages, false), Stage::Finished { ok: false });
}

#[test]
fn failed_build_still_removes_workspace() {
    let seen = drive(&[true, true, true, false, true]);
    assert_eq!(seen[4], Stage::RemoveWorkspace { failed: true });
    assert_eq!(seen[5], Stage::Finished { ok: false });
}

#[test]
fn failed_creation_and_copy_remove_workspace() {
    assert_eq!(next_stage(Stage::CreateWorkspace, false), Stage::RemoveWorkspace { failed: true });
    assert_eq!(next_stage(Stage::CopyDocument, false), Stage::RemoveWorkspace { failed: true });
}

#[test]
fn failed_removal_fails_the_chapter() {
    assert_eq!(next_stage(Stage::RemoveWorkspace { failed: false }, false), Stage::Finished { ok: false });
}

#[test]
fn finished_is_final() {
    assert_eq!(next_stage(Stage::Finished { ok: true }, false), Stage::Finished { ok: true });
    assert_eq!(next_stage(Stage::Finished { ok: false }, true), Stage::Finished { ok: false });
}

#[test]
fn page_paths_by_position() {
    assert_eq!(page_paths("/w/Chapter 1", 3), vec!["/w/Chapter 1/0.jpg", "/w/Chapter 1/1.jpg", "/w/Chapter 1/2.jpg"]);
    assert!(page_paths("/w", 0).is_empty());
}
