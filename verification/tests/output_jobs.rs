use feather::jobs::{append_history, last_items, HistoryItem, JobStatus, JobTable, ProducedLog, HISTORY_LIMIT};
use feather::output::{finalize_plan, FsStep, file_base, output_dir, pick_output, quality_label, resolve_output, temp_path_for, temp_path_with};
use feather::probe::{MediaInfo, MediaKind};
use feather::settings::{OutputLocation, OutputSettings, Quality, Settings};
use feather::text::sanitize;

fn info(path: &str) -> MediaInfo {
    let mut i = MediaInfo::basic(path, 1000);
    i.width = Some(1920);
    i.height = Some(1080);
    i
}

#[test]
fn quality_labels() {
    assert_eq!(quality_label(Quality::Highest), "highest");
    assert_eq!(quality_label(Quality::High), "high");
    assert_eq!(quality_label(Quality::Good), "good");
    assert_eq!(quality_label(Quality::Medium), "medium");
    assert_eq!(quality_label(Quality::Acceptable), "acceptable");
}

#[test]
fn sanitize_replaces_bad_characters_and_trims() {
    assert_eq!(sanitize("a/b\\c:d*e?f\"g<h>i|j"), "a_b_c_d_e_f_g_h_i_j");
    assert_eq!(sanitize("  clip  "), "clip");
    assert_eq!(sanitize("   "), "output");
    assert_eq!(sanitize(""), "output");
}

#[test]
fn output_folders() {
    let mut o = OutputSettings::default();
    assert_eq!(output_dir("/v/a.mp4", &o), Ok("/v".to_string()));
    o.location = OutputLocation::Subfolder;
    assert_eq!(output_dir("/v/a.mp4", &o), Ok("/v/compressed".to_string()));
    o.subfolder_name = "  small ".to_string();
    assert_eq!(output_dir("/v/a.mp4", &o), Ok("/v/small".to_string()));
    o.subfolder_name = "   ".to_string();
    assert_eq!(output_dir("/v/a.mp4", &o), Ok("/v/compressed".to_string()));
    o.location = OutputLocation::Custom;
    o.custom_dir = " /out ".to_string();
    assert_eq!(output_dir("/v/a.mp4", &o), Ok("/out".to_string()));
    o.custom_dir = String::new();
    assert_eq!(output_dir("/v/a.mp4", &o), Ok("/v".to_string()));
    assert_eq!(output_dir("/", &OutputSettings::default()), Err("input has no parent dir".to_string()));
}

#[test]
fn template_placeholders() {
    let mut o = OutputSettings::default();
    o.name_template = "{name}-{quality}-{resolution}-{codec}-{ext}-{date}_{time}".to_string();
    let f = file_base(&info("/v/holiday.mov"), &o, Quality::High, "h265", "mp4", Some((1280, 720)), "2024-05-01", "10-20-30");
    assert_eq!(f, "holiday-high-1280x720-h265-mp4-2024-05-01_10-20-30");
    let g = file_base(&info("/v/holiday.mov"), &o, Quality::High, "h265", "mp4", None, "d", "t");
    assert_eq!(g, "holiday-high-1920x1080-h265-mp4-d_t");
    o.name_template = "{name}: v2".to_string();
    assert_eq!(file_base(&info("/v/a.mp4"), &o, Quality::Good, "", "mp4", None, "", ""), "a_ v2");
    o.overwrite_original = true;
    assert_eq!(file_base(&info("/v/a.mp4"), &o, Quality::Good, "", "mp4", None, "", ""), "a");
    o.overwrite_original = false;
    o.name_template = "  ".to_string();
    assert_eq!(file_base(&info("/v/a.mp4"), &o, Quality::Good, "", "mp4", None, "", ""), "a");
}

#[test]
fn default_output_is_a_new_file_beside_the_input() {
    let o = OutputSettings::default();
    let r = resolve_output(&info("/v/a.mp4"), &o, Quality::Good, "h264", "mp4", None, "d", "t", &vec![]);
    assert_eq!(r, Ok("/v/a_compressed.mp4".to_string()));
}

#[test]
fn collisions_get_a_counter() {
    let o = OutputSettings::default();
    let existing = vec!["a_compressed.mp4".to_string(), "a_compressed (1).mp4".to_string()];
    let r = resolve_output(&info("/v/a.mp4"), &o, Quality::Good, "h264", "mp4", None, "d", "t", &existing);
    assert_eq!(r, Ok("/v/a_compressed (2).mp4".to_string()));
}

#[test]
fn never_picks_the_input_itself() {
    let mut o = OutputSettings::default();
    o.name_template = "{name}".to_string();
    let r = resolve_output(&info("/v/a.jpg"), &o, Quality::Good, "", "jpg", None, "d", "t", &vec![]);
    assert_eq!(r, Ok("/v/a (1).jpg".to_string()));
    assert_eq!(pick_output("/v", "a", "jpg", "/v/a.jpg", &vec!["a (1).jpg".to_string()], false), "/v/a (2).jpg");
}

#[test]
fn overwrite_returns_the_final_path_even_when_taken() {
    let mut o = OutputSettings::default();
    o.overwrite_original = true;
    let existing = vec!["a.jpg".to_string()];
    let r = resolve_output(&info("/v/a.jpg"), &o, Quality::Good, "", "jpg", None, "d", "t", &existing);
    assert_eq!(r, Ok("/v/a.jpg".to_string()));
    let r2 = resolve_output(&info("/v/a.png"), &o, Quality::Good, "", "webp", None, "d", "t", &existing);
    assert_eq!(r2, Ok("/v/a.webp".to_string()));
}

#[test]
fn temp_paths_are_hidden_and_keep_the_extension() {
    assert_eq!(temp_path_with("/v/a.mp4", 0xab), "/v/.feather-000000000000000000000000000000ab.mp4");
    assert_eq!(temp_path_with("noext", 1), ".feather-00000000000000000000000000000001.tmp");
    let t1 = temp_path_for("/v/a.mp4");
    let t2 = temp_path_for("/v/a.mp4");
    assert!(t1.starts_with("/v/.feather-"));
    assert!(t1.ends_with(".mp4"));
    assert_eq!(t1.len(), "/v/.feather-".len() + 32 + ".mp4".len());
    assert_ne!(t1, t2);
    // A version-4 UUID: the version digit is 4.
    assert_eq!(&t1["/v/.feather-".len() + 12.."/v/.feather-".len() + 13], "4");
}

fn inputs(n: usize) -> Vec<(MediaInfo, Settings)> {
    (0..n).map(|i| (info(&format!("/v/{i}.mp4")), Settings::default())).collect()
}

#[test]
fn enqueue_creates_queued_jobs_with_distinct_ids() {
    let mut t = JobTable::new();
    let created = t.enqueue(inputs(3));
    assert_eq!(created.len(), 3);
    let list = t.list();
    assert_eq!(list.len(), 3);
    for (c, l) in created.iter().zip(list.iter()) {
        assert_eq!(c.id, l.id);
        assert_eq!(l.status, JobStatus::Queued);
        assert_eq!(l.progress_permille, 0);
        assert!(l.settings.is_some());
    }
    assert_ne!(list[0].id, list[1].id);
    assert_ne!(list[1].id, list[2].id);
    assert_eq!(list[2].input.path, "/v/2.mp4");
}

#[test]
fn job_lifecycle_done_and_larger_flag() {
    let mut t = JobTable::new();
    let id = t.enqueue(inputs(1))[0].id;
    assert!(t.start(id));
    assert_eq!(t.list()[0].status, JobStatus::Running);
    t.report_progress(id, 1500, Some(250), Some(4000));
    let j = &t.list()[0];
    assert_eq!(j.progress_permille, 999);
    assert_eq!(j.speed_centi, Some(250));
    assert_eq!(j.eta_ms, Some(4000));
    t.set_output_path(id, "/v/0_compressed.mp4".to_string());
    assert_eq!(t.list()[0].output_path.as_deref(), Some("/v/0_compressed.mp4"));
    t.finish_ok(id, "/v/0_compressed.mp4".to_string(), 1200, Some((1280, 720)), 5000, 1_700_000_000_000);
    let j = &t.list()[0];
    assert_eq!(j.status, JobStatus::Done);
    assert_eq!(j.progress_permille, 1000);
    assert_eq!(j.output_size, Some(1200));
    assert_eq!((j.output_width, j.output_height), (Some(1280), Some(720)));
    assert!(j.larger);
    assert_eq!(j.elapsed_ms, Some(5000));
    assert_eq!(j.finished_at, Some(1_700_000_000_000));
}

#[test]
fn failure_and_cancellation() {
    let mut t = JobTable::new();
    let ids: Vec<u128> = t.enqueue(inputs(3)).iter().map(|j| j.id).collect();
    assert!(t.start(ids[0]));
    t.finish_err(ids[0], "boom".to_string(), 10);
    assert_eq!(t.list()[0].status, JobStatus::Failed);
    assert_eq!(t.list()[0].error.as_deref(), Some("boom"));

    // Cancelled while queued: the job never runs.
    assert!(t.cancel(ids[1]));
    assert!(!t.start(ids[1]));
    assert_eq!(t.list()[1].status, JobStatus::Cancelled);

    // Cancelled while running: the error is swallowed.
    assert!(t.start(ids[2]));
    assert!(t.cancel(ids[2]));
    t.finish_err(ids[2], "cancelled".to_string(), 20);
    assert_eq!(t.list()[2].status, JobStatus::Cancelled);
    assert_eq!(t.list()[2].error, None);
    assert!(!t.cancel(12345));
}

#[test]
fn clear_finished_keeps_active_jobs() {
    let mut t = JobTable::new();
    let ids: Vec<u128> = t.enqueue(inputs(3)).iter().map(|j| j.id).collect();
    assert!(t.start(ids[0]));
    t.finish_ok(ids[0], "/o".to_string(), 1, None, 1, 1);
    assert!(t.start(ids[1]));
    t.clear_finished();
    let left: Vec<u128> = t.list().iter().map(|j| j.id).collect();
    assert_eq!(left, vec![ids[1], ids[2]]);
}

#[test]
fn cancel_all_and_remove() {
    let mut t = JobTable::new();
    let ids: Vec<u128> = t.enqueue(inputs(3)).iter().map(|j| j.id).collect();
    assert!(t.start(ids[0]));
    t.finish_ok(ids[0], "/o".to_string(), 1, None, 1, 1);
    t.cancel_all();
    assert!(!t.start(ids[1]));
    assert!(t.remove(ids[2]));
    assert!(!t.remove(ids[2]));
    let left: Vec<u128> = t.list().iter().map(|j| j.id).collect();
    assert_eq!(left, vec![ids[0], ids[1]]);
    assert_eq!(t.list()[0].status, JobStatus::Done);
}

#[test]
fn produced_outputs_are_remembered() {
    let mut log = ProducedLog::new();
    assert!(!log.was_produced("/v/a.mp4"));
    log.mark_produced("/v/a.mp4", 1000);
    assert!(log.was_produced("/v/a.mp4"));
    assert!(!log.was_produced("/v/b.mp4"));
    // Records older than an hour are dropped when the next one is made.
    log.mark_produced("/v/b.mp4", 1000 + 3_600_000);
    assert!(!log.was_produced("/v/a.mp4"));
    assert!(log.was_produced("/v/b.mp4"));
}

#[test]
fn history_is_bounded_and_ordered() {
    let mut t = JobTable::new();
    let id = t.enqueue(vec![(info("/v/x.mp4"), Settings::default())])[0].id;
    let job = &t.list()[0];
    let h = HistoryItem::of_job(job, "/v/x_c.mp4".to_string(), 10, 99, 7);
    assert_eq!(h.id, id);
    assert_eq!(h.input_name, "x.mp4");
    assert_eq!(h.kind, MediaKind::Video);
    assert_eq!(h.input_size, 1000);
    assert_eq!((h.output_size, h.finished_at, h.elapsed_ms), (10, 99, 7));

    let items: Vec<u32> = (0..HISTORY_LIMIT as u32).collect();
    let after = append_history(items, 99_999);
    assert_eq!(after.len(), HISTORY_LIMIT);
    assert_eq!(after[0], 1);
    assert_eq!(*after.last().unwrap(), 99_999);
    let small = append_history(vec![1, 2], 3);
    assert_eq!(small, vec![1, 2, 3]);
    assert_eq!(last_items(vec![1, 2, 3, 4], 2), vec![3, 4]);
    assert_eq!(last_items(vec![1, 2], 5), vec![1, 2]);
}

#[test]
fn finalize_default_keeps_original_and_writes_new_file() {
    let o = OutputSettings::default();
    let p = finalize_plan("/d/a.mp4", "/d/a_compressed.mp4", &o, 1000, 400);
    assert_eq!(p.steps, vec![FsStep::MoveTempToFinal, FsStep::CopyDatesToFinal]);
    assert!(!p.result_is_input);
    assert_eq!(p.size, 400);
}

#[test]
fn finalize_overwrite_same_ext_replaces_in_place() {
    let mut o = OutputSettings::default();
    o.overwrite_original = true;
    o.keep_dates = false;
    let p = finalize_plan("/d/a.jpg", "/d/a.jpg", &o, 1000, 300);
    assert_eq!(p.steps, vec![FsStep::MoveTempToFinal]);
    assert_eq!(p.size, 300);
}

#[test]
fn finalize_overwrite_diff_ext_removes_original() {
    let mut o = OutputSettings::default();
    o.overwrite_original = true;
    o.keep_dates = false;
    let p = finalize_plan("/d/a.png", "/d/a.webp", &o, 1000, 300);
    assert_eq!(p.steps, vec![FsStep::MoveTempToFinal, FsStep::TrashInput]);
}

#[test]
fn finalize_skip_if_larger_keeps_original_bytes() {
    let mut o = OutputSettings::default();
    o.skip_if_larger = true;
    let p = finalize_plan("/d/a.mp4", "/d/a_compressed.mp4", &o, 1000, 1200);
    assert_eq!(p.steps, vec![FsStep::CopyInputToFinal, FsStep::CopyDatesToFinal, FsStep::RemoveTemp]);
    assert_eq!(p.size, 1000);
    assert!(!p.result_is_input);
    o.overwrite_original = true;
    let q = finalize_plan("/d/b.mp4", "/d/b.mp4", &o, 1000, 1200);
    assert_eq!(q.steps, vec![FsStep::RemoveTemp]);
    assert!(q.result_is_input);
    assert_eq!(q.size, 1000);
    // Smaller encodings are kept as usual.
    let r = finalize_plan("/d/b.mp4", "/d/b.mp4", &o, 1000, 999);
    assert_eq!(r.size, 999);
}

#[test]
fn finalize_trash_original_removes_input() {
    let mut o = OutputSettings::default();
    o.trash_original = true;
    let p = finalize_plan("/d/a.mp4", "/d/a_compressed.mp4", &o, 1000, 400);
    assert_eq!(p.steps, vec![FsStep::MoveTempToFinal, FsStep::CopyDatesToFinal, FsStep::TrashInput]);
    // Never when the final path is the input itself.
    let q = finalize_plan("/d/a.mp4", "/d/a.mp4", &o, 1000, 400);
    assert!(!q.steps.contains(&FsStep::TrashInput));
}

#[test]
fn output_of_equal_size_is_not_larger() {
    let mut t = JobTable::new();
    let id = t.enqueue(inputs(1))[0].id;
    let input_size = t.list()[0].input.size;
    assert!(t.start(id));
    t.finish_ok(id, "/v/0_compressed.mp4".to_string(), input_size, None, 10, 20);
    assert!(!t.list()[0].larger);
}

#[test]
fn names_differing_only_in_case_are_taken() {
    assert_eq!(pick_output("/v", "a", "jpg", "/v/x.png", &vec!["A.JPG".to_string()], false), "/v/a (1).jpg");
    assert_eq!(pick_output("/v", "a", "jpg", "/V/A.jpg", &vec![], false), "/v/a (1).jpg");
    assert_eq!(pick_output("/v", "a", "jpg", "/v/b.jpg", &vec!["b.jpg".to_string()], false), "/v/a.jpg");
}
