use discord_analyzer::downloads::{attempts_left, settle_attempt};
use discord_analyzer::downloads::{
    attachment_basename, canonical_attachment_key, categories, decide_attempt, finish_label,
    guess_category, hash_index_version, nothing_to_download_label, plan_downloads,
    progress_label, safe_file_name, DownloadOutcome, DownloadTally, HashIndex,
};
use discord_analyzer::patterns::ContentHasher;

fn sha(bytes: &[u8]) -> String {
    let mut h = ContentHasher::new();
    h.update(bytes);
    h.finish()
}

#[test]
fn keys_ignore_scheme_query_and_fragment() {
    assert_eq!(
        canonical_attachment_key("https://cdn.example/a/b.png?ex=1&token=2#frag"),
        "cdn.example/a/b.png"
    );
    assert_eq!(canonical_attachment_key("http://h/x.txt"), "h/x.txt");
    assert_eq!(canonical_attachment_key("ftp://h/x"), "ftp://h/x");
    // a token does not change the key
    assert_eq!(
        canonical_attachment_key("https://h/one.png?token=1"),
        canonical_attachment_key("https://h/one.png?token=2")
    );
}

#[test]
fn basenames_and_safe_names() {
    assert_eq!(attachment_basename("h/dir/file name.png"), "file name.png");
    assert_eq!(attachment_basename("h/dir/"), "dir");
    assert_eq!(attachment_basename("///"), "attachment");
    assert_eq!(attachment_basename(""), "attachment");
    assert_eq!(safe_file_name("file name(1).png"), "file_name_1_.png");
}

#[test]
fn categories_by_extension() {
    assert_eq!(guess_category("h/song.MP3"), "audios");
    assert_eq!(guess_category("h/paper.pdf"), "docs");
    assert_eq!(guess_category("h/pic.jpeg"), "imgs");
    assert_eq!(guess_category("h/notes.txt"), "txts");
    assert_eq!(guess_category("h/app.js"), "codes");
    assert_eq!(guess_category("h/setup.exe"), "exes");
    assert_eq!(guess_category("h/clip.mp4"), "vids");
    assert_eq!(guess_category("h/pack.zip"), "zips");
    assert_eq!(guess_category("h/blob"), "unknowns");
    assert_eq!(categories().len(), 10);
    assert_eq!(categories()[0], "unknowns");
}

#[test]
fn plan_numbers_unique_links_and_counts_repeats() {
    let links = vec![
        "https://h/assets/one.png?token=1".to_string(),
        "  ".to_string(),
        " https://h/assets/one.png?token=2 ".to_string(),
        "https://h/dmA/mirror.mp4".to_string(),
        "https://h/dmB/unique.txt".to_string(),
    ];
    let plan = plan_downloads(&links);
    assert_eq!(plan.duplicates_ignored_url, 1);
    assert_eq!(plan.tasks.len(), 3);
    assert_eq!(plan.tasks[0].url, "https://h/assets/one.png?token=1");
    assert_eq!(plan.tasks[0].key, "h/assets/one.png");
    assert_eq!(plan.tasks[0].category, "imgs");
    assert_eq!(plan.tasks[0].output_name, "attachment_000000_one.png");
    assert_eq!(plan.tasks[0].temp_name, "attachment_000000.part");
    assert_eq!(plan.tasks[1].category, "vids");
    assert_eq!(plan.tasks[1].output_name, "attachment_000001_mirror.mp4");
    assert_eq!(plan.tasks[2].category, "txts");
    assert_eq!(plan.tasks[2].output_name, "attachment_000002_unique.txt");
}

#[test]
fn hash_index_keeps_first_path() {
    let mut idx = HashIndex::new();
    assert_eq!(idx.version(), hash_index_version());
    assert_eq!(idx.get("aa"), None);
    idx.insert("aa", "imgs/one.png");
    idx.insert_if_absent("aa", "vids/two.mp4");
    assert_eq!(idx.get("aa").as_deref(), Some("imgs/one.png"));
    idx.insert("aa", "vids/two.mp4");
    assert_eq!(idx.get("aa").as_deref(), Some("vids/two.mp4"));
    idx.insert_if_absent("bb", "txts/x.txt");
    assert_eq!(idx.entries().len(), 2);
}

#[test]
fn attempt_outcomes() {
    assert_eq!(decide_attempt(true, true), Some(DownloadOutcome::DuplicateContent));
    assert_eq!(decide_attempt(true, false), Some(DownloadOutcome::DuplicateContent));
    assert_eq!(decide_attempt(false, true), Some(DownloadOutcome::Saved));
    assert_eq!(decide_attempt(false, false), None);
}

#[test]
fn labels() {
    let mut t = DownloadTally::new();
    t.record(DownloadOutcome::Saved);
    t.record(DownloadOutcome::Saved);
    t.record(DownloadOutcome::Failed);
    assert_eq!(
        progress_label(3, 4, &t, 1),
        "Downloading: 3/4 (2 saved, 0 existing, 0 dup-content, 1 failed, 1 dup-url)"
    );
    assert_eq!(
        finish_label(&t, 0),
        "Download finished. 2 saved, 0 existing, 0 dup-content, 1 failed, 0 dup-url."
    );
    assert_eq!(nothing_to_download_label(), "No attachments to download.");
}

/// Two runs over links where two URLs differ only by token and two files
/// share their content: what each task ends as, driven by the plan, the
/// content hashes and the hash index.
#[test]
fn dedupes_url_and_content_across_runs() {
    let base = "http://127.0.0.1:9";
    let links = vec![
        format!("{}/assets/one.png?token=1", base),
        format!("{}/assets/one.png?token=2", base),
        format!("{}/dmA/mirror.mp4", base),
        format!("{}/dmB/unique.txt", base),
    ];
    let content = |key: &str| -> &'static [u8] {
        if key.ends_with("unique.txt") {
            b"unique text"
        } else {
            b"same bytes"
        }
    };
    let plan = plan_downloads(&links);
    assert_eq!(plan.tasks.len(), 3);

    // First run: nothing on disk yet.
    let mut saved_files: Vec<String> = Vec::new();
    let mut index = HashIndex::new();
    let mut first = DownloadTally::new();
    for task in &plan.tasks {
        let hash = sha(content(&task.key));
        let live = match index.get(&hash) {
            Some(p) => saved_files.contains(&p),
            None => false,
        };
        let outcome = decide_attempt(live, true).expect("first attempt succeeds");
        if outcome == DownloadOutcome::Saved {
            let path = format!("{}/{}", task.category, task.output_name);
            index.insert_if_absent(&hash, &path);
            saved_files.push(path);
        }
        first.record(outcome);
    }
    let first_label = finish_label(&first, plan.duplicates_ignored_url);
    assert!(first_label.contains("2 saved"), "{first_label}");
    assert!(first_label.contains("1 dup-content"), "{first_label}");
    assert!(first_label.contains("1 dup-url"), "{first_label}");
    assert_eq!(saved_files.len(), 2);
    assert_eq!(index.entries().len(), 2);

    // Second run: saved outputs exist already.
    let mut second = DownloadTally::new();
    for task in &plan.tasks {
        let path = format!("{}/{}", task.category, task.output_name);
        if saved_files.contains(&path) {
            second.record(DownloadOutcome::Existing);
            continue;
        }
        let hash = sha(content(&task.key));
        let live = match index.get(&hash) {
            Some(p) => saved_files.contains(&p),
            None => false,
        };
        second.record(decide_attempt(live, true).expect("attempt succeeds"));
    }
    let second_label = finish_label(&second, plan.duplicates_ignored_url);
    assert!(second_label.contains("0 saved"), "{second_label}");
    assert!(second_label.contains("2 existing"), "{second_label}");
    assert!(second_label.contains("1 dup-content"), "{second_label}");
    assert!(second_label.contains("1 dup-url"), "{second_label}");
}

#[test]
fn settled_attempts_keep_the_index() {
    let mut index = HashIndex::with_version(2);
    assert_eq!(settle_attempt(&mut index, "h1", "imgs/a.png", false, false), None);
    assert_eq!(index.get("h1"), None);
    assert_eq!(settle_attempt(&mut index, "h1", "imgs/a.png", false, true), Some(DownloadOutcome::Saved));
    assert_eq!(index.get("h1"), Some("imgs/a.png".to_string()));
    assert_eq!(
        settle_attempt(&mut index, "h1", "imgs/b.png", true, true),
        Some(DownloadOutcome::DuplicateContent)
    );
    assert_eq!(index.get("h1"), Some("imgs/a.png".to_string()));
    assert_eq!(settle_attempt(&mut index, "h1", "imgs/c.png", false, true), Some(DownloadOutcome::Saved));
    assert_eq!(index.get("h1"), Some("imgs/c.png".to_string()));
    assert_eq!(index.version(), 2);
    assert!(attempts_left(0) && attempts_left(2) && !attempts_left(3));
}
