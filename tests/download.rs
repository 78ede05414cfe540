use rtranslator::download::{batch_ranges, total_size, DownloadProgress};
use rtranslator::resource::{ModDownloadInfo, ModLoader};
use rtranslator::task::downloading_progress;
use rtranslator::version::GameVersion;

fn sized(size: usize) -> ModDownloadInfo {
    ModDownloadInfo {
        url: String::from("u"),
        size,
        loader: ModLoader::Quilt,
        game_version: GameVersion { major: 1, minor: 0, patch: 0 },
        path: String::from("p"),
    }
}

#[test]
fn batches_cover_all_transfers() {
    assert_eq!(batch_ranges(4, 2), vec![(0, 2), (2, 4)]);
    assert_eq!(batch_ranges(5, 2), vec![(0, 2), (2, 4), (4, 5)]);
    assert_eq!(batch_ranges(3, 10), vec![(0, 3)]);
    assert_eq!(batch_ranges(0, 3), vec![]);
}

#[test]
fn progress_after_first_batch_counts_completed_bytes_only() {
    let plans = vec![sized(10), sized(20), sized(30), sized(40)];
    let total = total_size(&plans).unwrap();
    assert_eq!(total, 100);
    let batches = batch_ranges(plans.len(), 2);
    let mut progress = DownloadProgress::new(total);
    let (start, end) = batches[0];
    for p in &plans[start..end] {
        progress.complete(p.size as u64);
    }
    assert_eq!(progress.completed, 30);
    assert_eq!(progress.fraction(), 3000);
    assert_eq!(downloading_progress(progress.fraction()), 3250);
    let (start, end) = batches[1];
    for p in &plans[start..end] {
        progress.complete(p.size as u64);
    }
    assert_eq!(progress.fraction(), 10000);
    assert_eq!(downloading_progress(10000), 8500);
}

#[test]
fn fractions_round_down() {
    let mut p = DownloadProgress::new(3);
    p.complete(1);
    assert_eq!(p.fraction(), 3333);
    assert_eq!(DownloadProgress::new(0).fraction(), 10000);
}

#[test]
fn total_size_overflow_is_reported() {
    let plans = vec![sized(usize::MAX), sized(1)];
    assert_eq!(total_size(&plans), None);
    assert_eq!(total_size(&vec![]), Some(0));
}
