use ephyr::vod::file::cache::{
    lookup, url_to_relative_path, DownloadEnd, DownloadStep, DownloadStepFailure, Entry, Lookup,
    Outcome, CONCURRENT_DOWNLOADS,
};
use ephyr::weburl::WebUrl;
use Outcome::{Done, Failed, NotFound};

fn rel(u: &str) -> Option<String> {
    url_to_relative_path(&WebUrl::parse(u).unwrap())
}

#[test]
fn keeps_only_allatra_videos() {
    assert_eq!(rel("https://api.allatra.video/storage/videos/a/b.mp4").as_deref(), Some("a/b.mp4"));
    assert_eq!(rel("http://api.allatra.video/storage/videos/x.mp4").as_deref(), Some("x.mp4"));
    assert_eq!(rel("https://example.com/storage/videos/a.mp4"), None);
    assert_eq!(rel("https://api.allatra.video/storage/videosx/a.mp4"), None);
    assert_eq!(rel("https://api.allatra.video/other/a.mp4"), None);
    assert_eq!(CONCURRENT_DOWNLOADS, 4);
}

#[test]
fn looks_up_cached_files() {
    assert_eq!(lookup(Entry::File), Lookup::Cached);
    assert_eq!(lookup(Entry::Missing), Lookup::Schedule);
    assert_eq!(lookup(Entry::Dir), Lookup::Schedule);
    assert_eq!(lookup(Entry::Unreadable), Lookup::Failed);
}

fn run(checks: &[Entry], actions: &[Outcome]) -> (DownloadStep, usize) {
    let (mut c, mut a) = (checks.iter(), actions.iter());
    let mut step = DownloadStep::start();
    let mut n = 0;
    while !step.is_finished() {
        step = if step.is_check() {
            step.after_check(*c.next().unwrap())
        } else {
            step.after_action(*a.next().unwrap())
        };
        n += 1;
    }
    (step, n)
}

#[test]
fn downloads_step_by_step() {
    assert_eq!(run(&[Entry::File], &[]), (DownloadStep::Finished(DownloadEnd::AlreadyCached), 1));
    assert_eq!(
        run(&[Entry::Missing, Entry::File], &[]),
        (DownloadStep::Finished(DownloadEnd::AlreadyDownloading), 2)
    );
    assert_eq!(
        run(&[Entry::Missing, Entry::Missing, Entry::Missing], &[Done, Done, Done, Done, Done, Done]),
        (DownloadStep::Finished(DownloadEnd::Downloaded), 9)
    );
    // A directory in place of the file is removed; a failed rename falls
    // back to a copy.
    assert_eq!(
        run(
            &[Entry::Unreadable, Entry::Missing, Entry::Dir],
            &[Done, Done, Done, Done, Done, Done, Failed, Done, Done],
        ),
        (DownloadStep::Finished(DownloadEnd::Downloaded), 12)
    );
    assert_eq!(
        run(&[Entry::Missing, Entry::Missing, Entry::File], &[Done, Done, Done, Done]),
        (DownloadStep::Finished(DownloadEnd::CachedMeanwhile), 7)
    );
    assert_eq!(
        run(&[Entry::Missing, Entry::Missing], &[Done, Done, NotFound]),
        (DownloadStep::Finished(DownloadEnd::Abandoned), 5)
    );
    assert_eq!(
        run(&[Entry::Missing, Entry::Missing], &[Done, Failed]),
        (DownloadStep::Finished(DownloadEnd::Failed(DownloadStepFailure::Request)), 4)
    );
    assert_eq!(
        run(&[Entry::Missing, Entry::Missing, Entry::Other], &[Done, Done, Done, Done, Done, Failed, Failed]),
        (DownloadStep::Finished(DownloadEnd::Failed(DownloadStepFailure::Move)), 10)
    );
}
