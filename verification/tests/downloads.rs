use kumo::downloads::{Download, DownloadId, DownloadList, DownloadsAction};
use kumo::engine::EngineId;
use kumo::group::GroupId;

fn download(n: usize, progress: u8) -> Download {
    let engine = EngineId::new(1, GroupId::default(), 3);
    Download {
        id: DownloadId::new(engine, n),
        destination: format!("/tmp/file{n}"),
        progress,
        failed: false,
        uri: format!("https://example.org/{n}"),
    }
}

#[test]
fn downloads_keep_insertion_order() {
    let mut list = DownloadList::new();
    assert_eq!(list.add_download(download(1, 0)), DownloadsAction::SetButtonVisible(true));
    list.add_download(download(2, 50));
    list.add_download(download(3, 100));
    assert_eq!(list.len(), 3);
    assert_eq!(list.get_index(0).unwrap().destination, "/tmp/file1");
    assert_eq!(list.get_index(2).unwrap().progress, 100);
    assert!(list.get_index(3).is_none());

    // Re-adding a download keeps its place.
    list.add_download(download(1, 20));
    assert_eq!(list.len(), 3);
    assert_eq!(list.get_index(0).unwrap().progress, 20);
}

#[test]
fn progress_updates_and_failures() {
    let mut list = DownloadList::new();
    list.add_download(download(1, 0));
    list.set_download_progress(download(1, 0).id, Some(42));
    assert_eq!(list.get_index(0).unwrap().progress, 42);
    assert!(!list.get_index(0).unwrap().failed);

    list.set_download_progress(download(1, 0).id, None);
    assert_eq!(list.get_index(0).unwrap().progress, 100);
    assert!(list.get_index(0).unwrap().failed);

    // Unknown downloads are ignored.
    list.set_download_progress(download(9, 0).id, Some(1));
    assert_eq!(list.len(), 1);
}

#[test]
fn closing_entries() {
    let mut list = DownloadList::new();
    list.add_download(download(1, 10));
    list.add_download(download(2, 100));

    match list.close_entry(0) {
        DownloadsAction::Cancel(id) => assert_eq!(id, download(1, 0).id),
        other => panic!("unexpected action {other:?}"),
    }
    assert!(list.get_index(0).unwrap().failed);
    assert_eq!(list.len(), 2);

    assert_eq!(list.close_entry(1), DownloadsAction::Nothing);
    assert_eq!(list.len(), 1);
    assert_eq!(list.close_entry(0), DownloadsAction::SetButtonVisible(false));
    assert_eq!(list.len(), 0);
    assert_eq!(list.close_entry(0), DownloadsAction::Nothing);
}

#[test]
fn clearing_finished_downloads() {
    let mut list = DownloadList::new();
    list.add_download(download(1, 100));
    list.add_download(download(2, 30));
    list.add_download(download(3, 100));
    assert_eq!(list.clear_finished(), DownloadsAction::Nothing);
    assert_eq!(list.len(), 1);
    assert_eq!(list.get_index(0).unwrap().progress, 30);

    list.set_download_progress(download(2, 0).id, Some(100));
    assert_eq!(list.clear_finished(), DownloadsAction::SetButtonVisible(false));
    assert_eq!(list.len(), 0);
}

#[test]
fn download_ids() {
    let engine = EngineId::new(4, GroupId::default(), 5);
    let id = DownloadId::new(engine, 6);
    assert_eq!(id.window_id(), 4);
    assert_eq!(id.engine_id(), engine);
    assert_eq!(engine.window_id(), 4);
    assert_eq!(engine.number(), 5);
    assert_eq!(engine.group_id(), GroupId::default());
}

use kumo::downloads::download_file_name;

#[test]
fn download_file_name_candidates() {
    assert_eq!(download_file_name("report.pdf", 0), "report.pdf");
    assert_eq!(download_file_name("report.pdf", 1), "report.pdf_1");
    assert_eq!(download_file_name("report.pdf", 10), "report.pdf_a");
    assert_eq!(download_file_name("x", 255), "x_ff");
    assert_eq!(download_file_name("x", 4096), "x_1000");
    assert_eq!(download_file_name("x", u32::MAX), "x_ffffffff");
}
