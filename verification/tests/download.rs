use bread::error::Error;
use bread::mirror::Mirror;
use bread::database::Database;
use bread::net::download::{
    download_file, download_files, final_segment, Download, DownloadAction, DownloadEvent, DownloadState,
    MultiDownloadResult,
};

#[test]
fn last_segment_of_a_path() {
    assert_eq!(final_segment("/pkgs/x86_64/foo@1.0.crumb"), Some("foo@1.0.crumb".to_string()));
    assert_eq!(final_segment("leopard.db.gz"), Some("leopard.db.gz".to_string()));
    assert_eq!(final_segment("/a/b/"), None);
    assert_eq!(final_segment("/"), None);
    assert_eq!(final_segment(""), None);
}

#[test]
fn download_is_named_after_the_address() {
    let d = download_file("https://mirror.example/pkgs/foo@1.0.crumb?sig=a/b").unwrap();
    assert_eq!(
        d,
        Download { name: "foo@1.0.crumb".to_string(), expected: 0, received: 0, state: DownloadState::Requested }
    );
    assert_eq!(download_file("https://mirror.example/leopard.db.gz").unwrap().name, "leopard.db.gz");
    assert_eq!(download_file("https://mirror.example/"), Err(Error::TransportFailure));
    assert_eq!(download_file("https://mirror.example"), Err(Error::TransportFailure));
    assert_eq!(download_file("not a uri"), Err(Error::TransportFailure));
    assert_eq!(download_file(""), Err(Error::TransportFailure));
}

#[test]
fn single_download_runs_to_its_end() {
    let mut d = download_file("https://mirror.example/a.bin").unwrap();
    assert_eq!(d.result(), None);
    assert_eq!(d.on_event(DownloadEvent::Response { length: 10 }), DownloadAction::Read);
    assert_eq!((d.expected, d.received, d.state), (10, 0, DownloadState::Receiving));
    assert_eq!(d.on_event(DownloadEvent::Chunk { length: 4 }), DownloadAction::Read);
    assert_eq!(d.on_event(DownloadEvent::Chunk { length: 6 }), DownloadAction::Read);
    assert_eq!(d.result(), None);
    assert_eq!(d.on_event(DownloadEvent::End), DownloadAction::Finish);
    assert_eq!(d.result(), Some(MultiDownloadResult { name: "a.bin".to_string(), size: 10 }));
    assert_eq!(d.on_event(DownloadEvent::Chunk { length: 6 }), DownloadAction::Nothing);
    assert_eq!(d.on_event(DownloadEvent::Failure), DownloadAction::Nothing);
    assert_eq!((d.received, d.state), (10, DownloadState::Complete));
}

#[test]
fn failures_and_events_out_of_turn() {
    let mut d = download_file("https://mirror.example/a.bin").unwrap();
    assert_eq!(d.on_event(DownloadEvent::Chunk { length: 1 }), DownloadAction::Abandon);
    assert_eq!(d.state, DownloadState::Failed);
    assert_eq!(d.on_event(DownloadEvent::Response { length: 1 }), DownloadAction::Nothing);
    assert_eq!(d.result(), None);

    let mut d = download_file("https://mirror.example/a.bin").unwrap();
    assert_eq!(d.on_event(DownloadEvent::Failure), DownloadAction::Abandon);
    assert_eq!(d.state, DownloadState::Failed);

    let mut d = download_file("https://mirror.example/a.bin").unwrap();
    d.on_event(DownloadEvent::Response { length: 5 });
    assert_eq!(d.on_event(DownloadEvent::Response { length: 5 }), DownloadAction::Abandon);

    let mut d = download_file("https://mirror.example/a.bin").unwrap();
    d.on_event(DownloadEvent::Response { length: 5 });
    d.on_event(DownloadEvent::Chunk { length: u64::MAX });
    d.on_event(DownloadEvent::Chunk { length: 2 });
    assert_eq!(d.received, u64::MAX);
}

#[test]
fn batch_results_follow_the_addresses() {
    let uris = vec![
        "https://mirror.example/A.crumb".to_string(),
        "https://mirror.example/B.crumb".to_string(),
        "https://mirror.example/C.crumb".to_string(),
    ];
    let mut batch = download_files(&uris);
    assert_eq!(batch.slots.len(), 3);
    assert_eq!(batch.results(), vec![None, None, None]);
    assert!(!batch.settled());
    assert_eq!(batch.on_event(2, DownloadEvent::Response { length: 30 }), DownloadAction::Read);
    assert_eq!(batch.on_event(0, DownloadEvent::Response { length: 100 }), DownloadAction::Read);
    assert_eq!(batch.on_event(1, DownloadEvent::Failure), DownloadAction::Abandon);
    assert_eq!(batch.on_event(2, DownloadEvent::Chunk { length: 30 }), DownloadAction::Read);
    assert_eq!(batch.on_event(0, DownloadEvent::Chunk { length: 64 }), DownloadAction::Read);
    assert_eq!(batch.on_event(2, DownloadEvent::End), DownloadAction::Finish);
    assert!(!batch.settled());
    assert_eq!(batch.on_event(0, DownloadEvent::Chunk { length: 36 }), DownloadAction::Read);
    assert_eq!(batch.on_event(0, DownloadEvent::End), DownloadAction::Finish);
    assert_eq!(batch.on_event(7, DownloadEvent::End), DownloadAction::Nothing);
    assert!(batch.settled());
    let results = batch.results();
    assert_eq!(
        results,
        vec![
            Some(MultiDownloadResult { name: "A.crumb".to_string(), size: 100 }),
            None,
            Some(MultiDownloadResult { name: "C.crumb".to_string(), size: 30 }),
        ]
    );
    assert_eq!(results[0].as_ref().unwrap().size, batch.slots[0].expected);
    assert_eq!(results[2].as_ref().unwrap().size, batch.slots[2].expected);
}

#[test]
fn batch_with_unusable_address() {
    let uris = vec!["https://mirror.example/".to_string(), "https://mirror.example/x".to_string()];
    let mut batch = download_files(&uris);
    assert_eq!(batch.slots[0].state, DownloadState::Failed);
    assert_eq!(batch.slots[1].state, DownloadState::Requested);
    assert_eq!(batch.on_event(0, DownloadEvent::Response { length: 1 }), DownloadAction::Nothing);
    assert_eq!(batch.results(), vec![None, None]);
    assert!(download_files(&Vec::new()).settled());
}

#[test]
fn mirror_offers_its_index() {
    let mirror = Mirror {
        uri: "https://mirror.example".to_string(),
        db: Database { name: "leopard".to_string(), entries: vec![] },
    };
    assert_eq!(mirror.index_url(), "https://mirror.example/leopard.db.gz");
}
