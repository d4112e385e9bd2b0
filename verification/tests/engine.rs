use bt_player::engine::{
    check_file_location, check_inside_folder, file_entries, file_name_at, latest_torrent_id,
    magnet_with_trackers, not_regular_file_message, output_folder_of, parsed_magnet,
    stream_base_url_text, stream_url_for, torrent_detail_url, torrents_list_url, AddOutcome,
    TorrentFileMeta, TorrentListEntry,
};

#[test]
fn stream_addresses() {
    assert_eq!(stream_url_for(3, 0), "/stream/torrents/3/stream/0");
    assert_eq!(stream_url_for(12, 7), "/stream/torrents/12/stream/7");
}

#[test]
fn trackers_are_added_once() {
    let m = "magnet:?xt=urn:btih:AF89AB583826696F9E77D4CC07826E65ED831BF4";
    let r = magnet_with_trackers(m);
    assert!(r.starts_with(m));
    assert!(r.contains("&tr=udp%3A%2F%2Ftracker.opentrackr.org%3A1337%2Fannounce"));
    assert!(r.contains("&tr=http%3A%2F%2Ftracker.openbittorrent.com%3A80%2Fannounce"));
    assert_eq!(r.matches("&tr=").count(), 8);
    // adding again changes nothing
    assert_eq!(magnet_with_trackers(&r), r);
}

#[test]
fn trackers_already_named_raw_are_not_added() {
    let m = "magnet:?xt=urn:btih:X&tr=udp://explodie.org:6969/announce";
    let r = magnet_with_trackers(m);
    assert!(!r.contains("explodie.org%3A6969"));
    assert_eq!(r.matches("&tr=").count(), 8);
}

#[test]
fn magnet_outcomes() {
    assert_eq!(parsed_magnet(AddOutcome::Added(5)), Ok(("/stream/torrents/5/stream/0".to_string(), 5)));
    assert_eq!(parsed_magnet(AddOutcome::AlreadyManaged(2)), Ok(("/stream/torrents/2/stream/0".to_string(), 2)));
    assert_eq!(parsed_magnet(AddOutcome::ListOnly), Err("意外 ListOnly 响应".to_string()));
    assert_eq!(
        parsed_magnet(AddOutcome::Failed("invalid magnet".to_string())),
        Err("添加磁链失败: invalid magnet".to_string())
    );
    assert_eq!(parsed_magnet(AddOutcome::TimedOut), Err("磁链解析超时（60s）".to_string()));
}

#[test]
fn engine_addresses() {
    assert_eq!(stream_base_url_text(9527), "http://127.0.0.1:9527");
    assert_eq!(torrents_list_url("http://127.0.0.1:9527"), Some("http://127.0.0.1:9527/torrents".to_string()));
    assert_eq!(torrent_detail_url("http://127.0.0.1:9527", 4), Some("http://127.0.0.1:9527/torrents/4".to_string()));
    assert_eq!(torrent_detail_url("not a url", 4), None);
}

#[test]
fn file_listing() {
    let files = vec![
        TorrentFileMeta { name: Some("Movie/feature.mkv".into()), length: Some(1 << 30) },
        TorrentFileMeta { name: Some("Movie/AD-promo.mp4".into()), length: None },
        TorrentFileMeta { name: None, length: Some(3) },
    ];
    let e = file_entries(9, &files);
    assert_eq!(e.len(), 3);
    assert_eq!((e[0].index, e[0].path.as_str(), e[0].size_bytes), (0, "Movie/feature.mkv", 1 << 30));
    assert_eq!(e[0].stream_url, "/stream/torrents/9/stream/0");
    assert!(!e[0].is_suspected_ad);
    assert_eq!(e[1].size_bytes, 0);
    assert!(e[1].is_suspected_ad);
    assert_eq!(e[2].path, "?");
    assert_eq!(e[2].stream_url, "/stream/torrents/9/stream/2");
}

#[test]
fn latest_torrent() {
    assert_eq!(latest_torrent_id(&vec![]), None);
    assert_eq!(latest_torrent_id(&vec![Some(3), None, Some(11), Some(2)]), Some(11));
    assert_eq!(latest_torrent_id(&vec![None, None]), Some(0));
}

#[test]
fn output_folders() {
    let ts = vec![
        TorrentListEntry { id: Some(1), output_folder: Some("/dl/one".into()) },
        TorrentListEntry { id: Some(2), output_folder: None },
        TorrentListEntry { id: Some(2), output_folder: Some("/dl/two".into()) },
    ];
    assert_eq!(output_folder_of(&ts, 1), Ok("/dl/one".to_string()));
    assert_eq!(output_folder_of(&ts, 2), Err("未找到 torrent 输出目录: 2".to_string()));
    assert_eq!(output_folder_of(&ts, 3), Err("未找到 torrent 输出目录: 3".to_string()));
}

#[test]
fn file_names() {
    let names = Some(vec![Some("a.mkv".to_string()), None]);
    assert_eq!(file_name_at(&names, 0), Ok("a.mkv".to_string()));
    assert_eq!(file_name_at(&names, 1), Err("文件索引不存在: 1".to_string()));
    assert_eq!(file_name_at(&names, 5), Err("文件索引不存在: 5".to_string()));
    assert_eq!(file_name_at(&None, 0), Err("torrent 文件列表为空".to_string()));
}

#[test]
fn file_location_checks() {
    assert_eq!(check_file_location("/dl/x", "Movie/a.mkv", 1, 2), Ok(()));
    assert_eq!(check_file_location("/dl/x", "a..b/c.mkv", 1, 2), Ok(()));
    assert_eq!(
        check_file_location("dl/x", "a.mkv", 1, 2),
        Err("output_folder must be absolute for torrent 1 file 2".to_string())
    );
    for bad in ["../etc/passwd", "a/../../b", "/etc/passwd", "a/.."] {
        assert_eq!(
            check_file_location("/dl/x", bad, 3, 4),
            Err("invalid file_name component for torrent 3 file 4".to_string())
        );
    }
    assert_eq!(check_inside_folder("/dl/x/a.mkv", "/dl/x", 1, 0), Ok(()));
    assert_eq!(
        check_inside_folder("/dl/xy/a.mkv", "/dl/x", 1, 0),
        Err("path traversal detected for torrent 1 file 0".to_string())
    );
    assert_eq!(not_regular_file_message(5, 6), "not a regular file for torrent 5 file 6");
}
