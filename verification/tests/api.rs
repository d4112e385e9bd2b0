use bt_player::api::{
    content_type_for, default_file_index, is_authorized, local_stream_url, magnet_response,
    media_type_for_extension, parse_range_header, plan_resolve, queued_export, requested_link,
    stream_plan, torrent_id_from_stream_url, validate_new_export, validate_status_update,
    CreateCloudExportRequest, HttpStatus, ResolvePlan, ResolveRequest, StreamPlan,
    UpdateCloudExportStatusRequest, CLOUD_EXPORT_LIST_LIMIT, HISTORY_LIMIT,
};
use bt_player::engine::{stream_url_for, FileEntry};
use bt_player::layer::LinkTier;

#[test]
fn torrent_id_from_engine_addresses() {
    assert_eq!(torrent_id_from_stream_url("/stream/torrents/7/stream/0"), Some(7));
    assert_eq!(torrent_id_from_stream_url("stream/torrents/12/stream/3/"), Some(12));
    assert_eq!(torrent_id_from_stream_url("//torrents/+5"), Some(5));
    assert_eq!(torrent_id_from_stream_url("/stream/torrents/abc/stream/0"), None);
    assert_eq!(torrent_id_from_stream_url("/torrents/x/torrents/9"), Some(9));
    assert_eq!(torrent_id_from_stream_url("/stream/torrents"), None);
    assert_eq!(torrent_id_from_stream_url(""), None);
}

#[test]
fn stream_address_round_trip() {
    for (t, i) in [(0usize, 0usize), (7, 0), (123456, 42), (usize::MAX, 1)] {
        assert_eq!(torrent_id_from_stream_url(&stream_url_for(t, i)), Some(t));
    }
}

#[test]
fn range_forms() {
    assert_eq!(parse_range_header("bytes=0-99", 1000), Ok(Some((0, 99))));
    assert_eq!(parse_range_header("bytes=100-", 1000), Ok(Some((100, 999))));
    assert_eq!(parse_range_header("bytes=-100", 1000), Ok(Some((900, 999))));
    assert_eq!(parse_range_header("bytes=-5000", 1000), Ok(Some((0, 999))));
    assert_eq!(parse_range_header("bytes=500-5000", 1000), Ok(Some((500, 999))));
    assert_eq!(parse_range_header("bytes=999-999", 1000), Ok(Some((999, 999))));
    assert_eq!(parse_range_header("bytes=+1-+2", 10), Ok(Some((1, 2))));
}

#[test]
fn range_errors() {
    assert_eq!(parse_range_header("items=0-1", 10), Err("invalid range unit, expected 'bytes'"));
    assert_eq!(parse_range_header("bytes=0-1,3-4", 10), Err("multi-range not supported"));
    assert_eq!(parse_range_header("bytes=0-1-2", 10), Err("invalid range format"));
    assert_eq!(parse_range_header("bytes=5", 10), Err("invalid range format"));
    assert_eq!(parse_range_header("bytes=-", 10), Err("invalid range format"));
    assert_eq!(parse_range_header("bytes=-x", 10), Err("invalid suffix number"));
    assert_eq!(parse_range_header("bytes=-0", 10), Err("suffix range must be > 0"));
    assert_eq!(parse_range_header("bytes=x-", 10), Err("invalid start number"));
    assert_eq!(parse_range_header("bytes=10-", 10), Err("range start >= file length"));
    assert_eq!(parse_range_header("bytes=x-5", 10), Err("invalid start number"));
    assert_eq!(parse_range_header("bytes=1-y", 10), Err("invalid end number"));
    assert_eq!(parse_range_header("bytes=5-4", 10), Err("range start > end"));
    assert_eq!(parse_range_header("bytes=10-20", 10), Err("range start >= file length"));
    assert_eq!(parse_range_header("bytes=0-0", 0), Err("range start >= file length"));
}

#[test]
fn ranges_stay_inside_the_body() {
    let headers = ["bytes=0-", "bytes=-1", "bytes=-99999", "bytes=3-3", "bytes=4-100", "bytes=0-2"];
    for total in 1..12usize {
        for h in headers {
            if let Ok(Some((s, e))) = parse_range_header(h, total) {
                assert!(s <= e && e < total, "{} on {}", h, total);
            }
        }
    }
}

#[test]
fn stream_plans() {
    match stream_plan(Some("bytes=2-5"), 10) {
        Ok(StreamPlan::Partial { start, end, content_range }) => {
            assert_eq!((start, end), (2, 5));
            assert_eq!(content_range, "bytes 2-5/10");
        }
        _ => panic!("expected a partial answer"),
    }
    assert!(matches!(stream_plan(None, 10), Ok(StreamPlan::Full)));
    match stream_plan(Some("bytes=20-"), 10) {
        Ok(StreamPlan::Unsatisfiable { content_range }) => assert_eq!(content_range, "bytes */10"),
        _ => panic!("expected a refusal"),
    }
    match stream_plan(Some("bytes=-5"), 0) {
        Err(e) => {
            assert_eq!(e.status, HttpStatus::InternalServerError);
            assert_eq!(e.error.error, "文件为空");
        }
        Ok(_) => panic!("an empty body is an error"),
    }
}

#[test]
fn media_types() {
    assert_eq!(content_type_for("/data/movie.MP4"), "video/mp4");
    assert_eq!(content_type_for("/data/movie.mkv"), "video/x-matroska");
    assert_eq!(content_type_for("/data/a.b.WebM"), "video/webm");
    assert_eq!(content_type_for("/data/clip.avi"), "video/x-msvideo");
    assert_eq!(content_type_for("/data/clip.mov"), "video/quicktime");
    assert_eq!(content_type_for("/data/readme"), "application/octet-stream");
    assert_eq!(content_type_for("/data/.mp4"), "application/octet-stream");
    assert_eq!(media_type_for_extension("mp4"), "video/mp4");
    assert_eq!(media_type_for_extension("MP4"), "application/octet-stream");
}

#[test]
fn auth_rules() {
    assert!(is_authorized(None, None, None));
    assert!(is_authorized(None, Some("Bearer x"), None));
    assert!(is_authorized(Some("s3cret"), Some("Bearer s3cret"), None));
    assert!(is_authorized(Some("s3cret"), None, Some("s3cret")));
    assert!(is_authorized(Some("s3cret"), Some("Bearer wrong"), Some("s3cret")));
    assert!(!is_authorized(Some("s3cret"), None, None));
    assert!(!is_authorized(Some("s3cret"), Some("s3cret"), None));
    assert!(!is_authorized(Some("s3cret"), Some("bearer s3cret"), None));
    assert!(!is_authorized(Some("s3cret"), Some("Bearer s3cret "), Some("S3CRET")));
}

#[test]
fn resolve_request_needs_a_link() {
    let e = requested_link(&ResolveRequest { url: "   ".into() }).err().unwrap();
    assert_eq!(e.status, HttpStatus::BadRequest);
    assert_eq!(e.error.error, "URL 不能为空");
    assert_eq!(requested_link(&ResolveRequest { url: " magnet:?x \n".into() }).ok().unwrap(), "magnet:?x");
}

#[test]
fn plans_for_each_tier() {
    let hls = LinkTier::ReadyToPlay { stream_url: "https://x/a.m3u8".into(), headers: vec![] };
    match plan_resolve(hls) {
        ResolvePlan::Respond(r) => {
            assert_eq!(r.stream_url, "https://x/a.m3u8");
            assert_eq!(r.source_type, "hls");
            assert_eq!(r.files.len(), 1);
            assert_eq!(r.files[0].path, "HLS 流");
            assert_eq!(r.files[0].stream_url, "https://x/a.m3u8");
        }
        _ => panic!("expected an answer"),
    }
    let magnet = LinkTier::ReadyToPlay { stream_url: stream_url_for(3, 0), headers: vec![] };
    assert!(matches!(plan_resolve(magnet), ResolvePlan::ListFiles(3)));
    let broken = LinkTier::ReadyToPlay { stream_url: "/stream/torrents/x".into(), headers: vec![] };
    match plan_resolve(broken) {
        ResolvePlan::Fail(e) => {
            assert_eq!(e.status, HttpStatus::InternalServerError);
            assert_eq!(e.error.error, "无法从 stream_url 提取 torrent_id");
        }
        _ => panic!("expected a failure"),
    }
    match plan_resolve(LinkTier::NeedsCache { source_url: "s".into(), estimated_size: 1 }) {
        ResolvePlan::Fail(e) => {
            assert_eq!(e.status, HttpStatus::BadRequest);
            assert_eq!(e.error.error, "需要缓存后播放，暂不支持");
        }
        _ => panic!("expected a failure"),
    }
    match plan_resolve(LinkTier::DownloadOnly { download_url: "d".into() }) {
        ResolvePlan::Fail(e) => {
            assert_eq!(e.status, HttpStatus::BadRequest);
            assert_eq!(e.error.error, "仅支持下载，暂不支持");
        }
        _ => panic!("expected a failure"),
    }
    match plan_resolve(LinkTier::NotFound { reason: "expired".into() }) {
        ResolvePlan::Fail(e) => {
            assert_eq!(e.status, HttpStatus::NotFound);
            assert_eq!(e.error.error, "expired");
        }
        _ => panic!("expected a failure"),
    }
}

fn entry(index: usize, size: u64, ad: bool) -> FileEntry {
    FileEntry { index, path: format!("f{}", index), size_bytes: size, stream_url: String::new(), is_suspected_ad: ad }
}

#[test]
fn default_file_is_the_largest_clean_one() {
    assert_eq!(default_file_index(&vec![entry(0, 10, false), entry(1, 50, true), entry(2, 30, false)]), 2);
    assert_eq!(default_file_index(&vec![entry(0, 30, false), entry(1, 30, false)]), 1);
    assert_eq!(default_file_index(&vec![entry(0, 30, true), entry(1, 30, true)]), 0);
    assert_eq!(default_file_index(&vec![]), 0);
    assert_eq!(default_file_index(&vec![entry(5, 1, false)]), 5);
}

#[test]
fn magnet_answer_streams_through_the_api() {
    let r = magnet_response(4, vec![entry(0, 10, false), entry(1, 99, false), entry(2, 500, true)]);
    assert_eq!(r.source_type, "magnet");
    assert_eq!(r.stream_url, "/api/local-stream/4/1");
    assert_eq!(r.files.len(), 3);
    assert_eq!(r.files[2].stream_url, "/api/local-stream/4/2");
    assert!(r.files[2].is_suspected_ad);
    assert_eq!(r.files[1].size_bytes, 99);
    assert_eq!(local_stream_url(10, 0), "/api/local-stream/10/0");
}

#[test]
fn cloud_export_checks() {
    let req = CreateCloudExportRequest {
        provider: None,
        resource_id: "  r1 ".into(),
        source_type: " magnet".into(),
        source_locator: "magnet:?x ".into(),
    };
    let t = validate_new_export(&req).ok().unwrap();
    assert_eq!(t.provider, "pikpak");
    assert_eq!(t.resource_id, "r1");
    assert_eq!(t.source_type, "magnet");
    assert_eq!(t.source_locator, "magnet:?x");
    let req = CreateCloudExportRequest {
        provider: Some(" drive ".into()),
        resource_id: "r".into(),
        source_type: "t".into(),
        source_locator: "l".into(),
    };
    assert_eq!(validate_new_export(&req).ok().unwrap().provider, " drive ");
    let req = CreateCloudExportRequest {
        provider: None,
        resource_id: "r".into(),
        source_type: "  ".into(),
        source_locator: "l".into(),
    };
    let e = validate_new_export(&req).err().unwrap();
    assert_eq!(e.status, HttpStatus::BadRequest);
    assert_eq!(e.error.error, "resource_id/source_type/source_locator 不能为空");
    let q = queued_export(17);
    assert_eq!((q.id, q.status.as_str()), (17, "queued"));
}

#[test]
fn status_update_checks() {
    let ok = validate_status_update(&UpdateCloudExportStatusRequest {
        id: 3,
        status: " done ".into(),
        error_message: Some("x".into()),
    })
    .ok()
    .unwrap();
    assert_eq!((ok.id, ok.status.as_str(), ok.error_message.as_deref()), (3, "done", Some("x")));
    for (id, status) in [(0i64, "done"), (-1, "done"), (2, "  ")] {
        let e = validate_status_update(&UpdateCloudExportStatusRequest {
            id,
            status: status.into(),
            error_message: None,
        })
        .err()
        .unwrap();
        assert_eq!(e.status, HttpStatus::BadRequest);
        assert_eq!(e.error.error, "id/status 参数非法");
    }
}

#[test]
fn list_limits() {
    assert_eq!(HISTORY_LIMIT, 50);
    assert_eq!(CLOUD_EXPORT_LIST_LIMIT, 100);
}
