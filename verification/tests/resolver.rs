use bt_player::layer::{LinkTier, SourceResolver};
use bt_player::resolver::m3u8::{looks_like_m3u8, M3u8Resolver};
use bt_player::resolver::magnet::{magnet_tier, magnet_uri, MagnetResolver};
use bt_player::resolver::webpage::{
    extract_video_source, iframe_url, js_var_url, looks_like_player_iframe, looks_like_web_page,
    fetched_tier, media_url, resolve_url, video_tag_url, webpage_tier, PageFetch, WebPageResolver,
};
use bt_player::resolver::{ChainStep, ResolverChain, ResolverKind};

const HASH: &str = "AF89AB583826696F9E77D4CC07826E65ED831BF4";

#[test]
fn magnet_resolver_handles_magnets_and_hashes() {
    let r = MagnetResolver::new();
    assert!(r.can_handle("magnet:?xt=urn:btih:AF89AB583826696F9E77D4CC07826E65ED831BF4"));
    assert!(r.can_handle("  magnet:?xt=urn:btih:abc  "));
    assert!(r.can_handle(HASH));
    assert!(r.can_handle(&format!(" {} ", HASH.to_lowercase())));
    assert!(!r.can_handle("AF89AB583826696F9E77D4CC07826E65ED831BF")); // 39 digits
    assert!(!r.can_handle("ZF89AB583826696F9E77D4CC07826E65ED831BF4")); // not hex
    assert!(!r.can_handle("https://example.com/a.m3u8"));
    assert!(!r.can_handle("Magnet:?xt"));
}

#[test]
fn bare_hash_becomes_a_magnet_link() {
    assert_eq!(magnet_uri(HASH), format!("magnet:?xt=urn:btih:{}", HASH));
    assert_eq!(magnet_uri("  magnet:?xt=urn:btih:X  "), "magnet:?xt=urn:btih:X");
}

#[test]
fn m3u8_detection() {
    let r = M3u8Resolver;
    assert!(r.can_handle("https://cdn.example.com/live/master.m3u8"));
    assert!(r.can_handle("https://cdn.example.com/live/master.M3U8?token=1"));
    assert!(r.can_handle("http://x/playlist_m3u8"));
    assert!(!r.can_handle("https://example.com/video.mp4"));
    assert!(looks_like_m3u8("abc.m3u8x"));
    assert!(!looks_like_m3u8("abc.mp4"));
}

#[test]
fn m3u8_resolve_is_the_trimmed_link() {
    match M3u8Resolver.resolve("  https://x/a.m3u8 \n") {
        Ok(LinkTier::ReadyToPlay { stream_url, headers }) => {
            assert_eq!(stream_url, "https://x/a.m3u8");
            assert!(headers.is_empty());
        }
        other => panic!("unexpected {:?}", other),
    }
}

#[test]
fn web_page_detection() {
    let r = WebPageResolver;
    assert!(r.can_handle("https://www.example.com/watch/1"));
    assert!(r.can_handle("  HTTP://EXAMPLE.COM  "));
    assert!(!r.can_handle("https://example.com/a.m3u8"));
    assert!(!r.can_handle("ftp://example.com/"));
    assert!(!r.can_handle(HASH));
    assert!(looks_like_web_page("http://a"));
    assert!(!looks_like_web_page("HTTP://A"));
}

#[test]
fn relative_addresses() {
    let page = "https://site.example/videos/page.html";
    assert_eq!(resolve_url("https://cdn/x.mp4", page), "https://cdn/x.mp4");
    assert_eq!(resolve_url("http://cdn/x.mp4", page), "http://cdn/x.mp4");
    assert_eq!(resolve_url("//cdn/x.mp4", page), "https://cdn/x.mp4");
    assert_eq!(resolve_url("//cdn/x.mp4", "http://site/"), "http://cdn/x.mp4");
    assert_eq!(resolve_url("./media/x.mp4", page), "https://site.example/videos/media/x.mp4");
    assert_eq!(resolve_url("/media/x.mp4", page), "https://site.example/videos/media/x.mp4");
    assert_eq!(resolve_url("././//x.mp4", page), "https://site.example/videos/x.mp4");
    // the last '/' is inside "https://": the address is kept as it is
    assert_eq!(resolve_url("x.mp4", "https://a"), "x.mp4");
    assert_eq!(resolve_url("x.mp4", "no-slash"), "x.mp4");
    assert_eq!(resolve_url("x.mp4", "http://ab/"), "http://ab/x.mp4");
}

#[test]
fn relative_address_on_a_non_ascii_page() {
    // the position of the last '/' is counted in bytes: 5 characters, 9 bytes
    assert_eq!(resolve_url("x.mp4", "abc视频/"), "abc视频/x.mp4");
    assert_eq!(resolve_url("x.mp4", "abcde/"), "x.mp4");
}

#[test]
fn video_tag_strategy() {
    let page = "https://site.example/v/page";
    let html = r#"<html><body><video src="movie.mp4"></video></body></html>"#;
    assert_eq!(extract_video_source(html, page), Ok("https://site.example/v/movie.mp4".to_string()));
    let html = r#"<html><body><video><source src="https://cdn.example/a.m3u8"></video></body></html>"#;
    assert_eq!(extract_video_source(html, page), Ok("https://cdn.example/a.m3u8".to_string()));
}

#[test]
fn video_tag_choice_on_found_attributes() {
    let page = "https://s.example/p/q";
    let none: Option<Vec<Option<String>>> = Some(vec![]);
    assert_eq!(video_tag_url(&Some(vec![Some("a.mp4".into())]), &none, page), Some("https://s.example/p/a.mp4".into()));
    assert_eq!(video_tag_url(&none, &Some(vec![Some("//c/b.mp4".into())]), page), Some("https://c/b.mp4".into()));
    assert_eq!(video_tag_url(&Some(vec![None, Some("a.mp4".into())]), &none, page), None);
    assert_eq!(video_tag_url(&None, &Some(vec![Some("b.mp4".into())]), page), None);
    assert_eq!(video_tag_url(&none, &none, page), None);
}

#[test]
fn iframe_strategy() {
    let page = "https://s.example/p/q";
    let html = r#"<iframe src="https://ads.example/banner"></iframe><iframe src="https://p.example/Player/1"></iframe>"#;
    assert_eq!(extract_video_source(html, page), Ok("https://p.example/Player/1".to_string()));
    assert_eq!(
        iframe_url(&Some(vec![Some("https://a/x".into()), Some("//v/embed/2".into())]), page),
        Some("https://v/embed/2".into())
    );
    assert_eq!(iframe_url(&Some(vec![None, Some("https://v/video".into())]), page), None);
    assert!(looks_like_player_iframe("https://x/embed?id=1"));
    assert!(!looks_like_player_iframe("https://x/banner"));
}

#[test]
fn js_variable_strategy() {
    let page = "https://s.example/p/q";
    let html = r#"<script>var player = { videoUrl: "https://cdn.example/hls/index.m3u8" };</script>"#;
    assert_eq!(extract_video_source(html, page), Ok("https://cdn.example/hls/index.m3u8".to_string()));
    let html = r#"<script>jwplayer().setup({"file": "/media/movie.mp4"});</script>"#;
    assert_eq!(extract_video_source(html, page), Ok("https://s.example/p/media/movie.mp4".to_string()));
    assert_eq!(js_var_url(&vec![Some("a.mp4".into()), Some("abcd.mp4".into())], page), Some("https://s.example/p/abcd.mp4".into()));
    assert_eq!(js_var_url(&vec![None, Some("a.mp4".into())], page), None);
}

#[test]
fn media_search_strategy() {
    let page = "https://s.example/p/q";
    let html = r#"<div data-x='https://cdn.example/live/stream.m3u8?t=1'></div>"#;
    assert_eq!(extract_video_source(html, page), Ok("https://cdn.example/live/stream.m3u8?t=1".to_string()));
    assert_eq!(
        media_url(&vec![vec![Some("data:x.m3u8".into())], vec![Some("https://c/very-long-name-here.mp4".into())]], "relative"),
        Some("https://c/very-long-name-here.mp4".into())
    );
    assert_eq!(media_url(&vec![vec![None], vec![]], page), None);
}

#[test]
fn nothing_found() {
    assert_eq!(
        extract_video_source("<html><body>hello</body></html>", "https://s.example/p"),
        Err("未能从页面中提取到视频源".to_string())
    );
}

#[test]
fn web_page_tier_carries_the_referer() {
    let html = r#"<video src="https://cdn.example/v.mp4"></video>"#;
    match webpage_tier(html, "  https://s.example/p  ") {
        Ok(LinkTier::ReadyToPlay { stream_url, headers }) => {
            assert_eq!(stream_url, "https://cdn.example/v.mp4");
            assert_eq!(headers, vec![("Referer".to_string(), "https://s.example/p".to_string())]);
        }
        other => panic!("unexpected {:?}", other),
    }
    assert!(webpage_tier("<p></p>", "https://s.example/p").is_err());
}

fn standard_chain() -> ResolverChain {
    let mut chain = ResolverChain::new();
    chain.register(ResolverKind::Magnet(MagnetResolver::new()));
    chain.register(ResolverKind::M3u8(M3u8Resolver));
    chain.register(ResolverKind::WebPage(WebPageResolver));
    chain
}

#[test]
fn chain_picks_the_first_resolver_that_handles_the_link() {
    let chain = standard_chain();
    assert_eq!(chain.len(), 3);
    assert!(matches!(chain.next_step(HASH, 0), ChainStep::Try(0)));
    assert!(matches!(chain.next_step(" https://x/a.m3u8 ", 0), ChainStep::Try(1)));
    assert!(matches!(chain.next_step("https://x/watch", 0), ChainStep::Try(2)));
    assert!(matches!(chain.next_step("https://x/watch", 3), ChainStep::Done(Err(_))));
    match chain.next_step("ftp://nothing", 0) {
        ChainStep::Done(Err(e)) => assert_eq!(e, "无法识别的链接类型，请输入 magnet: 或 .m3u8 地址"),
        _ => panic!("expected an error"),
    }
}

#[test]
fn chain_moves_on_after_not_found() {
    let mut chain = ResolverChain::new();
    chain.register(ResolverKind::WebPage(WebPageResolver));
    chain.register(ResolverKind::WebPage(WebPageResolver));
    let input = "  https://x/watch ";
    let step = chain.after_outcome(input, 0, Ok(LinkTier::NotFound { reason: "gone".into() }));
    assert!(matches!(step, ChainStep::Try(1)));
    let step = chain.after_outcome(input, 1, Ok(LinkTier::NotFound { reason: "gone".into() }));
    assert!(matches!(step, ChainStep::Done(Err(_))));
    match chain.after_outcome(input, 0, Ok(LinkTier::DownloadOnly { download_url: "d".into() })) {
        ChainStep::Done(Ok((LinkTier::DownloadOnly { download_url }, t))) => {
            assert_eq!(download_url, "d");
            assert_eq!(t, "https://x/watch");
        }
        _ => panic!("expected a result"),
    }
    match chain.after_outcome(input, 0, Err("boom".into())) {
        ChainStep::Done(Err(e)) => assert_eq!(e, "boom"),
        _ => panic!("expected the error"),
    }
}

#[test]
fn empty_chain_recognizes_nothing() {
    let chain = ResolverChain::new();
    assert_eq!(chain.len(), 0);
    assert!(matches!(chain.next_step(HASH, 0), ChainStep::Done(Err(_))));
}

#[test]
fn magnet_tier_from_engine_answer() {
    match magnet_tier(Ok(("/stream/torrents/4/stream/0".to_string(), 4))) {
        Ok(LinkTier::ReadyToPlay { stream_url, headers }) => {
            assert_eq!(stream_url, "/stream/torrents/4/stream/0");
            assert!(headers.is_empty());
        }
        other => panic!("unexpected {:?}", other),
    }
    match magnet_tier(Err("磁链解析超时（60s）".to_string())) {
        Err(e) => assert_eq!(e, "磁链解析失败: 磁链解析超时（60s）"),
        other => panic!("unexpected {:?}", other),
    }
}

#[test]
fn fetched_page_outcomes() {
    let page = " https://site.example/watch/9 ";
    match fetched_tier(PageFetch::BadStatus("404 Not Found".to_string()), page) {
        Err(e) => assert_eq!(e, "页面请求失败: HTTP 404 Not Found"),
        other => panic!("unexpected {:?}", other),
    }
    match fetched_tier(PageFetch::SendFailed("dns error".to_string()), page) {
        Err(e) => assert_eq!(e, "请求页面失败: dns error"),
        other => panic!("unexpected {:?}", other),
    }
    match fetched_tier(PageFetch::ClientFailed("tls".to_string()), page) {
        Err(e) => assert_eq!(e, "创建 HTTP 客户端失败: tls"),
        other => panic!("unexpected {:?}", other),
    }
    match fetched_tier(PageFetch::ReadFailed("eof".to_string()), page) {
        Err(e) => assert_eq!(e, "读取页面内容失败: eof"),
        other => panic!("unexpected {:?}", other),
    }
    let html = r#"<html><body><video src="/media/v.mp4"></video></body></html>"#;
    match fetched_tier(PageFetch::Fetched(html.to_string()), page) {
        Ok(LinkTier::ReadyToPlay { stream_url, headers }) => {
            assert_eq!(stream_url, "https://site.example/watch/media/v.mp4");
            assert_eq!(headers, vec![("Referer".to_string(), "https://site.example/watch/9".to_string())]);
        }
        other => panic!("unexpected {:?}", other),
    }
    match fetched_tier(PageFetch::Fetched("<html></html>".to_string()), page) {
        Err(e) => assert_eq!(e, "未能从页面中提取到视频源"),
        other => panic!("unexpected {:?}", other),
    }
}
