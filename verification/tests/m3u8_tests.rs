use rkazumi_core::m3u8::{M3U8Parser, PlaylistType};

#[test]
fn test_parse_master_playlist() {
    let content = "#EXTM3U\n#EXT-X-STREAM-INF:BANDWIDTH=1280000,RESOLUTION=720x480\nlow.m3u8\n#EXT-X-STREAM-INF:BANDWIDTH=2560000,RESOLUTION=1920x1080\nhigh.m3u8";
    let result = M3U8Parser::parse(content, None).unwrap();
    assert_eq!(result.variants.len(), 2);
    assert_eq!(result.playlist_type, PlaylistType::MasterPlaylist);
}

#[test]
fn test_parse_media_playlist() {
    let content = "#EXTM3U\n#EXT-X-TARGETDURATION:10\n#EXTINF:5.0,\nseg1.ts\n#EXTINF:5.0,\nseg2.ts\n#EXT-X-ENDLIST";
    let result = M3U8Parser::parse(content, None).unwrap();
    assert_eq!(result.segments.len(), 2);
    assert!(result.end_list);
}

#[test]
fn test_parse_with_encryption() {
    let content = "#EXTM3U\n#EXT-X-KEY:METHOD=AES-128,URI=\"key.bin\",IV=0xabc\n#EXTINF:5.0,\nseg1.ts\n#EXT-X-ENDLIST";
    let result = M3U8Parser::parse(content, None).unwrap();
    assert_eq!(result.segments.len(), 1);
    assert!(result.segments[0].key.is_some());
    assert_eq!(result.segments[0].key.as_ref().unwrap().method, "AES-128");
}

#[test]
fn test_resolve_url() {
    assert_eq!(M3U8Parser::resolve_url("seg.ts", Some("http://example.com/path/")), "http://example.com/path/seg.ts");
    assert_eq!(M3U8Parser::resolve_url("/seg.ts", Some("http://example.com")), "http://example.com/seg.ts");
    assert_eq!(M3U8Parser::resolve_url("http://other.com/seg.ts", Some("http://example.com")), "http://other.com/seg.ts");
}

#[test]
fn test_parse_extinf() {
    let content = "#EXTM3U\n#EXTINF:10.5,测试标题\nseg.ts\n#EXT-X-ENDLIST";
    let result = M3U8Parser::parse(content, None).unwrap();
    assert_eq!(result.segments[0].duration.parse::<f64>().unwrap_or(0.0), 10.5);
    assert_eq!(result.segments[0].title, "测试标题");
}

#[test]
fn test_get_best_variant() {
    let content = "#EXTM3U\n#EXT-X-STREAM-INF:BANDWIDTH=1280000\nlow.m3u8\n#EXT-X-STREAM-INF:BANDWIDTH=2560000\nhigh.m3u8";
    let result = M3U8Parser::parse(content, None).unwrap();
    let best = M3U8Parser::get_best_variant(&result).unwrap();
    assert_eq!(best.bandwidth, 2560000);
}

#[test]
fn rejects_text_without_header() {
    let err = M3U8Parser::parse("#EXTINF:1,\nseg.ts", None).unwrap_err();
    assert_eq!(err, "不是有效的 M3U8 文件");
    assert!(M3U8Parser::parse("", None).is_err());
    assert!(M3U8Parser::parse("  #EXTM3U  \r\n", None).is_ok());
}

#[test]
fn empty_playlist_is_unknown() {
    let result = M3U8Parser::parse("#EXTM3U\n", None).unwrap();
    assert_eq!(result.playlist_type, PlaylistType::Unknown);
    assert_eq!(result.version, 1);
    assert_eq!(result.media_sequence, 0);
    assert!(!result.end_list);
}

#[test]
fn version_and_tags_are_read() {
    let content = "#EXTM3U\r\n#EXT-X-VERSION:3\r\n#EXT-X-MEDIA-SEQUENCE:7\r\n#EXT-X-TARGETDURATION:6\r\n#EXT-X-DISCONTINUITY\r\n#EXT-X-MAP:URI=\"init.mp4\",BYTERANGE=\"720@0\"\r\n#EXTINF:4.5\r\nseg.ts\r\nnext.ts\r\n";
    let result = M3U8Parser::parse(content, Some("http://cdn.example/live/index.m3u8")).unwrap();
    assert_eq!(result.version, 3);
    // the sequence number is read from the text after the first 21 characters
    assert_eq!(result.media_sequence, 0);
    assert_eq!(result.target_duration, ":6");
    assert_eq!(result.playlist_type, PlaylistType::MediaPlaylist);
    assert_eq!(result.segments.len(), 2);
    let first = &result.segments[0];
    assert_eq!(first.uri, "http://cdn.example/live/seg.ts");
    assert_eq!(first.duration, "4.5");
    assert_eq!(first.title, "");
    assert!(first.discontinuity);
    let map = first.map.as_ref().unwrap();
    assert_eq!(map.uri, "init.mp4");
    assert_eq!(map.byterange, "720@0");
    let second = &result.segments[1];
    assert_eq!(second.duration, "");
    assert!(!second.discontinuity);
    assert!(second.map.is_some());
}

#[test]
fn variant_uri_is_resolved() {
    let content = "#EXTM3U\n#EXT-X-STREAM-INF:BANDWIDTH=abc,CODECS=\"avc1\"\nlow/index.m3u8";
    let result = M3U8Parser::parse(content, Some("https://host/a/master.m3u8")).unwrap();
    assert_eq!(result.variants[0].uri, "https://host/a/low/index.m3u8");
    assert_eq!(result.variants[0].bandwidth, 0);
    assert_eq!(result.variants[0].codecs, "avc1");
    assert_eq!(result.segments.len(), 0);
}

#[test]
fn key_params_defaults_and_last_wins() {
    let k = M3U8Parser::parse_key_params("URI=\"a\", URI = \"b\"");
    assert_eq!(k.method, "NONE");
    assert_eq!(k.uri, "b");
    assert_eq!(k.iv, "");
    let m = M3U8Parser::parse_map_params("BYTERANGE=10");
    assert_eq!(m.uri, "");
    assert_eq!(m.byterange, "10");
    let v = M3U8Parser::parse_variant_params("BANDWIDTH=+42,RESOLUTION=1x1", "");
    assert_eq!(v.bandwidth, 42);
    assert_eq!(v.resolution, "1x1");
}

#[test]
fn best_variant_prefers_last_of_equal_bandwidth() {
    let content = "#EXTM3U\n#EXT-X-STREAM-INF:BANDWIDTH=5\na.m3u8\n#EXT-X-STREAM-INF:BANDWIDTH=5\nb.m3u8\n#EXT-X-STREAM-INF:BANDWIDTH=1\nc.m3u8";
    let result = M3U8Parser::parse(content, None).unwrap();
    assert_eq!(M3U8Parser::get_best_variant(&result).unwrap().uri, "b.m3u8");
    let media = M3U8Parser::parse("#EXTM3U\nseg.ts", None).unwrap();
    assert!(M3U8Parser::get_best_variant(&media).is_none());
}

#[test]
fn resolve_url_edge_cases() {
    assert_eq!(M3U8Parser::resolve_url("seg.ts", None), "seg.ts");
    assert_eq!(M3U8Parser::resolve_url("seg.ts", Some("host")), "host/seg.ts");
    assert_eq!(M3U8Parser::resolve_url("/x.ts", Some("http://h/a//")), "http://h/a/x.ts");
    assert_eq!(M3U8Parser::resolve_url("https://s/x.ts", Some("http://h/")), "https://s/x.ts");
}

#[test]
fn mixed_stream_tags_and_segments() {
    let content = "#EXTM3U\n#EXT-X-STREAM-INF:BANDWIDTH=1\nlow.m3u8\nseg.ts\n#EXT-X-STREAM-INF:BANDWIDTH=2\n#EXT-X-STREAM-INF:BANDWIDTH=3\nhigh.m3u8\n";
    let p = M3U8Parser::parse(content, Some("http://h/a/")).unwrap();
    assert_eq!(p.variants.len(), 3);
    assert_eq!(p.variants[0].uri, "http://h/a/low.m3u8");
    assert_eq!(p.variants[1].uri, "");
    assert_eq!(p.variants[2].uri, "http://h/a/high.m3u8");
    assert_eq!(p.segments.len(), 1);
    assert_eq!(p.segments[0].uri, "http://h/a/seg.ts");
    assert_eq!(p.playlist_type, PlaylistType::MasterPlaylist);
}
