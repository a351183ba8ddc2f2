//! HLS (M3U8) playlist parsing.
//!
//! The parser reads the playlist line by line as a small state machine:
//! [`step`] is the transition on one trimmed line and [`run`] folds it over
//! the lines, so the contract of [`M3U8Parser::parse`] is exact.
//! Durations are kept as the text written in the playlist (the float
//! conversion belongs to the caller).
use vstd::prelude::*;

use crate::text::{
    opt_chars,
    append_chars, char_views, concat, eq_str, find, find_char, from_chars, lines, lines_exec,
    parse_u32, parse_u32_exec, parse_u64, parse_u64_exec, rfind, rfind_char, slice_chars, split,
    split_exec, starts_with, starts_with_str, to_chars, trim, trim_char, trim_char_exec,
    trim_end_char, trim_end_char_exec, trim_exec,
};

verus! {

/// Encryption key of the segments that follow an `#EXT-X-KEY` tag.
#[derive(Debug, Clone)]
pub struct M3U8Key {
    pub method: String,
    pub uri: String,
    pub iv: String,
}

/// Initialisation section of the segments that follow an `#EXT-X-MAP` tag.
#[derive(Debug, Clone)]
pub struct M3U8Map {
    pub uri: String,
    pub byterange: String,
}

/// One stream of a master playlist.
#[derive(Debug, Clone)]
pub struct M3U8Variant {
    pub uri: String,
    pub bandwidth: u64,
    pub resolution: String,
    pub codecs: String,
}

/// One media segment; `duration` is the text after `#EXTINF:` and before
/// the comma (empty when the segment had no `#EXTINF`).
#[derive(Debug, Clone)]
pub struct M3U8Segment {
    pub uri: String,
    pub duration: String,
    pub title: String,
    pub key: Option<M3U8Key>,
    pub map: Option<M3U8Map>,
    pub discontinuity: bool,
}

#[derive(Debug, Clone, Copy, PartialEq, Eq, Structural)]
pub enum PlaylistType {
    MasterPlaylist,
    MediaPlaylist,
    Unknown,
}

/// A parsed playlist; `target_duration` is the text that follows the tag
/// prefix as the parser slices it.
#[derive(Debug, Clone)]
pub struct M3U8Playlist {
    pub playlist_type: PlaylistType,
    pub segments: Vec<M3U8Segment>,
    pub variants: Vec<M3U8Variant>,
    pub target_duration: String,
    pub media_sequence: u64,
    pub version: u32,
    pub end_list: bool,
}

pub struct M3U8Parser;

// ---------------------------------------------------------------------------
// Mathematical model
// ---------------------------------------------------------------------------

pub struct KeyView {
    pub method: Seq<char>,
    pub uri: Seq<char>,
    pub iv: Seq<char>,
}

pub struct MapView {
    pub uri: Seq<char>,
    pub byterange: Seq<char>,
}

pub struct VariantView {
    pub uri: Seq<char>,
    pub bandwidth: u64,
    pub resolution: Seq<char>,
    pub codecs: Seq<char>,
}

pub struct SegmentView {
    pub uri: Seq<char>,
    pub duration: Seq<char>,
    pub title: Seq<char>,
    pub key: Option<KeyView>,
    pub map: Option<MapView>,
    pub discontinuity: bool,
}

pub struct PlaylistView {
    pub playlist_type: PlaylistType,
    pub segments: Seq<SegmentView>,
    pub variants: Seq<VariantView>,
    pub target_duration: Seq<char>,
    pub media_sequence: u64,
    pub version: u32,
    pub end_list: bool,
}

impl View for M3U8Key {
    type V = KeyView;

    open spec fn view(&self) -> KeyView {
        KeyView { method: self.method@, uri: self.uri@, iv: self.iv@ }
    }
}

impl View for M3U8Map {
    type V = MapView;

    open spec fn view(&self) -> MapView {
        MapView { uri: self.uri@, byterange: self.byterange@ }
    }
}

impl View for M3U8Variant {
    type V = VariantView;

    open spec fn view(&self) -> VariantView {
        VariantView {
            uri: self.uri@,
            bandwidth: self.bandwidth,
            resolution: self.resolution@,
            codecs: self.codecs@,
        }
    }
}

pub open spec fn key_opt_view(k: Option<M3U8Key>) -> Option<KeyView> {
    match k {
        Some(k) => Some(k@),
        None => None,
    }
}

pub open spec fn map_opt_view(m: Option<M3U8Map>) -> Option<MapView> {
    match m {
        Some(m) => Some(m@),
        None => None,
    }
}

impl View for M3U8Segment {
    type V = SegmentView;

    open spec fn view(&self) -> SegmentView {
        SegmentView {
            uri: self.uri@,
            duration: self.duration@,
            title: self.title@,
            key: key_opt_view(self.key),
            map: map_opt_view(self.map),
            discontinuity: self.discontinuity,
        }
    }
}

pub open spec fn segments_view(s: Seq<M3U8Segment>) -> Seq<SegmentView> {
    s.map_values(|x: M3U8Segment| x@)
}

pub open spec fn variants_view(s: Seq<M3U8Variant>) -> Seq<VariantView> {
    s.map_values(|x: M3U8Variant| x@)
}

impl View for M3U8Playlist {
    type V = PlaylistView;

    open spec fn view(&self) -> PlaylistView {
        PlaylistView {
            playlist_type: self.playlist_type,
            segments: segments_view(self.segments@),
            variants: variants_view(self.variants@),
            target_duration: self.target_duration@,
            media_sequence: self.media_sequence,
            version: self.version,
            end_list: self.end_list,
        }
    }
}

/// A `KEY=value` attribute of a tag: the trimmed text before the first `=`
/// and the trimmed text after it with surrounding double quotes removed.
pub open spec fn attribute_pair(part: Seq<char>) -> Option<(Seq<char>, Seq<char>)> {
    match find(part, '=') {
        Some(i) => Some((trim(part.take(i)), trim_char(trim(part.skip(i + 1)), '"'))),
        None => None,
    }
}

/// The value of the last attribute named `name` among the comma separated `parts`.
pub open spec fn last_attribute(parts: Seq<Seq<char>>, name: Seq<char>) -> Option<Seq<char>>
    decreases parts.len(),
{
    if parts.len() == 0 {
        None
    } else {
        match attribute_pair(parts.last()) {
            Some((k, v)) if k == name => Some(v),
            _ => last_attribute(parts.drop_last(), name),
        }
    }
}

/// The value given to attribute `name` in an attribute list (the last one wins).
pub open spec fn attribute(params: Seq<char>, name: Seq<char>) -> Option<Seq<char>> {
    last_attribute(split(params, ','), name)
}

pub open spec fn or_default(v: Option<Seq<char>>, d: Seq<char>) -> Seq<char> {
    match v {
        Some(x) => x,
        None => d,
    }
}

pub open spec fn key_params(params: Seq<char>) -> KeyView {
    KeyView {
        method: or_default(attribute(params, "METHOD"@), "NONE"@),
        uri: or_default(attribute(params, "URI"@), Seq::empty()),
        iv: or_default(attribute(params, "IV"@), Seq::empty()),
    }
}

pub open spec fn map_params(params: Seq<char>) -> MapView {
    MapView {
        uri: or_default(attribute(params, "URI"@), Seq::empty()),
        byterange: or_default(attribute(params, "BYTERANGE"@), Seq::empty()),
    }
}

pub open spec fn variant_params(params: Seq<char>) -> VariantView {
    VariantView {
        uri: Seq::empty(),
        bandwidth: match attribute(params, "BANDWIDTH"@) {
            Some(v) => match parse_u64(v) {
                Some(n) => n,
                None => 0,
            },
            None => 0,
        },
        resolution: or_default(attribute(params, "RESOLUTION"@), Seq::empty()),
        codecs: or_default(attribute(params, "CODECS"@), Seq::empty()),
    }
}

/// Resolves a segment or stream URI against the playlist's base URL:
/// absolute `http(s)` URIs stay; a URI starting with `/` is appended to the
/// base without its trailing slashes; any other URI goes into the base's
/// directory (the base up to its last `/`, without trailing slashes).
pub open spec fn resolve(url: Seq<char>, base: Option<Seq<char>>) -> Seq<char> {
    match base {
        None => url,
        Some(b) => if starts_with(url, "http://"@) || starts_with(url, "https://"@) {
            url
        } else if url.len() > 0 && url[0] == '/' {
            trim_end_char(b, '/') + url
        } else {
            match rfind(b, '/') {
                Some(i) => trim_end_char(b.take(i + 1), '/') + seq!['/'] + url,
                None => b + seq!['/'] + url,
            }
        },
    }
}

/// The parser's state between two lines.
pub struct ParseState {
    pub segments: Seq<SegmentView>,
    pub variants: Seq<VariantView>,
    pub target_duration: Seq<char>,
    pub media_sequence: u64,
    pub version: u32,
    pub end_list: bool,
    pub duration: Seq<char>,
    pub title: Seq<char>,
    pub key: Option<KeyView>,
    pub map: Option<MapView>,
    pub discontinuity: bool,
    pub has_variants: bool,
}

pub open spec fn initial_state() -> ParseState {
    ParseState {
        segments: Seq::empty(),
        variants: Seq::empty(),
        target_duration: Seq::empty(),
        media_sequence: 0,
        version: 1,
        end_list: false,
        duration: Seq::empty(),
        title: Seq::empty(),
        key: None,
        map: None,
        discontinuity: false,
        has_variants: false,
    }
}

/// The transition on one trimmed line.
pub open spec fn step(st: ParseState, line: Seq<char>, base: Option<Seq<char>>) -> ParseState {
    if starts_with(line, "#EXT-X-VERSION:"@) {
        ParseState {
            version: match parse_u32(line.skip(15)) {
                Some(v) => v,
                None => 1,
            },
            ..st
        }
    } else if starts_with(line, "#EXT-X-TARGETDURATION:"@) {
        ParseState { target_duration: line.skip(21), ..st }
    } else if starts_with(line, "#EXT-X-MEDIA-SEQUENCE:"@) {
        ParseState {
            media_sequence: match parse_u64(line.skip(21)) {
                Some(v) => v,
                None => 0,
            },
            ..st
        }
    } else if starts_with(line, "#EXT-X-ENDLIST"@) {
        ParseState { end_list: true, ..st }
    } else if starts_with(line, "#EXTINF:"@) {
        let rest = line.skip(8);
        match find(rest, ',') {
            Some(c) => ParseState { duration: rest.take(c), title: rest.skip(c + 1), ..st },
            None => ParseState { duration: rest, title: Seq::empty(), ..st },
        }
    } else if starts_with(line, "#EXT-X-KEY:"@) {
        ParseState { key: Some(key_params(line.skip(11))), ..st }
    } else if starts_with(line, "#EXT-X-MAP:"@) {
        ParseState { map: Some(map_params(line.skip(11))), ..st }
    } else if starts_with(line, "#EXT-X-DISCONTINUITY"@) {
        ParseState { discontinuity: true, ..st }
    } else if starts_with(line, "#EXT-X-STREAM-INF:"@) {
        ParseState {
            has_variants: true,
            variants: st.variants.push(variant_params(line.skip(18))),
            ..st
        }
    } else if line.len() > 0 && line[0] != '#' {
        if st.has_variants {
            ParseState {
                variants: if st.variants.len() > 0 {
                    st.variants.update(
                        st.variants.len() - 1,
                        VariantView { uri: resolve(line, base), ..st.variants.last() },
                    )
                } else {
                    st.variants
                },
                has_variants: false,
                ..st
            }
        } else {
            ParseState {
                segments: st.segments.push(
                    SegmentView {
                        uri: resolve(line, base),
                        duration: st.duration,
                        title: st.title,
                        key: st.key,
                        map: st.map,
                        discontinuity: st.discontinuity,
                    },
                ),
                duration: Seq::empty(),
                title: Seq::empty(),
                discontinuity: false,
                ..st
            }
        }
    } else {
        st
    }
}

/// The state after the given lines.
pub open spec fn run(lines: Seq<Seq<char>>, base: Option<Seq<char>>) -> ParseState
    decreases lines.len(),
{
    if lines.len() == 0 {
        initial_state()
    } else {
        step(run(lines.drop_last(), base), lines.last(), base)
    }
}

pub open spec fn playlist_type_of(st: ParseState) -> PlaylistType {
    if st.variants.len() > 0 {
        PlaylistType::MasterPlaylist
    } else if st.segments.len() > 0 {
        PlaylistType::MediaPlaylist
    } else {
        PlaylistType::Unknown
    }
}

pub open spec fn playlist_of(st: ParseState) -> PlaylistView {
    PlaylistView {
        playlist_type: playlist_type_of(st),
        segments: st.segments,
        variants: st.variants,
        target_duration: st.target_duration,
        media_sequence: st.media_sequence,
        version: st.version,
        end_list: st.end_list,
    }
}

/// The trimmed lines of a playlist.
pub open spec fn playlist_lines(content: Seq<char>) -> Seq<Seq<char>> {
    lines(content).map_values(|l: Seq<char>| trim(l))
}

/// A playlist is accepted when its first trimmed line is `#EXTM3U`.
pub open spec fn is_m3u8(content: Seq<char>) -> bool {
    playlist_lines(content).len() > 0 && playlist_lines(content)[0] == "#EXTM3U"@
}

/// What parsing `content` gives when it is accepted.
pub open spec fn parsed(content: Seq<char>, base: Option<Seq<char>>) -> PlaylistView {
    playlist_of(run(playlist_lines(content).drop_first(), base))
}

/// Index of the stream `Iterator::max_by_key` picks: the last one of
/// greatest bandwidth.
pub open spec fn best_index(v: Seq<VariantView>) -> int
    decreases v.len(),
{
    if v.len() <= 1 {
        0
    } else {
        let b = best_index(v.drop_last());
        if v.last().bandwidth >= v[b].bandwidth {
            v.len() - 1
        } else {
            b
        }
    }
}

pub open spec fn opt_view(o: Option<&str>) -> Option<Seq<char>> {
    match o {
        Some(s) => Some(s@),
        None => None,
    }
}


// ---------------------------------------------------------------------------
// Attribute lists
// ---------------------------------------------------------------------------

fn attribute_pair_exec(part: &Vec<char>) -> (r: Option<(Vec<char>, Vec<char>)>)
    ensures
        match attribute_pair(part@) {
            Some((k, v)) => r matches Some((rk, rv)) && rk@ == k && rv@ == v,
            None => r is None,
        },
{
    match find_char(part, '=') {
        Some(i) => {
            let k = trim_exec(&slice_chars(part, 0, i));
            let v = trim_char_exec(&trim_exec(&slice_chars(part, i + 1, part.len())), '"');
            assert(part@.subrange(0, i as int) =~= part@.take(i as int));
            assert(part@.subrange(i + 1, part@.len() as int) =~= part@.skip(i + 1));
            Some((k, v))
        },
        None => None,
    }
}

fn attribute_exec(parts: &Vec<Vec<char>>, name: &str) -> (r: Option<Vec<char>>)
    ensures
        opt_chars(r) == last_attribute(char_views(parts@), name@),
{
    let ghost ps = char_views(parts@);
    let mut cur: Option<Vec<char>> = None;
    let mut i: usize = 0;
    assert(ps.take(0) =~= Seq::<Seq<char>>::empty());
    while i < parts.len()
        invariant
            i <= parts.len(),
            ps == char_views(parts@),
            opt_chars(cur) == last_attribute(ps.take(i as int), name@),
        decreases parts.len() - i,
    {
        assert(ps.take(i + 1).drop_last() =~= ps.take(i as int));
        assert(ps.take(i + 1).last() == parts@[i as int]@);
        match attribute_pair_exec(&parts[i]) {
            Some((k, v)) => {
                if eq_str(&k, name) {
                    cur = Some(v);
                }
            },
            None => {},
        }
        i += 1;
    }
    assert(ps.take(parts.len() as int) =~= ps);
    cur
}

fn or_default_exec(v: Option<Vec<char>>, d: &str) -> (r: String)
    ensures
        r@ == or_default(opt_chars(v), d@),
{
    match v {
        Some(x) => from_chars(&x),
        None => from_chars(&to_chars(d)),
    }
}

fn key_params_chars(params: &Vec<char>) -> (r: M3U8Key)
    ensures
        r@ == key_params(params@),
{
    proof {
        reveal_strlit("");
    }
    let parts = split_exec(params, ',');
    let method = or_default_exec(attribute_exec(&parts, "METHOD"), "NONE");
    assert(method@ == key_params(params@).method);
    let uri = or_default_exec(attribute_exec(&parts, "URI"), "");
    assert(uri@ == key_params(params@).uri);
    let iv = or_default_exec(attribute_exec(&parts, "IV"), "");
    assert(iv@ == key_params(params@).iv);
    let r = M3U8Key { method, uri, iv };
    r
}

fn map_params_chars(params: &Vec<char>) -> (r: M3U8Map)
    ensures
        r@ == map_params(params@),
{
    proof {
        reveal_strlit("");
    }
    let parts = split_exec(params, ',');
    let uri = or_default_exec(attribute_exec(&parts, "URI"), "");
    assert(uri@ == map_params(params@).uri);
    let byterange = or_default_exec(attribute_exec(&parts, "BYTERANGE"), "");
    assert(byterange@ == map_params(params@).byterange);
    M3U8Map { uri, byterange }
}

fn variant_params_chars(params: &Vec<char>) -> (r: M3U8Variant)
    ensures
        r@ == variant_params(params@),
{
    proof {
        reveal_strlit("");
    }
    let parts = split_exec(params, ',');
    let bandwidth: u64 = match attribute_exec(&parts, "BANDWIDTH") {
        Some(v) => match parse_u64_exec(&v) {
            Some(n) => n,
            None => 0,
        },
        None => 0,
    };
    assert(bandwidth == variant_params(params@).bandwidth);
    let resolution = or_default_exec(attribute_exec(&parts, "RESOLUTION"), "");
    assert(resolution@ == variant_params(params@).resolution);
    let codecs = or_default_exec(attribute_exec(&parts, "CODECS"), "");
    assert(codecs@ == variant_params(params@).codecs);
    let uri = String::new();
    assert(uri@ == variant_params(params@).uri);
    M3U8Variant { uri, bandwidth, resolution, codecs }
}

fn resolve_chars(url: &Vec<char>, base: &Option<Vec<char>>) -> (r: Vec<char>)
    ensures
        r@ == resolve(url@, opt_chars(*base)),
{
    match base {
        None => slice_chars(url, 0, url.len()),
        Some(b) => {
            assert(url@.subrange(0, url@.len() as int) =~= url@);
            if starts_with_str(url, "http://") || starts_with_str(url, "https://") {
                slice_chars(url, 0, url.len())
            } else if url.len() > 0 && url[0] == '/' {
                concat(&trim_end_char_exec(b, '/'), url)
            } else {
                let mut r = match rfind_char(b, '/') {
                    Some(i) => {
                        assert(b@.subrange(0, i + 1) =~= b@.take(i + 1));
                        trim_end_char_exec(&slice_chars(b, 0, i + 1), '/')
                    },
                    None => slice_chars(b, 0, b.len()),
                };
                assert(b@.subrange(0, b@.len() as int) =~= b@);
                r.push('/');
                concat(&r, url)
            }
        },
    }
}

// ---------------------------------------------------------------------------
// The executable state machine
// ---------------------------------------------------------------------------

struct ExecState {
    segments: Vec<M3U8Segment>,
    variants: Vec<M3U8Variant>,
    target_duration: Vec<char>,
    media_sequence: u64,
    version: u32,
    end_list: bool,
    duration: Vec<char>,
    title: Vec<char>,
    key: Option<M3U8Key>,
    map: Option<M3U8Map>,
    discontinuity: bool,
    has_variants: bool,
}

impl ExecState {
    spec fn state(&self) -> ParseState {
        ParseState {
            segments: segments_view(self.segments@),
            variants: variants_view(self.variants@),
            target_duration: self.target_duration@,
            media_sequence: self.media_sequence,
            version: self.version,
            end_list: self.end_list,
            duration: self.duration@,
            title: self.title@,
            key: key_opt_view(self.key),
            map: map_opt_view(self.map),
            discontinuity: self.discontinuity,
            has_variants: self.has_variants,
        }
    }
}

fn copy_key(k: &Option<M3U8Key>) -> (r: Option<M3U8Key>)
    ensures
        key_opt_view(r) == key_opt_view(*k),
{
    match k {
        Some(k) => Some(M3U8Key { method: k.method.clone(), uri: k.uri.clone(), iv: k.iv.clone() }),
        None => None,
    }
}

fn copy_map(m: &Option<M3U8Map>) -> (r: Option<M3U8Map>)
    ensures
        map_opt_view(r) == map_opt_view(*m),
{
    match m {
        Some(m) => Some(M3U8Map { uri: m.uri.clone(), byterange: m.byterange.clone() }),
        None => None,
    }
}

fn step_exec(st: &mut ExecState, line: &Vec<char>, base: &Option<Vec<char>>)
    ensures
        final(st).state() == step(old(st).state(), line@, opt_chars(*base)),
{
    let ghost s0 = st.state();
    let ghost l = line@;
    proof {
        reveal_strlit("#EXT-X-VERSION:");
        reveal_strlit("#EXT-X-TARGETDURATION:");
        reveal_strlit("#EXT-X-MEDIA-SEQUENCE:");
        reveal_strlit("#EXTINF:");
        reveal_strlit("#EXT-X-KEY:");
        reveal_strlit("#EXT-X-MAP:");
        reveal_strlit("#EXT-X-STREAM-INF:");
    }
    if starts_with_str(line, "#EXT-X-VERSION:") {
        assert(line@.subrange(15, line@.len() as int) =~= line@.skip(15));
        st.version = match parse_u32_exec(&slice_chars(line, 15, line.len())) {
            Some(v) => v,
            None => 1,
        };
    } else if starts_with_str(line, "#EXT-X-TARGETDURATION:") {
        assert(line@.subrange(21, line@.len() as int) =~= line@.skip(21));
        st.target_duration = slice_chars(line, 21, line.len());
    } else if starts_with_str(line, "#EXT-X-MEDIA-SEQUENCE:") {
        assert(line@.subrange(21, line@.len() as int) =~= line@.skip(21));
        st.media_sequence = match parse_u64_exec(&slice_chars(line, 21, line.len())) {
            Some(v) => v,
            None => 0,
        };
    } else if starts_with_str(line, "#EXT-X-ENDLIST") {
        st.end_list = true;
    } else if starts_with_str(line, "#EXTINF:") {
        let rest = slice_chars(line, 8, line.len());
        assert(rest@ =~= line@.skip(8));
        match find_char(&rest, ',') {
            Some(c) => {
                assert(rest@.subrange(0, c as int) =~= rest@.take(c as int));
                assert(rest@.subrange(c + 1, rest@.len() as int) =~= rest@.skip(c + 1));
                st.duration = slice_chars(&rest, 0, c);
                st.title = slice_chars(&rest, c + 1, rest.len());
            },
            None => {
                st.duration = rest;
                st.title = Vec::new();
            },
        }
    } else if starts_with_str(line, "#EXT-X-KEY:") {
        assert(line@.subrange(11, line@.len() as int) =~= line@.skip(11));
        st.key = Some(key_params_chars(&slice_chars(line, 11, line.len())));
    } else if starts_with_str(line, "#EXT-X-MAP:") {
        assert(line@.subrange(11, line@.len() as int) =~= line@.skip(11));
        st.map = Some(map_params_chars(&slice_chars(line, 11, line.len())));
    } else if starts_with_str(line, "#EXT-X-DISCONTINUITY") {
        st.discontinuity = true;
    } else if starts_with_str(line, "#EXT-X-STREAM-INF:") {
        assert(line@.subrange(18, line@.len() as int) =~= line@.skip(18));
        st.has_variants = true;
        let v = variant_params_chars(&slice_chars(line, 18, line.len()));
        let ghost vs0 = st.variants@;
        st.variants.push(v);
        assert(variants_view(st.variants@) =~= variants_view(vs0).push(v@));
    } else if line.len() > 0 && line[0] != '#' {
        if st.has_variants {
            if st.variants.len() > 0 {
                let ghost vs0 = st.variants@;
                let mut last = st.variants.pop().unwrap();
                last.uri = from_chars(&resolve_chars(line, base));
                st.variants.push(last);
                assert(variants_view(st.variants@) =~= variants_view(vs0).update(
                    vs0.len() - 1,
                    VariantView { uri: resolve(l, opt_chars(*base)), ..variants_view(vs0).last() },
                ));
            }
            st.has_variants = false;
        } else {
            let seg = M3U8Segment {
                uri: from_chars(&resolve_chars(line, base)),
                duration: from_chars(&st.duration),
                title: from_chars(&st.title),
                key: copy_key(&st.key),
                map: copy_map(&st.map),
                discontinuity: st.discontinuity,
            };
            let ghost ss0 = st.segments@;
            st.segments.push(seg);
            assert(segments_view(st.segments@) =~= segments_view(ss0).push(seg@));
            st.duration = Vec::new();
            st.title = Vec::new();
            st.discontinuity = false;
        }
    }
}

impl M3U8Parser {
    /// Parses a playlist; relative URIs are resolved against `base_url`.
    pub fn parse(content: &str, base_url: Option<&str>) -> (r: Result<M3U8Playlist, String>)
        ensures
            is_m3u8(content@) ==> (r matches Ok(p) && p@ == parsed(content@, opt_view(base_url))),
            !is_m3u8(content@) ==> (r matches Err(e) && e@ == "不是有效的 M3U8 文件"@),
    {
        let chars = to_chars(content);
        let raw = lines_exec(&chars);
        let ghost all = playlist_lines(content@);
        let mut ls: Vec<Vec<char>> = Vec::new();
        let mut i: usize = 0;
        while i < raw.len()
            invariant
                i <= raw.len(),
                char_views(raw@) == lines(content@),
                all == playlist_lines(content@),
                char_views(ls@) == all.take(i as int),
            decreases raw.len() - i,
        {
            let t = trim_exec(&raw[i]);
            let ghost before = char_views(ls@);
            ls.push(t);
            assert(char_views(ls@) =~= before.push(t@));
            assert(all.take(i + 1) =~= all.take(i as int).push(all[i as int]));
            i += 1;
        }
        assert(all.take(raw.len() as int) =~= all);
        if ls.len() == 0 || !eq_str(&ls[0], "#EXTM3U") {
            return Err(from_chars(&to_chars("不是有效的 M3U8 文件")));
        }
        let base: Option<Vec<char>> = match base_url {
            Some(b) => Some(to_chars(b)),
            None => None,
        };
        assert(opt_chars(base) == opt_view(base_url));
        let mut st = ExecState {
            segments: Vec::new(),
            variants: Vec::new(),
            target_duration: Vec::new(),
            media_sequence: 0,
            version: 1,
            end_list: false,
            duration: Vec::new(),
            title: Vec::new(),
            key: None,
            map: None,
            discontinuity: false,
            has_variants: false,
        };
        let ghost rest = all.drop_first();
        assert(segments_view(st.segments@) =~= Seq::<SegmentView>::empty());
        assert(variants_view(st.variants@) =~= Seq::<VariantView>::empty());
        assert(rest.take(0) =~= Seq::<Seq<char>>::empty());
        let mut j: usize = 1;
        while j < ls.len()
            invariant
                1 <= j <= ls.len(),
                char_views(ls@) == all,
                rest == all.drop_first(),
                opt_chars(base) == opt_view(base_url),
                st.state() == run(rest.take(j - 1), opt_view(base_url)),
            decreases ls.len() - j,
        {
            step_exec(&mut st, &ls[j], &base);
            assert(rest.take(j as int).drop_last() =~= rest.take(j - 1));
            assert(rest.take(j as int).last() == ls@[j as int]@);
            j += 1;
        }
        assert(rest.take(ls.len() - 1) =~= rest);
        let playlist_type = if st.variants.len() > 0 {
            PlaylistType::MasterPlaylist
        } else if st.segments.len() > 0 {
            PlaylistType::MediaPlaylist
        } else {
            PlaylistType::Unknown
        };
        Ok(
            M3U8Playlist {
                playlist_type,
                segments: st.segments,
                variants: st.variants,
                target_duration: from_chars(&st.target_duration),
                media_sequence: st.media_sequence,
                version: st.version,
                end_list: st.end_list,
            },
        )
    }

    /// Attributes of an `#EXT-X-KEY` tag (method `NONE` when absent).
    pub fn parse_key_params(params: &str) -> (r: M3U8Key)
        ensures
            r@ == key_params(params@),
    {
        key_params_chars(&to_chars(params))
    }

    /// Attributes of an `#EXT-X-MAP` tag.
    pub fn parse_map_params(params: &str) -> (r: M3U8Map)
        ensures
            r@ == map_params(params@),
    {
        map_params_chars(&to_chars(params))
    }

    /// Attributes of an `#EXT-X-STREAM-INF` tag; the stream URI is filled
    /// in later from the line that follows the tag.
    pub fn parse_variant_params(params: &str, _uri: &str) -> (r: M3U8Variant)
        ensures
            r@ == variant_params(params@),
    {
        variant_params_chars(&to_chars(params))
    }

    /// Resolves `url` against `base_url` (see [`resolve`]).
    pub fn resolve_url(url: &str, base_url: Option<&str>) -> (r: String)
        ensures
            r@ == resolve(url@, opt_view(base_url)),
    {
        let base: Option<Vec<char>> = match base_url {
            Some(b) => Some(to_chars(b)),
            None => None,
        };
        from_chars(&resolve_chars(&to_chars(url), &base))
    }

    /// The stream of greatest bandwidth (the last such one), if any.
    pub fn get_best_variant(playlist: &M3U8Playlist) -> (r: Option<&M3U8Variant>)
        ensures
            playlist.variants@.len() == 0 ==> r is None,
            playlist.variants@.len() > 0 ==> (r matches Some(v) && *v == playlist.variants@[best_index(
                variants_view(playlist.variants@),
            )]),
    {
        let vs = &playlist.variants;
        if vs.len() == 0 {
            return None;
        }
        let ghost views = variants_view(vs@);
        let mut best: usize = 0;
        let mut i: usize = 1;
        while i < vs.len()
            invariant
                1 <= i <= vs.len(),
                views == variants_view(vs@),
                best < i,
                best as int == best_index(views.take(i as int)),
            decreases vs.len() - i,
        {
            assert(views.take(i + 1).drop_last() =~= views.take(i as int));
            if vs[i].bandwidth >= vs[best].bandwidth {
                best = i;
            }
            i += 1;
        }
        assert(views.take(vs.len() as int) =~= views);
        Some(&vs[best])
    }
}

// ---------------------------------------------------------------------------
// Laws
// ---------------------------------------------------------------------------

/// A playlist is a master playlist exactly when it lists streams, a media
/// playlist exactly when it lists segments but no streams.
pub proof fn law_playlist_type(content: Seq<char>, base: Option<Seq<char>>)
    ensures
        (parsed(content, base).playlist_type == PlaylistType::MasterPlaylist) <==> parsed(content, base).variants.len() > 0,
        (parsed(content, base).playlist_type == PlaylistType::MediaPlaylist) <==> (parsed(content, base).variants.len() == 0
            && parsed(content, base).segments.len() > 0),
        (parsed(content, base).playlist_type == PlaylistType::Unknown) <==> (parsed(content, base).variants.len() == 0
            && parsed(content, base).segments.len() == 0),
{
}

/// Absolute `http`/`https` URIs are kept as they are, whatever the base.
pub proof fn law_absolute_url_kept(url: Seq<char>, base: Option<Seq<char>>)
    requires
        starts_with(url, "http://"@) || starts_with(url, "https://"@),
    ensures
        resolve(url, base) == url,
{
}

/// Without a base URL every URI is kept as it is.
pub proof fn law_no_base_keeps_url(url: Seq<char>)
    ensures
        resolve(url, None) == url,
{
}

/// A resolved URI always ends with the URI as written.
pub proof fn law_resolved_ends_with_url(url: Seq<char>, base: Option<Seq<char>>)
    ensures
        crate::text::ends_with(resolve(url, base), url),
{
    let r = resolve(url, base);
    assert(r.skip(r.len() - url.len()) =~= url);
}

/// The chosen stream has the greatest bandwidth, and every later stream has
/// a smaller one.
pub proof fn law_best_variant_is_greatest(v: Seq<VariantView>)
    requires
        v.len() > 0,
    ensures
        0 <= best_index(v) < v.len(),
        forall|i: int| 0 <= i < v.len() ==> (#[trigger] v[i]).bandwidth <= v[best_index(v)].bandwidth,
        forall|i: int| best_index(v) < i < v.len() ==> (#[trigger] v[i]).bandwidth < v[best_index(v)].bandwidth,
    decreases v.len(),
{
    if v.len() > 1 {
        let w = v.drop_last();
        law_best_variant_is_greatest(w);
        assert forall|i: int| 0 <= i < w.len() implies v[i] == w[i] by {}
    }
}

/// A line that names a segment or stream: non-empty and not a tag or comment.
pub open spec fn is_uri_line(l: Seq<char>) -> bool {
    l.len() > 0 && l[0] != '#'
}

/// The number of lines that start with `p`.
pub open spec fn count_prefixed(ls: Seq<Seq<char>>, p: Seq<char>) -> nat
    decreases ls.len(),
{
    if ls.len() == 0 {
        0
    } else {
        count_prefixed(ls.drop_last(), p) + if starts_with(ls.last(), p) {
            1nat
        } else {
            0nat
        }
    }
}

/// The number of URI lines.
pub open spec fn count_uri_lines(ls: Seq<Seq<char>>) -> nat
    decreases ls.len(),
{
    if ls.len() == 0 {
        0
    } else {
        count_uri_lines(ls.drop_last()) + if is_uri_line(ls.last()) {
            1nat
        } else {
            0nat
        }
    }
}

/// The URI lines, each resolved against `base`, in order.
pub open spec fn resolved_uri_lines(ls: Seq<Seq<char>>, base: Option<Seq<char>>) -> Seq<Seq<char>>
    decreases ls.len(),
{
    if ls.len() == 0 {
        Seq::empty()
    } else if is_uri_line(ls.last()) {
        resolved_uri_lines(ls.drop_last(), base).push(resolve(ls.last(), base))
    } else {
        resolved_uri_lines(ls.drop_last(), base)
    }
}

proof fn lemma_prefix_at(s: Seq<char>, p: Seq<char>, k: int)
    requires
        starts_with(s, p),
        0 <= k < p.len(),
    ensures
        s[k] == p[k],
{
    assert(s.take(p.len() as int)[k] == s[k]);
}

/// A stream tag line, an end tag line and a URI line each reach their own
/// branch of [`step`].
proof fn lemma_line_kinds(l: Seq<char>)
    ensures
        starts_with(l, "#EXT-X-STREAM-INF:"@) ==> !starts_with(l, "#EXT-X-VERSION:"@)
            && !starts_with(l, "#EXT-X-TARGETDURATION:"@) && !starts_with(l, "#EXT-X-MEDIA-SEQUENCE:"@)
            && !starts_with(l, "#EXT-X-ENDLIST"@) && !starts_with(l, "#EXTINF:"@)
            && !starts_with(l, "#EXT-X-KEY:"@) && !starts_with(l, "#EXT-X-MAP:"@)
            && !starts_with(l, "#EXT-X-DISCONTINUITY"@),
        starts_with(l, "#EXT-X-ENDLIST"@) ==> !starts_with(l, "#EXT-X-VERSION:"@)
            && !starts_with(l, "#EXT-X-TARGETDURATION:"@) && !starts_with(l, "#EXT-X-MEDIA-SEQUENCE:"@),
        starts_with(l, "#EXTINF:"@) ==> !starts_with(l, "#EXT-X-VERSION:"@)
            && !starts_with(l, "#EXT-X-TARGETDURATION:"@) && !starts_with(l, "#EXT-X-MEDIA-SEQUENCE:"@)
            && !starts_with(l, "#EXT-X-ENDLIST"@),
        starts_with(l, "#EXT-X-DISCONTINUITY"@) ==> !starts_with(l, "#EXT-X-VERSION:"@)
            && !starts_with(l, "#EXT-X-TARGETDURATION:"@) && !starts_with(l, "#EXT-X-MEDIA-SEQUENCE:"@)
            && !starts_with(l, "#EXT-X-ENDLIST"@) && !starts_with(l, "#EXTINF:"@)
            && !starts_with(l, "#EXT-X-KEY:"@) && !starts_with(l, "#EXT-X-MAP:"@),
        starts_with(l, "#EXT-X-MAP:"@) ==> !starts_with(l, "#EXT-X-VERSION:"@)
            && !starts_with(l, "#EXT-X-TARGETDURATION:"@) && !starts_with(l, "#EXT-X-MEDIA-SEQUENCE:"@)
            && !starts_with(l, "#EXT-X-ENDLIST"@) && !starts_with(l, "#EXTINF:"@)
            && !starts_with(l, "#EXT-X-KEY:"@),
        starts_with(l, "#EXT-X-KEY:"@) ==> !starts_with(l, "#EXT-X-VERSION:"@)
            && !starts_with(l, "#EXT-X-TARGETDURATION:"@) && !starts_with(l, "#EXT-X-MEDIA-SEQUENCE:"@)
            && !starts_with(l, "#EXT-X-ENDLIST"@) && !starts_with(l, "#EXTINF:"@),
        is_uri_line(l) ==> !starts_with(l, "#EXT-X-VERSION:"@)
            && !starts_with(l, "#EXT-X-TARGETDURATION:"@) && !starts_with(l, "#EXT-X-MEDIA-SEQUENCE:"@)
            && !starts_with(l, "#EXT-X-ENDLIST"@) && !starts_with(l, "#EXTINF:"@)
            && !starts_with(l, "#EXT-X-KEY:"@) && !starts_with(l, "#EXT-X-MAP:"@)
            && !starts_with(l, "#EXT-X-DISCONTINUITY"@) && !starts_with(l, "#EXT-X-STREAM-INF:"@),
{
    reveal_strlit("#EXT-X-STREAM-INF:");
    reveal_strlit("#EXT-X-VERSION:");
    reveal_strlit("#EXT-X-TARGETDURATION:");
    reveal_strlit("#EXT-X-MEDIA-SEQUENCE:");
    reveal_strlit("#EXT-X-ENDLIST");
    reveal_strlit("#EXTINF:");
    reveal_strlit("#EXT-X-KEY:");
    reveal_strlit("#EXT-X-MAP:");
    reveal_strlit("#EXT-X-DISCONTINUITY");
    let tags = seq![
        "#EXT-X-STREAM-INF:"@,
        "#EXT-X-VERSION:"@,
        "#EXT-X-TARGETDURATION:"@,
        "#EXT-X-MEDIA-SEQUENCE:"@,
        "#EXT-X-ENDLIST"@,
        "#EXTINF:"@,
        "#EXT-X-KEY:"@,
        "#EXT-X-MAP:"@,
        "#EXT-X-DISCONTINUITY"@,
    ];
    assert forall|i: int| 0 <= i < tags.len() && #[trigger] starts_with(l, tags[i]) implies l[0] == '#'
        && l[4] == tags[i][4] && l[7] == tags[i][7] by {
        lemma_prefix_at(l, tags[i], 0);
        lemma_prefix_at(l, tags[i], 4);
        lemma_prefix_at(l, tags[i], 7);
    }
    if starts_with(l, "#EXT-X-MAP:"@) && starts_with(l, "#EXT-X-MEDIA-SEQUENCE:"@) {
        lemma_prefix_at(l, "#EXT-X-MAP:"@, 8);
        lemma_prefix_at(l, "#EXT-X-MEDIA-SEQUENCE:"@, 8);
    }
    assert(tags[0] == "#EXT-X-STREAM-INF:"@);
    assert(tags[1] == "#EXT-X-VERSION:"@);
    assert(tags[2] == "#EXT-X-TARGETDURATION:"@);
    assert(tags[3] == "#EXT-X-MEDIA-SEQUENCE:"@);
    assert(tags[4] == "#EXT-X-ENDLIST"@);
    assert(tags[5] == "#EXTINF:"@);
    assert(tags[6] == "#EXT-X-KEY:"@);
    assert(tags[7] == "#EXT-X-MAP:"@);
    assert(tags[8] == "#EXT-X-DISCONTINUITY"@);
}

/// Counts over the lines, kept by every step.
proof fn lemma_run_counts(ls: Seq<Seq<char>>, base: Option<Seq<char>>)
    ensures
        run(ls, base).variants.len() == count_prefixed(ls, "#EXT-X-STREAM-INF:"@),
        run(ls, base).end_list <==> count_prefixed(ls, "#EXT-X-ENDLIST"@) > 0,
        count_prefixed(ls, "#EXT-X-STREAM-INF:"@) == 0 ==> !run(ls, base).has_variants
            && run(ls, base).segments.len() == count_uri_lines(ls)
            && run(ls, base).segments.map_values(|g: SegmentView| g.uri) == resolved_uri_lines(ls, base),
    decreases ls.len(),
{
    if ls.len() > 0 {
        lemma_run_counts(ls.drop_last(), base);
        lemma_line_kinds(ls.last());
        let prev = run(ls.drop_last(), base);
        let cur = run(ls, base);
        if count_prefixed(ls, "#EXT-X-STREAM-INF:"@) == 0 {
            if is_uri_line(ls.last()) {
                assert(cur.segments == prev.segments.push(cur.segments.last()));
                assert(cur.segments.map_values(|g: SegmentView| g.uri) =~= prev.segments.map_values(
                    |g: SegmentView| g.uri,
                ).push(resolve(ls.last(), base)));
            } else {
                assert(cur.segments.map_values(|g: SegmentView| g.uri) =~= prev.segments.map_values(
                    |g: SegmentView| g.uri,
                ));
            }
        }
    } else {
        assert(run(ls, base).segments.map_values(|g: SegmentView| g.uri) =~= Seq::<Seq<char>>::empty());
    }
}

/// Parsing keeps one stream per `#EXT-X-STREAM-INF:` line.
pub proof fn law_one_variant_per_stream_tag(content: Seq<char>, base: Option<Seq<char>>)
    ensures
        parsed(content, base).variants.len() == count_prefixed(playlist_lines(content).drop_first(), "#EXT-X-STREAM-INF:"@),
{
    lemma_run_counts(playlist_lines(content).drop_first(), base);
}

/// A playlist is marked as ended exactly when a line starts with
/// `#EXT-X-ENDLIST`.
pub proof fn law_end_list_iff_tag(content: Seq<char>, base: Option<Seq<char>>)
    ensures
        parsed(content, base).end_list <==> count_prefixed(playlist_lines(content).drop_first(), "#EXT-X-ENDLIST"@) > 0,
{
    lemma_run_counts(playlist_lines(content).drop_first(), base);
}

/// In a playlist without stream tags, every URI line gives one segment, in
/// order, whose URI is that line resolved against the base.
pub proof fn law_one_segment_per_uri_line(content: Seq<char>, base: Option<Seq<char>>)
    requires
        count_prefixed(playlist_lines(content).drop_first(), "#EXT-X-STREAM-INF:"@) == 0,
    ensures
        parsed(content, base).segments.len() == count_uri_lines(playlist_lines(content).drop_first()),
        parsed(content, base).segments.map_values(|g: SegmentView| g.uri) == resolved_uri_lines(
            playlist_lines(content).drop_first(),
            base,
        ),
{
    lemma_run_counts(playlist_lines(content).drop_first(), base);
}

/// Where the URI lines of a playlist go, line by line: a stream tag opens a
/// stream with no URI yet; the first URI line after it gives that stream
/// its URI; every other URI line adds a segment.  The result lists the
/// stream URIs, the segment URIs (each resolved against `base`) and whether
/// a stream still waits for its URI.
pub open spec fn uri_plan(ls: Seq<Seq<char>>, base: Option<Seq<char>>) -> (Seq<Seq<char>>, Seq<Seq<char>>, bool)
    decreases ls.len(),
{
    if ls.len() == 0 {
        (Seq::empty(), Seq::empty(), false)
    } else {
        let (vs, ss, pending) = uri_plan(ls.drop_last(), base);
        let l = ls.last();
        if starts_with(l, "#EXT-X-STREAM-INF:"@) {
            (vs.push(Seq::empty()), ss, true)
        } else if is_uri_line(l) {
            if pending {
                (vs.update(vs.len() - 1, resolve(l, base)), ss, false)
            } else {
                (vs, ss.push(resolve(l, base)), false)
            }
        } else {
            (vs, ss, pending)
        }
    }
}

proof fn lemma_run_plan(ls: Seq<Seq<char>>, base: Option<Seq<char>>)
    ensures
        run(ls, base).variants.map_values(|v: VariantView| v.uri) == uri_plan(ls, base).0,
        run(ls, base).segments.map_values(|g: SegmentView| g.uri) == uri_plan(ls, base).1,
        run(ls, base).has_variants == uri_plan(ls, base).2,
        run(ls, base).has_variants ==> run(ls, base).variants.len() > 0,
    decreases ls.len(),
{
    if ls.len() == 0 {
        assert(run(ls, base).variants.map_values(|v: VariantView| v.uri) =~= Seq::<Seq<char>>::empty());
        assert(run(ls, base).segments.map_values(|g: SegmentView| g.uri) =~= Seq::<Seq<char>>::empty());
    } else {
        lemma_run_plan(ls.drop_last(), base);
        lemma_line_kinds(ls.last());
        reveal_strlit("#EXT-X-STREAM-INF:");
        let l = ls.last();
        let prev = run(ls.drop_last(), base);
        let cur = run(ls, base);
        let pv = prev.variants.map_values(|v: VariantView| v.uri);
        let ps = prev.segments.map_values(|g: SegmentView| g.uri);
        if starts_with(l, "#EXT-X-STREAM-INF:"@) {
            assert(cur.variants == prev.variants.push(variant_params(l.skip(18))));
            assert(cur.variants.map_values(|v: VariantView| v.uri) =~= pv.push(Seq::empty()));
            assert(cur.segments.map_values(|g: SegmentView| g.uri) =~= ps);
        } else if is_uri_line(l) {
            if prev.has_variants {
                assert(cur.variants.map_values(|v: VariantView| v.uri) =~= pv.update(
                    pv.len() - 1,
                    resolve(l, base),
                ));
                assert(cur.segments.map_values(|g: SegmentView| g.uri) =~= ps);
            } else {
                assert(cur.variants.map_values(|v: VariantView| v.uri) =~= pv);
                assert(cur.segments == prev.segments.push(cur.segments.last()));
                assert(cur.segments.map_values(|g: SegmentView| g.uri) =~= ps.push(resolve(l, base)));
            }
        } else {
            assert(cur.variants.map_values(|v: VariantView| v.uri) =~= pv);
            assert(cur.segments.map_values(|g: SegmentView| g.uri) =~= ps);
        }
    }
}

/// Where the URI lines of a parsed playlist go (see [`uri_plan`]): the
/// streams' URIs and the segments' URIs, in order, are those the plan
/// gives; stream tags and URI lines may be mixed.
pub proof fn law_uri_lines_placed(content: Seq<char>, base: Option<Seq<char>>)
    ensures
        parsed(content, base).variants.map_values(|v: VariantView| v.uri) == uri_plan(
            playlist_lines(content).drop_first(),
            base,
        ).0,
        parsed(content, base).segments.map_values(|g: SegmentView| g.uri) == uri_plan(
            playlist_lines(content).drop_first(),
            base,
        ).1,
{
    lemma_run_plan(playlist_lines(content).drop_first(), base);
}

/// The attributes of the last `#EXT-X-KEY:` line among `ls` (none when there
/// is no such line).
pub open spec fn last_key(ls: Seq<Seq<char>>) -> Option<KeyView>
    decreases ls.len(),
{
    if ls.len() == 0 {
        None
    } else if starts_with(ls.last(), "#EXT-X-KEY:"@) {
        Some(key_params(ls.last().skip(11)))
    } else {
        last_key(ls.drop_last())
    }
}

/// The attributes of the last `#EXT-X-MAP:` line among `ls` (none when there
/// is no such line).
pub open spec fn last_map(ls: Seq<Seq<char>>) -> Option<MapView>
    decreases ls.len(),
{
    if ls.len() == 0 {
        None
    } else if starts_with(ls.last(), "#EXT-X-MAP:"@) {
        Some(map_params(ls.last().skip(11)))
    } else {
        last_map(ls.drop_last())
    }
}

/// After any lines, the key in force is that of the last `#EXT-X-KEY:`
/// line, and the initialisation section that of the last `#EXT-X-MAP:`
/// line: each tag applies until the next one of its kind, whatever segments
/// come between.
pub proof fn law_key_in_force(ls: Seq<Seq<char>>, base: Option<Seq<char>>)
    ensures
        run(ls, base).key == last_key(ls),
        run(ls, base).map == last_map(ls),
    decreases ls.len(),
{
    if ls.len() > 0 {
        law_key_in_force(ls.drop_last(), base);
        lemma_line_kinds(ls.last());
    }
}

/// A URI line that does not close a stream tag adds one segment at the end
/// and changes no earlier one; the new segment carries the key of the last
/// `#EXT-X-KEY:` line and the section of the last `#EXT-X-MAP:` line before
/// it, and the line's URI resolved against the base.
pub proof fn law_segment_carries_last_key(ls: Seq<Seq<char>>, l: Seq<char>, base: Option<Seq<char>>)
    requires
        is_uri_line(l),
        !run(ls, base).has_variants,
    ensures
        run(ls.push(l), base).segments.len() == run(ls, base).segments.len() + 1,
        run(ls.push(l), base).segments.drop_last() == run(ls, base).segments,
        run(ls.push(l), base).segments.last().key == last_key(ls),
        run(ls.push(l), base).segments.last().map == last_map(ls),
        run(ls.push(l), base).segments.last().uri == resolve(l, base),
{
    law_key_in_force(ls, base);
    lemma_line_kinds(l);
    assert(ls.push(l).drop_last() =~= ls);
    assert(ls.push(l).last() == l);
}

/// The lines after the last URI line.
pub open spec fn after_last_uri(ls: Seq<Seq<char>>) -> Seq<Seq<char>>
    decreases ls.len(),
{
    if ls.len() == 0 || is_uri_line(ls.last()) {
        Seq::empty()
    } else {
        after_last_uri(ls.drop_last()).push(ls.last())
    }
}

/// The duration and title of an `#EXTINF:` line: the text after the tag up
/// to the first comma, and the rest.
pub open spec fn extinf_info(l: Seq<char>) -> (Seq<char>, Seq<char>) {
    let rest = l.skip(8);
    match find(rest, ',') {
        Some(c) => (rest.take(c), rest.skip(c + 1)),
        None => (rest, Seq::empty()),
    }
}

/// The duration and title of the last `#EXTINF:` line among `ls` (empty
/// when there is none).
pub open spec fn last_extinf(ls: Seq<Seq<char>>) -> (Seq<char>, Seq<char>)
    decreases ls.len(),
{
    if ls.len() == 0 {
        (Seq::empty(), Seq::empty())
    } else if starts_with(ls.last(), "#EXTINF:"@) {
        extinf_info(ls.last())
    } else {
        last_extinf(ls.drop_last())
    }
}

/// Whether a line among `ls` starts with `#EXT-X-DISCONTINUITY`.
pub open spec fn has_discontinuity(ls: Seq<Seq<char>>) -> bool {
    count_prefixed(ls, "#EXT-X-DISCONTINUITY"@) > 0
}

proof fn lemma_run_segment_info(ls: Seq<Seq<char>>, base: Option<Seq<char>>)
    requires
        count_prefixed(ls, "#EXT-X-STREAM-INF:"@) == 0,
    ensures
        (run(ls, base).duration, run(ls, base).title) == last_extinf(after_last_uri(ls)),
        run(ls, base).discontinuity == has_discontinuity(after_last_uri(ls)),
    decreases ls.len(),
{
    if ls.len() > 0 {
        lemma_run_counts(ls, base);
        lemma_run_counts(ls.drop_last(), base);
        lemma_run_segment_info(ls.drop_last(), base);
        lemma_line_kinds(ls.last());
        let a = after_last_uri(ls);
        let l = ls.last();
        if starts_with(l, "#EXTINF:"@) {
            assert(last_extinf(a) == extinf_info(l));
        }
        if !is_uri_line(ls.last()) {
            assert(a.drop_last() == after_last_uri(ls.drop_last()));
            assert(a.last() == ls.last());
        }
    }
}

/// In a playlist without stream tags, each segment takes its duration and
/// title from the last `#EXTINF:` line since the previous URI line (empty
/// when there is none), and is marked as a discontinuity exactly when an
/// `#EXT-X-DISCONTINUITY` line comes since the previous URI line.
pub proof fn law_segment_info_since_previous_uri(ls: Seq<Seq<char>>, l: Seq<char>, base: Option<Seq<char>>)
    requires
        count_prefixed(ls, "#EXT-X-STREAM-INF:"@) == 0,
        is_uri_line(l),
    ensures
        run(ls.push(l), base).segments.len() == run(ls, base).segments.len() + 1,
        run(ls.push(l), base).segments.last().duration == last_extinf(after_last_uri(ls)).0,
        run(ls.push(l), base).segments.last().title == last_extinf(after_last_uri(ls)).1,
        run(ls.push(l), base).segments.last().discontinuity == has_discontinuity(after_last_uri(ls)),
{
    lemma_run_counts(ls, base);
    lemma_run_segment_info(ls, base);
    lemma_line_kinds(l);
    assert(ls.push(l).drop_last() =~= ls);
    assert(ls.push(l).last() == l);
}
} // verus!
