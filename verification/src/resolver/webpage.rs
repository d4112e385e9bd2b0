//! Web pages that embed a video player: the page is fetched (outside this
//! crate) and its HTML searched for the video address, which is then played
//! with the page as `Referer`.
//!
//! The search tries, in order: `<video src>` and `<video><source src>`, an
//! `<iframe>` that looks like a player, JavaScript variables naming an
//! `.m3u8`/`.mp4` address, and any quoted `.m3u8`/`.mp4` address in the page.
use vstd::prelude::*;
use vstd::utf8::encode_utf8;

use crate::deps::{
    all_captures, first_capture, lowercase, regex_all_captures, regex_first_capture,
    select_attrs, selected_attrs, to_lowercase,
};
use crate::layer::{LinkTier, SourceResolver, TierView};
use crate::text::{
    chars_of, has_substring, occurs_at, occurs_at_exec, starts_with, str_contains,
    str_starts_with, strip_prefix_all, trim, trim_str, utf8_len_exceeds, lemma_encode_utf8_len_at_least,
};

verus! {

/// The resolver for web pages that embed a video.
pub struct WebPageResolver;

/// The lower-cased link is an `http(s)` page that is not itself an HLS playlist.
pub open spec fn is_web_page_link(lower: Seq<char>) -> bool {
    &&& starts_with(lower, "http://"@) || starts_with(lower, "https://"@)
    &&& !has_substring(lower, ".m3u8"@)
}

/// Whether the lower-cased link `lower` is a web page to search for a video.
pub fn looks_like_web_page(lower: &str) -> (b: bool)
    ensures
        b == is_web_page_link(lower@),
{
    if !(str_starts_with(lower, "http://") || str_starts_with(lower, "https://")) {
        return false;
    }
    !str_contains(lower, ".m3u8")
}

impl SourceResolver for WebPageResolver {
    open spec fn accepts(&self, input: Seq<char>) -> bool {
        is_web_page_link(lowercase(trim(input)))
    }

    fn can_handle(&self, input: &str) -> (b: bool) {
        let lower = to_lowercase(trim_str(input));
        looks_like_web_page(lower.as_str())
    }
}

// ---------------------------------------------------------------------------
// Relative addresses
// ---------------------------------------------------------------------------

/// The position of the last `c` in `s`, or -1.
pub open spec fn last_index_of(s: Seq<char>, c: char) -> int
    decreases s.len(),
{
    if s.len() == 0 {
        -1
    } else if s.last() == c {
        s.len() - 1
    } else {
        last_index_of(s.drop_last(), c)
    }
}

/// The absolute address for `url` found on the page at `page`: absolute
/// addresses stay, protocol-relative ones (`//host/...`) take the page's
/// scheme, and relative ones are put after the page's directory (the page
/// address up to its last `/`, when that `/` lies past the `scheme://` part),
/// without their leading `./` and `/`.
pub open spec fn absolute_url(url: Seq<char>, page: Seq<char>) -> Seq<char> {
    if starts_with(url, "http://"@) || starts_with(url, "https://"@) {
        url
    } else if starts_with(url, "//"@) {
        if starts_with(page, "https://"@) {
            "https:"@ + url
        } else {
            "http:"@ + url
        }
    } else {
        let p = last_index_of(page, '/');
        if p >= 0 && encode_utf8(page.take(p)).len() > 8 {
            page.take(p + 1) + strip_prefix_all(strip_prefix_all(url, "./"@), "/"@)
        } else {
            url
        }
    }
}

/// The position of the last `c` in `v`.
fn last_index_exec(v: &Vec<char>, c: char) -> (r: Option<usize>)
    ensures
        match r {
            Some(p) => p < v@.len() && p == last_index_of(v@, c),
            None => last_index_of(v@, c) == -1,
        },
{
    let mut j = v.len();
    assert(v@.take(j as int) =~= v@);
    while j > 0
        invariant
            j <= v@.len(),
            last_index_of(v@, c) == last_index_of(v@.take(j as int), c),
        decreases j,
    {
        let ghost t = v@.take(j as int);
        assert(t.last() == v@[j - 1]);
        assert(t.drop_last() =~= v@.take(j - 1));
        if v[j - 1] == c {
            return Some(j - 1);
        }
        j -= 1;
    }
    None
}

proof fn lemma_strip_prefix_step(s: Seq<char>, p: Seq<char>, i: int)
    requires
        p.len() > 0,
        occurs_at(s, p, i),
    ensures
        strip_prefix_all(s.subrange(i, s.len() as int), p) == strip_prefix_all(
            s.subrange(i + p.len(), s.len() as int),
            p,
        ),
{
    let t = s.subrange(i, s.len() as int);
    assert(t.subrange(0, p.len() as int) =~= s.subrange(i, i + p.len()));
    assert(t.subrange(p.len() as int, t.len() as int) =~= s.subrange(i + p.len(), s.len() as int));
}

/// `str::trim_start_matches(p)` for a non-empty `p`.
fn strip_prefix_all_str<'a>(s: &'a str, p: &str) -> (r: &'a str)
    requires
        p@.len() > 0,
    ensures
        r@ == strip_prefix_all(s@, p@),
{
    let v = chars_of(s);
    let pv = chars_of(p);
    let n = v.len();
    let m = pv.len();
    let mut i: usize = 0;
    assert(s@.subrange(0, n as int) =~= s@);
    while m <= n - i && occurs_at_exec(&v, &pv, i)
        invariant
            i <= n,
            n == s@.len(),
            m == p@.len(),
            m > 0,
            v@ == s@,
            pv@ == p@,
            strip_prefix_all(s@, p@) == strip_prefix_all(s@.subrange(i as int, n as int), p@),
        decreases n - i,
    {
        proof {
            lemma_strip_prefix_step(s@, p@, i as int);
        }
        i += m;
    }
    proof {
        let t = s@.subrange(i as int, n as int);
        if m <= n - i {
            assert(t.subrange(0, m as int) =~= s@.subrange(i as int, i + m));
        }
        assert(!starts_with(t, p@));
    }
    s.substring_char(i, n)
}

/// Makes the address `url`, found on the page at `page_url`, absolute.
pub fn resolve_url(url: &str, page_url: &str) -> (r: String)
    ensures
        r@ == absolute_url(url@, page_url@),
{
    if str_starts_with(url, "http://") || str_starts_with(url, "https://") {
        return String::from_str(url);
    }
    if str_starts_with(url, "//") {
        if str_starts_with(page_url, "https://") {
            return String::from_str("https:").concat(url);
        }
        return String::from_str("http:").concat(url);
    }
    let pv = chars_of(page_url);
    let plen = pv.len();
    match last_index_exec(&pv, '/') {
        Some(p) => {
            assert(p < plen);
            let before = page_url.substring_char(0, p);
            assert(before@ =~= page_url@.take(p as int));
            if utf8_len_exceeds(before, 8) {
                let base = page_url.substring_char(0, p + 1);
                proof {
                    reveal_strlit("./");
                    reveal_strlit("/");
                }
                let clean = strip_prefix_all_str(strip_prefix_all_str(url, "./"), "/");
                assert(base@ =~= page_url@.take(p + 1));
                return String::from_str(base).concat(clean);
            }
        },
        None => {},
    }
    String::from_str(url)
}

// ---------------------------------------------------------------------------
// Strategy 1: <video src> and <video><source src>
// ---------------------------------------------------------------------------

/// The address from the first element found, when there is one: `None` when the
/// selector failed, the element lacks the attribute, or nothing was found.
pub open spec fn first_found_url(found: Option<Seq<Option<Seq<char>>>>, page: Seq<char>) -> Option<
    Seq<char>,
> {
    match found {
        None => None,
        Some(srcs) => if srcs.len() > 0 {
            match srcs[0] {
                Some(src) => Some(absolute_url(src, page)),
                None => None,
            }
        } else {
            None
        },
    }
}

/// The address that the `<video>` strategy picks, given the `src` attributes
/// of the `video[src]` elements and of the `video source[src]` elements.
pub open spec fn video_tag_choice(
    videos: Option<Seq<Option<Seq<char>>>>,
    sources: Option<Seq<Option<Seq<char>>>>,
    page: Seq<char>,
) -> Option<Seq<char>> {
    match videos {
        None => None,
        Some(v) => if v.len() > 0 {
            first_found_url(videos, page)
        } else {
            first_found_url(sources, page)
        },
    }
}

/// The `src` attributes that the `<video>` strategy reads from a page.
pub open spec fn video_tag_result(html: Seq<char>, page: Seq<char>) -> Option<Seq<char>> {
    video_tag_choice(
        selected_attrs(html, "video[src]"@, "src"@),
        selected_attrs(html, "video source[src]"@, "src"@),
        page,
    )
}

fn first_found_url_exec(found: &Option<Vec<Option<String>>>, page_url: &str) -> (r: Option<String>)
    ensures
        r.deep_view() == first_found_url(found.deep_view(), page_url@),
{
    match found {
        None => None,
        Some(srcs) => {
            if srcs.len() > 0 {
                match &srcs[0] {
                    Some(src) => Some(resolve_url(src.as_str(), page_url)),
                    None => None,
                }
            } else {
                None
            }
        },
    }
}

/// The `<video>` strategy on the attributes found: the first `video[src]`
/// element decides if there is one, else the first `video source[src]` one.
pub fn video_tag_url(
    videos: &Option<Vec<Option<String>>>,
    sources: &Option<Vec<Option<String>>>,
    page_url: &str,
) -> (r: Option<String>)
    ensures
        r.deep_view() == video_tag_choice(videos.deep_view(), sources.deep_view(), page_url@),
{
    match videos {
        None => None,
        Some(v) => {
            if v.len() > 0 {
                first_found_url_exec(videos, page_url)
            } else {
                first_found_url_exec(sources, page_url)
            }
        },
    }
}

fn extract_from_video_tag(html: &str, page_url: &str) -> (r: Option<String>)
    ensures
        r.deep_view() == video_tag_result(html@, page_url@),
{
    let videos = select_attrs(html, "video[src]", "src");
    let sources = select_attrs(html, "video source[src]", "src");
    video_tag_url(&videos, &sources, page_url)
}

// ---------------------------------------------------------------------------
// Strategy 2: <iframe> players
// ---------------------------------------------------------------------------

/// A lower-cased iframe address that looks like a video player.
pub open spec fn is_player_iframe(lower: Seq<char>) -> bool {
    ||| has_substring(lower, "video"@)
    ||| has_substring(lower, "player"@)
    ||| has_substring(lower, "embed"@)
    ||| has_substring(lower, "m3u8"@)
    ||| has_substring(lower, "mp4"@)
}

/// Whether the lower-cased iframe address `lower` looks like a video player.
pub fn looks_like_player_iframe(lower: &str) -> (b: bool)
    ensures
        b == is_player_iframe(lower@),
{
    str_contains(lower, "video") || str_contains(lower, "player") || str_contains(lower, "embed")
        || str_contains(lower, "m3u8") || str_contains(lower, "mp4")
}

/// Walking the iframes from position `k`: the first player iframe gives the
/// address; an iframe without `src` ends the search with nothing.
pub open spec fn iframe_pick(srcs: Seq<Option<Seq<char>>>, k: int, page: Seq<char>) -> Option<
    Seq<char>,
>
    decreases srcs.len() - k,
{
    if k < 0 || k >= srcs.len() {
        None
    } else {
        match srcs[k] {
            None => None,
            Some(src) => if is_player_iframe(lowercase(src)) {
                Some(absolute_url(src, page))
            } else {
                iframe_pick(srcs, k + 1, page)
            },
        }
    }
}

/// The address that the iframe strategy picks from the `src` attributes found.
pub open spec fn iframe_choice(found: Option<Seq<Option<Seq<char>>>>, page: Seq<char>) -> Option<
    Seq<char>,
> {
    match found {
        None => None,
        Some(srcs) => iframe_pick(srcs, 0, page),
    }
}

/// An iframe address is taken for a player exactly when its lower-cased text
/// contains `video`, `player`, `embed`, `m3u8` or `mp4`.
pub proof fn lemma_player_iframe_words(lower: Seq<char>)
    ensures
        has_substring(lower, "video"@) ==> is_player_iframe(lower),
        has_substring(lower, "player"@) ==> is_player_iframe(lower),
        has_substring(lower, "embed"@) ==> is_player_iframe(lower),
        has_substring(lower, "m3u8"@) ==> is_player_iframe(lower),
        has_substring(lower, "mp4"@) ==> is_player_iframe(lower),
        is_player_iframe(lower) ==> has_substring(lower, "video"@) || has_substring(lower, "player"@)
            || has_substring(lower, "embed"@) || has_substring(lower, "m3u8"@) || has_substring(
            lower,
            "mp4"@,
        ),
{
}

proof fn lemma_iframe_pick_from(
    srcs: Seq<Option<Seq<char>>>,
    k: int,
    src: Seq<char>,
    page: Seq<char>,
    m: int,
)
    requires
        0 <= m <= k < srcs.len(),
        srcs[k] == Some(src),
        is_player_iframe(lowercase(src)),
        forall|j: int|
            0 <= j < k ==> (#[trigger] srcs[j]) is Some && !is_player_iframe(lowercase(srcs[j]->0)),
    ensures
        iframe_pick(srcs, m, page) == Some(absolute_url(src, page)),
    decreases k - m,
{
    if m < k {
        lemma_iframe_pick_from(srcs, k, src, page, m + 1);
        assert(srcs[m] is Some);
    }
}

/// The iframe strategy takes the first iframe that looks like a player: when
/// iframe `k`'s lower-cased address contains `video`, `player`, `embed`, `m3u8`
/// or `mp4`, and every earlier iframe has an address that looks like none,
/// the strategy answers iframe `k`'s address made absolute.
pub proof fn lemma_first_player_iframe_taken(
    srcs: Seq<Option<Seq<char>>>,
    k: int,
    src: Seq<char>,
    page: Seq<char>,
)
    requires
        0 <= k < srcs.len(),
        srcs[k] == Some(src),
        has_substring(lowercase(src), "video"@) || has_substring(lowercase(src), "player"@)
            || has_substring(lowercase(src), "embed"@) || has_substring(lowercase(src), "m3u8"@)
            || has_substring(lowercase(src), "mp4"@),
        forall|j: int|
            0 <= j < k ==> (#[trigger] srcs[j]) is Some && !is_player_iframe(lowercase(srcs[j]->0)),
    ensures
        iframe_choice(Some(srcs), page) == Some(absolute_url(src, page)),
{
    lemma_player_iframe_words(lowercase(src));
    lemma_iframe_pick_from(srcs, k, src, page, 0);
}

/// The iframe strategy on the `src` attributes of the `iframe[src]` elements.
pub fn iframe_url(found: &Option<Vec<Option<String>>>, page_url: &str) -> (r: Option<String>)
    ensures
        r.deep_view() == iframe_choice(found.deep_view(), page_url@),
{
    match found {
        None => None,
        Some(srcs) => {
            let ghost view = found.deep_view()->0;
            let mut k: usize = 0;
            while k < srcs.len()
                invariant
                    k <= srcs@.len(),
                    view == srcs.deep_view(),
                    iframe_choice(found.deep_view(), page_url@) == iframe_pick(view, 0, page_url@),
                    iframe_pick(view, 0, page_url@) == iframe_pick(view, k as int, page_url@),
                decreases srcs@.len() - k,
            {
                assert(view[k as int] == srcs@[k as int].deep_view());
                match &srcs[k] {
                    None => {
                        return None;
                    },
                    Some(src) => {
                        let lower = to_lowercase(src.as_str());
                        if looks_like_player_iframe(lower.as_str()) {
                            return Some(resolve_url(src.as_str(), page_url));
                        }
                    },
                }
                k += 1;
            }
            None
        },
    }
}

fn extract_from_iframe(html: &str, page_url: &str) -> (r: Option<String>)
    ensures
        r.deep_view() == iframe_choice(selected_attrs(html@, "iframe[src]"@, "src"@), page_url@),
{
    let found = select_attrs(html, "iframe[src]", "src");
    iframe_url(&found, page_url)
}

// ---------------------------------------------------------------------------
// Strategy 3: JavaScript variables
// ---------------------------------------------------------------------------

/// The patterns for video addresses in JavaScript, tried in order; group 1 is
/// the address.
pub open spec fn js_patterns() -> Seq<Seq<char>> {
    seq![
        r#"videoUrl["'\s:]+["']([^"']+\.(?:m3u8|mp4))["']"#@,
        r#"video_url["'\s:]+["']([^"']+\.(?:m3u8|mp4))["']"#@,
        r#"playUrl["'\s:]+["']([^"']+\.(?:m3u8|mp4))["']"#@,
        r#"["']url["']\s*:\s*["']([^"']+\.m3u8[^"']*)["']"#@,
        r#"["']src["']\s*:\s*["']([^"']+\.(?:m3u8|mp4)[^"']*)["']"#@,
        r#"["']file["']\s*[:=]\s*["']([^"']+\.(?:m3u8|mp4)[^"']*)["']"#@,
        r#"["']link["']\s*[:=]\s*["']([^"']+\.(?:m3u8|mp4)[^"']*)["']"#@,
    ]
}

fn js_pattern(i: usize) -> (p: &'static str)
    requires
        i < js_patterns().len(),
    ensures
        p@ == js_patterns()[i as int],
{
    if i == 0 {
        r#"videoUrl["'\s:]+["']([^"']+\.(?:m3u8|mp4))["']"#
    } else if i == 1 {
        r#"video_url["'\s:]+["']([^"']+\.(?:m3u8|mp4))["']"#
    } else if i == 2 {
        r#"playUrl["'\s:]+["']([^"']+\.(?:m3u8|mp4))["']"#
    } else if i == 3 {
        r#"["']url["']\s*:\s*["']([^"']+\.m3u8[^"']*)["']"#
    } else if i == 4 {
        r#"["']src["']\s*:\s*["']([^"']+\.(?:m3u8|mp4)[^"']*)["']"#
    } else if i == 5 {
        r#"["']file["']\s*[:=]\s*["']([^"']+\.(?:m3u8|mp4)[^"']*)["']"#
    } else {
        r#"["']link["']\s*[:=]\s*["']([^"']+\.(?:m3u8|mp4)[^"']*)["']"#
    }
}

/// Walking the patterns' captures from position `k`: the first address longer
/// than five bytes is taken.
pub open spec fn js_pick(captures: Seq<Option<Seq<char>>>, k: int, page: Seq<char>) -> Option<
    Seq<char>,
>
    decreases captures.len() - k,
{
    if k < 0 || k >= captures.len() {
        None
    } else {
        match captures[k] {
            Some(u) => if encode_utf8(u).len() > 5 {
                Some(absolute_url(u, page))
            } else {
                js_pick(captures, k + 1, page)
            },
            None => js_pick(captures, k + 1, page),
        }
    }
}

/// The first capture of each JavaScript pattern in `html`.
pub open spec fn js_captures(html: Seq<char>) -> Seq<Option<Seq<char>>> {
    Seq::new(js_patterns().len(), |i: int| first_capture(js_patterns()[i], html))
}

/// The JavaScript strategy on the first capture of each pattern, in pattern order.
pub fn js_var_url(captures: &Vec<Option<String>>, page_url: &str) -> (r: Option<String>)
    ensures
        r.deep_view() == js_pick(captures.deep_view(), 0, page_url@),
{
    let ghost view = captures.deep_view();
    let mut k: usize = 0;
    while k < captures.len()
        invariant
            k <= captures@.len(),
            view == captures.deep_view(),
            js_pick(view, 0, page_url@) == js_pick(view, k as int, page_url@),
        decreases captures@.len() - k,
    {
        assert(view[k as int] == captures@[k as int].deep_view());
        match &captures[k] {
            Some(u) => {
                if utf8_len_exceeds(u.as_str(), 5) {
                    return Some(resolve_url(u.as_str(), page_url));
                }
            },
            None => {},
        }
        k += 1;
    }
    None
}

fn extract_from_js_vars(html: &str, page_url: &str) -> (r: Option<String>)
    ensures
        r.deep_view() == js_pick(js_captures(html@), 0, page_url@),
{
    let mut captures: Vec<Option<String>> = Vec::new();
    let n: usize = 7;
    let mut i: usize = 0;
    while i < n
        invariant
            n == js_patterns().len(),
            i <= n,
            captures.deep_view() =~= js_captures(html@).take(i as int),
        decreases n - i,
    {
        let ghost before = captures.deep_view();
        let found = regex_first_capture(js_pattern(i), html);
        captures.push(found);
        assert(captures.deep_view() =~= before.push(first_capture(js_patterns()[i as int], html@)));
        i += 1;
    }
    assert(js_captures(html@).take(n as int) =~= js_captures(html@));
    js_var_url(&captures, page_url)
}

// ---------------------------------------------------------------------------
// Strategy 4: quoted media addresses anywhere in the page
// ---------------------------------------------------------------------------

/// Quoted `.m3u8` addresses, then quoted `.mp4` addresses of some length.
pub open spec fn media_patterns() -> Seq<Seq<char>> {
    seq![r#"["']([^"']*\.m3u8[^"']*)["']"#@, r#"["']([^"']{20,}\.mp4[^"']*)["']"#@]
}

/// The address is an absolute `http(s)` address.
pub open spec fn is_http_url(u: Seq<char>) -> bool {
    starts_with(u, "http://"@) || starts_with(u, "https://"@)
}

/// Walking one pattern's captures from position `k`: the first one that is an
/// `http(s)` address once made absolute. Matches without a group are passed over.
pub open spec fn media_pick_in(captures: Seq<Option<Seq<char>>>, k: int, page: Seq<char>) -> Option<
    Seq<char>,
>
    decreases captures.len() - k,
{
    if k < 0 || k >= captures.len() {
        None
    } else {
        match captures[k] {
            Some(u) => if is_http_url(absolute_url(u, page)) {
                Some(absolute_url(u, page))
            } else {
                media_pick_in(captures, k + 1, page)
            },
            None => media_pick_in(captures, k + 1, page),
        }
    }
}

/// Walking the patterns from position `g`: the first pattern with a usable match.
pub open spec fn media_pick(groups: Seq<Seq<Option<Seq<char>>>>, g: int, page: Seq<char>) -> Option<
    Seq<char>,
>
    decreases groups.len() - g,
{
    if g < 0 || g >= groups.len() {
        None
    } else {
        match media_pick_in(groups[g], 0, page) {
            Some(u) => Some(u),
            None => media_pick(groups, g + 1, page),
        }
    }
}

proof fn lemma_media_pick_in_from(
    captures: Seq<Option<Seq<char>>>,
    k: int,
    u: Seq<char>,
    page: Seq<char>,
    m: int,
)
    requires
        0 <= m <= k < captures.len(),
        captures[k] == Some(u),
        is_http_url(absolute_url(u, page)),
        forall|j: int|
            0 <= j < k ==> !((#[trigger] captures[j]) matches Some(v) && is_http_url(
                absolute_url(v, page),
            )),
    ensures
        media_pick_in(captures, m, page) == Some(absolute_url(u, page)),
    decreases k - m,
{
    if m < k {
        lemma_media_pick_in_from(captures, k, u, page, m + 1);
        assert(!(captures[m] matches Some(v) && is_http_url(absolute_url(v, page))));
    }
}

/// The page search takes, among one pattern's captures, the first whose address
/// is an `http(s)` address once made absolute against the page, and answers that
/// absolute address; captures before it that do not resolve to one are passed over.
pub proof fn lemma_first_usable_media_capture(
    captures: Seq<Option<Seq<char>>>,
    k: int,
    u: Seq<char>,
    page: Seq<char>,
)
    requires
        0 <= k < captures.len(),
        captures[k] == Some(u),
        is_http_url(absolute_url(u, page)),
        forall|j: int|
            0 <= j < k ==> !((#[trigger] captures[j]) matches Some(v) && is_http_url(
                absolute_url(v, page),
            )),
    ensures
        media_pick_in(captures, 0, page) == Some(absolute_url(u, page)),
{
    lemma_media_pick_in_from(captures, k, u, page, 0);
}

proof fn lemma_last_index_bound(s: Seq<char>, c: char)
    ensures
        last_index_of(s, c) < s.len(),
        last_index_of(s, c) >= 0 ==> s[last_index_of(s, c)] == c,
    decreases s.len(),
{
    if s.len() > 0 && s.last() != c {
        lemma_last_index_bound(s.drop_last(), c);
    }
}

/// On an `https` page whose address has a path (its last `/` lies past the
/// host), a relative address (not `http(s)://`, not `//`) is put after the
/// page's directory, so it becomes an `https` address.
pub proof fn lemma_relative_address_on_https_page(u: Seq<char>, page: Seq<char>)
    requires
        starts_with(page, "https://"@),
        last_index_of(page, '/') > 8,
        !starts_with(u, "http://"@),
        !starts_with(u, "https://"@),
        !starts_with(u, "//"@),
    ensures
        absolute_url(u, page) == page.take(last_index_of(page, '/') + 1) + strip_prefix_all(
            strip_prefix_all(u, "./"@),
            "/"@,
        ),
        starts_with(absolute_url(u, page), "https://"@),
        is_http_url(absolute_url(u, page)),
{
    let p = last_index_of(page, '/');
    lemma_last_index_bound(page, '/');
    lemma_encode_utf8_len_at_least(page.take(p));
    let r = absolute_url(u, page);
    let rest = strip_prefix_all(strip_prefix_all(u, "./"@), "/"@);
    assert(r == page.take(p + 1) + rest);
    reveal_strlit("https://");
    assert(r.subrange(0, 8) =~= page.subrange(0, 8));
}

/// In particular, on such a page a relative media address is never skipped:
/// when capture `k` is relative and no earlier capture resolves to an `http(s)`
/// address, the page search answers capture `k` made absolute.
pub proof fn lemma_relative_media_capture_kept(
    captures: Seq<Option<Seq<char>>>,
    k: int,
    u: Seq<char>,
    page: Seq<char>,
)
    requires
        0 <= k < captures.len(),
        captures[k] == Some(u),
        starts_with(page, "https://"@),
        last_index_of(page, '/') > 8,
        !starts_with(u, "http://"@),
        !starts_with(u, "https://"@),
        !starts_with(u, "//"@),
        forall|j: int|
            0 <= j < k ==> !((#[trigger] captures[j]) matches Some(v) && is_http_url(
                absolute_url(v, page),
            )),
    ensures
        media_pick_in(captures, 0, page) == Some(absolute_url(u, page)),
        starts_with(absolute_url(u, page), "https://"@),
{
    lemma_relative_address_on_https_page(u, page);
    lemma_first_usable_media_capture(captures, k, u, page);
}

/// All captures of each media pattern in `html`.
pub open spec fn media_captures(html: Seq<char>) -> Seq<Seq<Option<Seq<char>>>> {
    Seq::new(media_patterns().len(), |i: int| all_captures(media_patterns()[i], html))
}

fn is_http_url_exec(u: &str) -> (b: bool)
    ensures
        b == is_http_url(u@),
{
    str_starts_with(u, "http://") || str_starts_with(u, "https://")
}

fn media_url_in(captures: &Vec<Option<String>>, page_url: &str) -> (r: Option<String>)
    ensures
        r.deep_view() == media_pick_in(captures.deep_view(), 0, page_url@),
{
    let ghost view = captures.deep_view();
    let mut k: usize = 0;
    while k < captures.len()
        invariant
            k <= captures@.len(),
            view == captures.deep_view(),
            media_pick_in(view, 0, page_url@) == media_pick_in(view, k as int, page_url@),
        decreases captures@.len() - k,
    {
        assert(view[k as int] == captures@[k as int].deep_view());
        match &captures[k] {
            Some(u) => {
                let absolute = resolve_url(u.as_str(), page_url);
                if is_http_url_exec(absolute.as_str()) {
                    return Some(absolute);
                }
            },
            None => {},
        }
        k += 1;
    }
    None
}

/// The page-search strategy on all captures of each media pattern, in pattern order.
pub fn media_url(groups: &Vec<Vec<Option<String>>>, page_url: &str) -> (r: Option<String>)
    ensures
        r.deep_view() == media_pick(groups.deep_view(), 0, page_url@),
{
    let ghost view = groups.deep_view();
    let mut g: usize = 0;
    while g < groups.len()
        invariant
            g <= groups@.len(),
            view == groups.deep_view(),
            media_pick(view, 0, page_url@) == media_pick(view, g as int, page_url@),
        decreases groups@.len() - g,
    {
        assert(view[g as int] == groups@[g as int].deep_view());
        let found = media_url_in(&groups[g], page_url);
        if found.is_some() {
            return found;
        }
        g += 1;
    }
    None
}

fn extract_media_urls(html: &str, page_url: &str) -> (r: Option<String>)
    ensures
        r.deep_view() == media_pick(media_captures(html@), 0, page_url@),
{
    let mut groups: Vec<Vec<Option<String>>> = Vec::new();
    groups.push(regex_all_captures(r#"["']([^"']*\.m3u8[^"']*)["']"#, html));
    groups.push(regex_all_captures(r#"["']([^"']{20,}\.mp4[^"']*)["']"#, html));
    assert(groups.deep_view() =~= media_captures(html@));
    media_url(&groups, page_url)
}

// ---------------------------------------------------------------------------
// The whole search
// ---------------------------------------------------------------------------

/// The video address found in the page `html` at `page`, trying the four
/// strategies in order, or the reason none was found.
pub open spec fn page_video_source(html: Seq<char>, page: Seq<char>) -> Result<Seq<char>, Seq<char>> {
    match video_tag_result(html, page) {
        Some(u) => Ok(u),
        None => match iframe_choice(selected_attrs(html, "iframe[src]"@, "src"@), page) {
            Some(u) => Ok(u),
            None => match js_pick(js_captures(html), 0, page) {
                Some(u) => Ok(u),
                None => match media_pick(media_captures(html), 0, page) {
                    Some(u) => Ok(u),
                    None => Err("未能从页面中提取到视频源"@),
                },
            },
        },
    }
}

/// Searches the HTML of the page at `page_url` for its video address.
pub fn extract_video_source(html: &str, page_url: &str) -> (r: Result<String, String>)
    ensures
        match page_video_source(html@, page_url@) {
            Ok(u) => r matches Ok(s) && s@ == u,
            Err(e) => r matches Err(s) && s@ == e,
        },
{
    if let Some(url) = extract_from_video_tag(html, page_url) {
        return Ok(url);
    }
    if let Some(url) = extract_from_iframe(html, page_url) {
        return Ok(url);
    }
    if let Some(url) = extract_from_js_vars(html, page_url) {
        return Ok(url);
    }
    if let Some(url) = extract_media_urls(html, page_url) {
        return Ok(url);
    }
    Err(String::from_str("未能从页面中提取到视频源"))
}

/// What resolving the web page `input` gives once its HTML `html` has been
/// fetched: the video address found, to be played with the page as `Referer`.
pub open spec fn page_tier(html: Seq<char>, input: Seq<char>) -> Result<TierView, Seq<char>> {
    match page_video_source(html, trim(input)) {
        Ok(u) => Ok(
            TierView::ReadyToPlay { stream_url: u, headers: seq![("Referer"@, trim(input))] },
        ),
        Err(e) => Err(e),
    }
}

/// The tier for the web page `input`, given the HTML fetched from it.
pub fn webpage_tier(html: &str, input: &str) -> (r: Result<LinkTier, String>)
    ensures
        match page_tier(html@, input@) {
            Ok(t) => r matches Ok(tier) && tier@ == t,
            Err(e) => r matches Err(s) && s@ == e,
        },
{
    let page_url = trim_str(input);
    match extract_video_source(html, page_url) {
        Ok(video_url) => {
            let mut headers: Vec<(String, String)> = Vec::new();
            headers.push((String::from_str("Referer"), String::from_str(page_url)));
            assert(headers.deep_view() =~= seq![("Referer"@, page_url@)]);
            Ok(LinkTier::ReadyToPlay { stream_url: video_url, headers })
        },
        Err(e) => Err(e),
    }
}


/// What fetching a web page gave: its HTML, or the failure of one of the steps
/// (building the HTTP client, sending the request, a status other than
/// success, reading the body), with the text of the error or the status.
pub enum PageFetch {
    ClientFailed(String),
    SendFailed(String),
    BadStatus(String),
    ReadFailed(String),
    Fetched(String),
}

/// What resolving the web page `input` answers, given what fetching it gave.
pub open spec fn fetched_page_tier(fetch: PageFetch, input: Seq<char>) -> Result<TierView, Seq<char>> {
    match fetch {
        PageFetch::ClientFailed(e) => Err("创建 HTTP 客户端失败: "@ + e@),
        PageFetch::SendFailed(e) => Err("请求页面失败: "@ + e@),
        PageFetch::BadStatus(status) => Err("页面请求失败: HTTP "@ + status@),
        PageFetch::ReadFailed(e) => Err("读取页面内容失败: "@ + e@),
        PageFetch::Fetched(html) => page_tier(html@, input),
    }
}

/// The tier for the web page `input`, given what fetching it gave.
pub fn fetched_tier(fetch: PageFetch, input: &str) -> (r: Result<LinkTier, String>)
    ensures
        match fetched_page_tier(fetch, input@) {
            Ok(t) => r matches Ok(tier) && tier@ == t,
            Err(e) => r matches Err(s) && s@ == e,
        },
{
    match fetch {
        PageFetch::ClientFailed(e) => Err(String::from_str("创建 HTTP 客户端失败: ").concat(e.as_str())),
        PageFetch::SendFailed(e) => Err(String::from_str("请求页面失败: ").concat(e.as_str())),
        PageFetch::BadStatus(status) => Err(
            String::from_str("页面请求失败: HTTP ").concat(status.as_str()),
        ),
        PageFetch::ReadFailed(e) => Err(String::from_str("读取页面内容失败: ").concat(e.as_str())),
        PageFetch::Fetched(html) => webpage_tier(html.as_str(), input),
    }
}

} // verus!
