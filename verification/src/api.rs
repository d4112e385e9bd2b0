//! The decisions of the HTTP API: what each request is answered, which file
//! range is streamed, and who may call.
use vstd::prelude::*;

use crate::deps::{extension_of, lowercase, path_extension, to_lowercase};
use crate::engine::{stream_path, FileEntry};
use crate::layer::{LinkTier, TierView};
use crate::text::{
    all_digits, char_pred, chars_of, decimal, decimal_string, decimal_value, has_char, has_char_exec, is_digit,
    lemma_decimal_reads_back, lemma_parse_decimal, lemma_split_join, lemma_split_no_separator,
    lemma_split_nonempty, occurs_at_exec, parse_unsigned, parse_usize_range, split_on,
    split_ranges, starts_with, str_starts_with, strip_end, strip_start, sub_chars, trim, trim_char,
    trim_char_bounds, trim_str,
};

verus! {

// ---------------------------------------------------------------------------
// Torrent ids in stream addresses
// ---------------------------------------------------------------------------

/// The id that follows the first `torrents` piece that is followed by a
/// number, among the pieces of `parts` from position `k` on.
pub open spec fn torrent_id_after(parts: Seq<Seq<char>>, k: int) -> Option<nat>
    decreases parts.len() - k,
{
    if k < 0 || k + 1 >= parts.len() {
        None
    } else if parts[k] == "torrents"@ && parse_unsigned(parts[k + 1], usize::MAX as nat) is Some {
        parse_unsigned(parts[k + 1], usize::MAX as nat)
    } else {
        torrent_id_after(parts, k + 1)
    }
}

/// The torrent id written in a stream address: the address without its
/// surrounding `/`s is split at `/`, and the first piece `torrents` that is
/// followed by a number gives that number.
pub open spec fn stream_url_torrent_id(url: Seq<char>) -> Option<nat> {
    torrent_id_after(split_on(trim_char(url, '/'), '/'), 0)
}

/// Reads the torrent id out of a stream address such as `/stream/torrents/7/stream/0`.
pub fn torrent_id_from_stream_url(stream_url: &str) -> (r: Option<usize>)
    ensures
        match stream_url_torrent_id(stream_url@) {
            Some(id) => r == Some(id as usize),
            None => r is None,
        },
{
    let all = chars_of(stream_url);
    let (from, to) = trim_char_bounds(&all, '/');
    let v = sub_chars(&all, from, to);
    let parts = split_ranges(&v, '/');
    let ghost pieces = split_on(v@, '/');
    let torrents = chars_of("torrents");
    proof {
        lemma_split_nonempty(v@, '/');
    }
    let np = parts.len();
    let mut k: usize = 0;
    while k < np - 1
        invariant
            np == parts@.len(),
            np >= 1,
            parts@.len() == pieces.len(),
            pieces == split_on(trim_char(stream_url@, '/'), '/'),
            torrents@ == "torrents"@,
            forall|j: int| #![trigger parts@[j]] 0 <= j < parts@.len() ==> parts@[j].0 <= parts@[j].1 <= v@.len(),
            forall|j: int|
                0 <= j < parts@.len() ==> v@.subrange(parts@[j].0 as int, parts@[j].1 as int)
                    == #[trigger] pieces[j],
            torrent_id_after(pieces, 0) == torrent_id_after(pieces, k as int),
        decreases parts@.len() - k,
    {
        let (s0, e0) = parts[k];
        let (s1, e1) = parts[k + 1];
        assert(v@.subrange(s0 as int, e0 as int) == pieces[k as int]);
        assert(v@.subrange(s1 as int, e1 as int) == pieces[k + 1]);
        let first = sub_chars(&v, s0, e0);
        let is_torrents = first.len() == torrents.len() && occurs_at_exec(&first, &torrents, 0);
        proof {
            if first@.len() == torrents@.len() {
                assert(first@.subrange(0, torrents@.len() as int) =~= first@);
            }
        }
        if is_torrents {
            let id = parse_usize_range(&v, s1, e1);
            if id.is_some() {
                return id;
            }
        }
        k += 1;
    }
    None
}

/// A stream address that the engine builds names its torrent: it is a torrent
/// stream, and reading the id back out of the address of any file of torrent
/// `t` gives `t`. So a magnet link that resolves to torrent `t` is answered
/// with the files of `t` ([`plan_resolve`]).
pub proof fn lemma_stream_url_names_torrent(torrent_id: nat, file_index: nat)
    requires
        torrent_id <= usize::MAX,
    ensures
        is_torrent_stream(stream_path(torrent_id, file_index)),
        stream_url_torrent_id(stream_path(torrent_id, file_index)) == Some(torrent_id),
{
    reveal_strlit("/stream/torrents/");
    reveal_strlit("/stream/");
    reveal_strlit("torrents");
    let d = decimal(torrent_id);
    let e = decimal(file_index);
    lemma_decimal_reads_back(torrent_id);
    lemma_decimal_reads_back(file_index);
    lemma_parse_decimal(torrent_id, usize::MAX as nat);
    let url = stream_path(torrent_id, file_index);
    assert(url.subrange(0, 17) =~= "/stream/torrents/"@);
    let st = seq!['s', 't', 'r', 'e', 'a', 'm'];
    let tor = seq!['t', 'o', 'r', 'r', 'e', 'n', 't', 's'];
    let slash = seq!['/'];
    let inner = st + slash + tor + slash + d + slash + st + slash + e;
    assert(url =~= slash + inner);
    // the leading `/` goes, nothing else does
    let u1 = url.subrange(1, url.len() as int);
    assert(u1 =~= inner);
    assert(url[0] == '/');
    assert(u1[0] == 's');
    assert(strip_start(u1, char_pred('/')) == u1);
    assert(strip_start(url, char_pred('/')) == u1);
    assert(u1.last() == e.last());
    assert(strip_end(u1, char_pred('/')) == u1);
    assert(trim_char(url, '/') == inner);
    // splitting at `/`
    assert(!has_char(st, '/')) by {
        assert(forall|i: int| 0 <= i < st.len() ==> st[i] != '/');
    }
    assert(!has_char(tor, '/')) by {
        assert(forall|i: int| 0 <= i < tor.len() ==> tor[i] != '/');
    }
    assert(!has_char(d, '/')) by {
        assert(forall|i: int| 0 <= i < d.len() ==> is_digit(#[trigger] d[i]));
    }
    assert(!has_char(e, '/')) by {
        assert(forall|i: int| 0 <= i < e.len() ==> is_digit(#[trigger] e[i]));
    }
    lemma_split_no_separator(st, '/');
    lemma_split_no_separator(tor, '/');
    lemma_split_no_separator(d, '/');
    lemma_split_no_separator(e, '/');
    let x1 = st;
    let x2 = x1 + slash + tor;
    let x3 = x2 + slash + d;
    let x4 = x3 + slash + st;
    let x5 = x4 + slash + e;
    lemma_split_join(x1, tor, '/');
    lemma_split_join(x2, d, '/');
    lemma_split_join(x3, st, '/');
    lemma_split_join(x4, e, '/');
    assert(x5 =~= inner);
    let parts = split_on(inner, '/');
    assert(parts =~= seq![st, tor, d, st, e]);
    assert(tor =~= "torrents"@);
    assert(st != "torrents"@) by {
        assert(st.len() != tor.len());
    }
    assert(torrent_id_after(parts, 1) == Some(torrent_id));
    assert(torrent_id_after(parts, 0) == torrent_id_after(parts, 1));
}

// ---------------------------------------------------------------------------
// HTTP Range headers
// ---------------------------------------------------------------------------

/// A single-range `bytes=` request whose start is left out, such as `bytes=-500`:
/// the last that many bytes.
pub open spec fn is_suffix_request(s: Seq<char>) -> bool {
    let spec = s.subrange(6, s.len() as int);
    let parts = split_on(spec, '-');
    &&& starts_with(s, "bytes="@)
    &&& !has_char(spec, ',')
    &&& parts.len() == 2
    &&& parts[0].len() == 0
    &&& parts[1].len() > 0
    &&& parse_unsigned(parts[1], usize::MAX as nat) matches Some(n) && n != 0
}

/// The byte range `(start, end)`, both ends included, that a `Range` header
/// asks of a body of `total` bytes, or the reason it is refused.
pub open spec fn requested_range(s: Seq<char>, total: nat) -> Result<(nat, nat), Seq<char>> {
    let spec = s.subrange(6, s.len() as int);
    let parts = split_on(spec, '-');
    if !starts_with(s, "bytes="@) {
        Err("invalid range unit, expected 'bytes'"@)
    } else if has_char(spec, ',') {
        Err("multi-range not supported"@)
    } else if parts.len() != 2 {
        Err("invalid range format"@)
    } else if parts[0].len() == 0 && parts[1].len() == 0 {
        Err("invalid range format"@)
    } else if parts[0].len() == 0 {
        match parse_unsigned(parts[1], usize::MAX as nat) {
            None => Err("invalid suffix number"@),
            Some(suffix) => if suffix == 0 {
                Err("suffix range must be > 0"@)
            } else if suffix >= total {
                Ok((0, (total - 1) as nat))
            } else {
                Ok(((total - suffix) as nat, (total - 1) as nat))
            },
        }
    } else if parts[1].len() == 0 {
        match parse_unsigned(parts[0], usize::MAX as nat) {
            None => Err("invalid start number"@),
            Some(start) => if start >= total {
                Err("range start >= file length"@)
            } else {
                Ok((start, (total - 1) as nat))
            },
        }
    } else {
        match parse_unsigned(parts[0], usize::MAX as nat) {
            None => Err("invalid start number"@),
            Some(start) => match parse_unsigned(parts[1], usize::MAX as nat) {
                None => Err("invalid end number"@),
                Some(end) => if start > end {
                    Err("range start > end"@)
                } else if start >= total {
                    Err("range start >= file length"@)
                } else if end < total - 1 {
                    Ok((start, end))
                } else {
                    Ok((start, (total - 1) as nat))
                },
            },
        }
    }
}

proof fn lemma_digits_parse(a: Seq<char>, max: nat)
    requires
        a.len() > 0,
        all_digits(a),
        decimal_value(a) <= max,
    ensures
        parse_unsigned(a, max) == Some(decimal_value(a)),
{
    assert(is_digit(a[0]));
}

proof fn lemma_digits_have_no(a: Seq<char>, c: char)
    requires
        all_digits(a),
        !is_digit(c),
    ensures
        !has_char(a, c),
{
    assert forall|i: int| 0 <= i < a.len() implies a[i] != c by {
        assert(is_digit(a[i]));
    }
}

/// The pieces of the header `bytes=<a>-<b>` for digit strings `a` and `b`.
proof fn lemma_range_header_parts(a: Seq<char>, b: Seq<char>)
    requires
        all_digits(a),
        all_digits(b),
    ensures
        starts_with("bytes="@ + a + "-"@ + b, "bytes="@),
        ("bytes="@ + a + "-"@ + b).subrange(6, ("bytes="@ + a + "-"@ + b).len() as int) == a + "-"@
            + b,
        !has_char(a + "-"@ + b, ','),
        split_on(a + "-"@ + b, '-') == seq![a, b],
{
    reveal_strlit("bytes=");
    reveal_strlit("-");
    let s = "bytes="@ + a + "-"@ + b;
    let spec = a + "-"@ + b;
    assert(s.subrange(0, 6) =~= "bytes="@);
    assert(s.subrange(6, s.len() as int) =~= spec);
    assert forall|i: int| 0 <= i < spec.len() implies spec[i] != ',' by {
        if i < a.len() {
            assert(is_digit(a[i]));
        } else if i > a.len() {
            assert(spec[i] == b[i - a.len() - 1]);
            assert(is_digit(b[i - a.len() - 1]));
        }
    }
    lemma_digits_have_no(a, '-');
    lemma_digits_have_no(b, '-');
    lemma_split_no_separator(a, '-');
    lemma_split_no_separator(b, '-');
    assert(spec =~= a + seq!['-'] + b);
    lemma_split_join(a, b, '-');
    assert(split_on(a, '-') + split_on(b, '-') =~= seq![a, b]);
}

/// An open-ended range `bytes=N-` with N inside the body asks for every byte
/// from N to the body's last byte, whatever the body's size.
pub proof fn lemma_open_range_runs_to_end(start: Seq<char>, total: nat)
    requires
        start.len() > 0,
        all_digits(start),
        decimal_value(start) < total,
        total <= usize::MAX,
    ensures
        requested_range("bytes="@ + start + "-"@, total) == Ok::<(nat, nat), Seq<char>>(
            (decimal_value(start), (total - 1) as nat),
        ),
{
    let e = Seq::<char>::empty();
    assert(all_digits(e));
    lemma_range_header_parts(start, e);
    assert("bytes="@ + start + "-"@ + e =~= "bytes="@ + start + "-"@);
    assert(start + "-"@ + e =~= start + "-"@);
    lemma_digits_parse(start, usize::MAX as nat);
}

/// A range `bytes=N-M` with N <= M and N inside the body asks for bytes N to M,
/// cut at the body's last byte.
pub proof fn lemma_closed_range(start: Seq<char>, end: Seq<char>, total: nat)
    requires
        start.len() > 0,
        end.len() > 0,
        all_digits(start),
        all_digits(end),
        decimal_value(start) <= decimal_value(end) <= usize::MAX,
        decimal_value(start) < total,
    ensures
        requested_range("bytes="@ + start + "-"@ + end, total) == Ok::<(nat, nat), Seq<char>>(
            (
                decimal_value(start),
                if decimal_value(end) < total - 1 {
                    decimal_value(end)
                } else {
                    (total - 1) as nat
                },
            ),
        ),
{
    lemma_range_header_parts(start, end);
    lemma_digits_parse(start, usize::MAX as nat);
    lemma_digits_parse(end, usize::MAX as nat);
}

/// A suffix range `bytes=-K` with K > 0 on a non-empty body asks for its last K
/// bytes, or for the whole body when it is shorter: the range ends at the last
/// byte and holds min(K, total) bytes.
pub proof fn lemma_suffix_range(count: Seq<char>, total: nat)
    requires
        count.len() > 0,
        all_digits(count),
        0 < decimal_value(count) <= usize::MAX,
        total > 0,
    ensures
        requested_range("bytes="@ + Seq::<char>::empty() + "-"@ + count, total) matches Ok((s, e))
            && e == total - 1 && e - s + 1 == if decimal_value(count) < total {
            decimal_value(count)
        } else {
            total
        },
{
    let e = Seq::<char>::empty();
    assert(all_digits(e));
    lemma_range_header_parts(e, count);
    lemma_digits_parse(count, usize::MAX as nat);
}

/// Reads a `Range` header against a body of `total_len` bytes. `Ok(Some((start,
/// end)))` names the bytes to send, both ends included; `Err` gives the reason
/// the range cannot be served. A suffix request needs a non-empty body.
pub fn parse_range_header(range_str: &str, total_len: usize) -> (r: Result<
    Option<(usize, usize)>,
    &'static str,
>)
    requires
        total_len > 0 || !is_suffix_request(range_str@),
    ensures
        match requested_range(range_str@, total_len as nat) {
            Ok((start, end)) => r == Ok::<Option<(usize, usize)>, &'static str>(
                Some((start as usize, end as usize)),
            ),
            Err(msg) => r matches Err(e) && e@ == msg,
        },
        r matches Ok(Some((start, end))) ==> start <= end < total_len,
{
    let v = chars_of(range_str);
    if !str_starts_with(range_str, "bytes=") {
        return Err("invalid range unit, expected 'bytes'");
    }
    proof {
        reveal_strlit("bytes=");
    }
    let spec = sub_chars(&v, 6, v.len());
    if has_char_exec(&spec, ',') {
        return Err("multi-range not supported");
    }
    let parts = split_ranges(&spec, '-');
    if parts.len() != 2 {
        return Err("invalid range format");
    }
    let (a0, a1) = parts[0];
    let (b0, b1) = parts[1];
    let ghost pieces = split_on(spec@, '-');
    assert(spec@.subrange(a0 as int, a1 as int) == pieces[0]);
    assert(spec@.subrange(b0 as int, b1 as int) == pieces[1]);
    let start_empty = a0 == a1;
    let end_empty = b0 == b1;
    if start_empty && end_empty {
        return Err("invalid range format");
    }
    if start_empty {
        let suffix = match parse_usize_range(&spec, b0, b1) {
            Some(n) => n,
            None => {
                return Err("invalid suffix number");
            },
        };
        if suffix == 0 {
            return Err("suffix range must be > 0");
        }
        if suffix >= total_len {
            return Ok(Some((0, total_len - 1)));
        }
        let start = total_len - suffix;
        return Ok(Some((start, total_len - 1)));
    }
    if end_empty {
        let start = match parse_usize_range(&spec, a0, a1) {
            Some(n) => n,
            None => {
                return Err("invalid start number");
            },
        };
        if start >= total_len {
            return Err("range start >= file length");
        }
        return Ok(Some((start, total_len - 1)));
    }
    let start = match parse_usize_range(&spec, a0, a1) {
        Some(n) => n,
        None => {
            return Err("invalid start number");
        },
    };
    let end = match parse_usize_range(&spec, b0, b1) {
        Some(n) => n,
        None => {
            return Err("invalid end number");
        },
    };
    if start > end {
        return Err("range start > end");
    }
    if start >= total_len {
        return Err("range start >= file length");
    }
    let effective_end = if end < total_len - 1 {
        end
    } else {
        total_len - 1
    };
    Ok(Some((start, effective_end)))
}

// ---------------------------------------------------------------------------
// Requests, answers and errors
// ---------------------------------------------------------------------------

/// `POST /api/resolve`: the link to resolve.
pub struct ResolveRequest {
    pub url: String,
}

/// The answer to a resolve request: the address to play first, the files that
/// can be played, and the kind of source (`magnet` or `hls`).
pub struct ResolveResponse {
    pub stream_url: String,
    pub files: Vec<FileEntry>,
    pub source_type: String,
}

/// The body of an error answer.
pub struct ErrorResponse {
    pub error: String,
}

/// `POST /api/history`: a played file to record.
pub struct SaveRecordRequest {
    pub magnet: String,
    pub file_path: String,
    pub stream_url: String,
    pub is_suspected_ad: bool,
}

/// `POST /api/cloud-exports`: a resource to export to a cloud drive.
pub struct CreateCloudExportRequest {
    pub provider: Option<String>,
    pub resource_id: String,
    pub source_type: String,
    pub source_locator: String,
}

/// The answer to a new cloud export: its id and status.
pub struct CreateCloudExportResponse {
    pub id: i64,
    pub status: String,
}

/// `POST /api/cloud-exports/status`: a new status for an export.
pub struct UpdateCloudExportStatusRequest {
    pub id: i64,
    pub status: String,
    pub error_message: Option<String>,
}

/// The HTTP statuses the API answers errors with.
#[derive(Debug, Clone, Copy, PartialEq, Eq, Structural)]
pub enum HttpStatus {
    BadRequest,
    Unauthorized,
    NotFound,
    InternalServerError,
}

/// An error answer: its status and message.
pub struct ApiError {
    pub status: HttpStatus,
    pub error: ErrorResponse,
}

/// The error answer is `status` with the message `message`.
pub open spec fn is_api_error(e: ApiError, status: HttpStatus, message: Seq<char>) -> bool {
    e.status == status && e.error.error@ == message
}

fn api_error(status: HttpStatus, message: &str) -> (e: ApiError)
    ensures
        is_api_error(e, status, message@),
{
    ApiError { status, error: ErrorResponse { error: String::from_str(message) } }
}

/// How many history entries `GET /api/history` lists.
pub const HISTORY_LIMIT: i32 = 50;

/// How many exports `GET /api/cloud-exports` lists.
pub const CLOUD_EXPORT_LIST_LIMIT: i32 = 100;

// ---------------------------------------------------------------------------
// POST /api/resolve
// ---------------------------------------------------------------------------

/// The link to resolve: the request's address without surrounding whitespace;
/// an empty one is refused.
pub fn requested_link(req: &ResolveRequest) -> (r: Result<String, ApiError>)
    ensures
        trim(req.url@).len() == 0 ==> (r matches Err(e) && is_api_error(
            e,
            HttpStatus::BadRequest,
            "URL 不能为空"@,
        )),
        trim(req.url@).len() > 0 ==> (r matches Ok(u) && u@ == trim(req.url@)),
{
    let url = trim_str(req.url.as_str());
    if url.unicode_len() == 0 {
        return Err(api_error(HttpStatus::BadRequest, "URL 不能为空"));
    }
    Ok(String::from_str(url))
}

/// What to do with the tier the resolvers found.
pub enum ResolvePlan {
    /// A torrent: its files have to be listed, then [`magnet_response`] answers.
    ListFiles(usize),
    /// The answer is ready.
    Respond(ResolveResponse),
    /// The request fails.
    Fail(ApiError),
}

/// The answer for a stream that plays as it is (an HLS stream): one entry.
pub open spec fn is_single_stream_response(r: ResolveResponse, stream_url: Seq<char>) -> bool {
    &&& r.stream_url@ == stream_url
    &&& r.source_type@ == "hls"@
    &&& r.files@.len() == 1
    &&& r.files@[0].index == 0
    &&& r.files@[0].path@ == "HLS 流"@
    &&& r.files@[0].size_bytes == 0
    &&& r.files@[0].stream_url@ == stream_url
    &&& !r.files@[0].is_suspected_ad
}

/// The engine's stream addresses start with this.
pub open spec fn is_torrent_stream(stream_url: Seq<char>) -> bool {
    starts_with(stream_url, "/stream/torrents/"@)
}

/// Decides the answer to a resolve request from the tier found: a torrent
/// stream needs its file list; any other playable stream is answered at once;
/// the other tiers are errors.
pub fn plan_resolve(tier: LinkTier) -> (r: ResolvePlan)
    ensures
        match tier@ {
            TierView::ReadyToPlay { stream_url, .. } => if is_torrent_stream(stream_url) {
                match stream_url_torrent_id(stream_url) {
                    Some(id) => r == ResolvePlan::ListFiles(id as usize),
                    None => r matches ResolvePlan::Fail(e) && is_api_error(
                        e,
                        HttpStatus::InternalServerError,
                        "无法从 stream_url 提取 torrent_id"@,
                    ),
                }
            } else {
                r matches ResolvePlan::Respond(resp) && is_single_stream_response(resp, stream_url)
            },
            TierView::NeedsCache { .. } => r matches ResolvePlan::Fail(e) && is_api_error(
                e,
                HttpStatus::BadRequest,
                "需要缓存后播放，暂不支持"@,
            ),
            TierView::DownloadOnly { .. } => r matches ResolvePlan::Fail(e) && is_api_error(
                e,
                HttpStatus::BadRequest,
                "仅支持下载，暂不支持"@,
            ),
            TierView::NotFound { reason } => r matches ResolvePlan::Fail(e) && is_api_error(
                e,
                HttpStatus::NotFound,
                reason,
            ),
        },
{
    match tier {
        LinkTier::ReadyToPlay { stream_url, headers: _ } => {
            if str_starts_with(stream_url.as_str(), "/stream/torrents/") {
                match torrent_id_from_stream_url(stream_url.as_str()) {
                    Some(id) => ResolvePlan::ListFiles(id),
                    None => ResolvePlan::Fail(
                        api_error(
                            HttpStatus::InternalServerError,
                            "无法从 stream_url 提取 torrent_id",
                        ),
                    ),
                }
            } else {
                let mut files: Vec<FileEntry> = Vec::new();
                files.push(
                    FileEntry {
                        index: 0,
                        path: String::from_str("HLS 流"),
                        size_bytes: 0,
                        stream_url: stream_url.clone(),
                        is_suspected_ad: false,
                    },
                );
                ResolvePlan::Respond(
                    ResolveResponse { stream_url, files, source_type: String::from_str("hls") },
                )
            }
        },
        LinkTier::NeedsCache { .. } => ResolvePlan::Fail(
            api_error(HttpStatus::BadRequest, "需要缓存后播放，暂不支持"),
        ),
        LinkTier::DownloadOnly { .. } => ResolvePlan::Fail(
            api_error(HttpStatus::BadRequest, "仅支持下载，暂不支持"),
        ),
        LinkTier::NotFound { reason } => ResolvePlan::Fail(
            ApiError { status: HttpStatus::NotFound, error: ErrorResponse { error: reason } },
        ),
    }
}

/// The address under which this API streams file `file_index` of torrent
/// `torrent_id`: `/api/local-stream/{torrent_id}/{file_index}`.
pub open spec fn local_stream_path(torrent_id: nat, file_index: nat) -> Seq<char> {
    "/api/local-stream/"@ + decimal(torrent_id) + "/"@ + decimal(file_index)
}

/// The local stream address of file `file_index` of torrent `torrent_id`.
pub fn local_stream_url(torrent_id: usize, file_index: usize) -> (r: String)
    ensures
        r@ == local_stream_path(torrent_id as nat, file_index as nat),
{
    String::from_str("/api/local-stream/").concat(decimal_string(torrent_id).as_str()).concat(
        "/",
    ).concat(decimal_string(file_index).as_str())
}

/// Among the first entries of `files` (all of them), the position of the
/// largest file that is not a suspected ad; the last one among equals.
pub open spec fn largest_clean_file(files: Seq<FileEntry>) -> Option<int>
    decreases files.len(),
{
    if files.len() == 0 {
        None
    } else {
        let best = largest_clean_file(files.drop_last());
        let last = files.last();
        if last.is_suspected_ad {
            best
        } else {
            match best {
                None => Some(files.len() - 1),
                Some(j) => if last.size_bytes >= files[j].size_bytes {
                    Some(files.len() - 1)
                } else {
                    Some(j)
                },
            }
        }
    }
}

/// The file played by default: the largest file that is not a suspected ad,
/// by its index; 0 when every file is a suspected ad.
pub open spec fn default_index(files: Seq<FileEntry>) -> usize {
    match largest_clean_file(files) {
        Some(j) => files[j].index,
        None => 0,
    }
}

/// Picks the file to play by default.
pub fn default_file_index(files: &Vec<FileEntry>) -> (r: usize)
    ensures
        r == default_index(files@),
{
    let mut best: Option<usize> = None;
    let mut k: usize = 0;
    assert(files@.take(0) =~= Seq::<FileEntry>::empty());
    while k < files.len()
        invariant
            k <= files@.len(),
            best == match largest_clean_file(files@.take(k as int)) {
                Some(j) => Some(j as usize),
                None => None::<usize>,
            },
            best matches Some(j) ==> j < k,
        decreases files@.len() - k,
    {
        let ghost pre = files@.take(k as int);
        proof {
            lemma_default_file_is_largest_clean(pre);
        }
        assert(files@.take(k + 1).drop_last() =~= pre);
        assert(files@.take(k + 1).last() == files@[k as int]);
        if !files[k].is_suspected_ad {
            match best {
                None => {
                    best = Some(k);
                },
                Some(j) => {
                    assert(files@.take(k + 1)[j as int] == files@[j as int]);
                    if files[k].size_bytes >= files[j].size_bytes {
                        best = Some(k);
                    }
                },
            }
        }
        k += 1;
    }
    assert(files@.take(k as int) =~= files@);
    proof {
        lemma_default_file_is_largest_clean(files@);
    }
    match best {
        Some(j) => files[j].index,
        None => 0,
    }
}

/// The file played by default is not a suspected ad and is at least as large
/// as every file that is not one; when there is none, the first index is used.
pub proof fn lemma_default_file_is_largest_clean(files: Seq<FileEntry>)
    ensures
        largest_clean_file(files) matches Some(j) ==> {
            &&& 0 <= j < files.len()
            &&& !files[j].is_suspected_ad
            &&& forall|i: int|
                0 <= i < files.len() && !(#[trigger] files[i]).is_suspected_ad ==> files[i].size_bytes
                    <= files[j].size_bytes
        },
        largest_clean_file(files) is None ==> forall|i: int|
            0 <= i < files.len() ==> (#[trigger] files[i]).is_suspected_ad,
    decreases files.len(),
{
    if files.len() > 0 {
        let init = files.drop_last();
        lemma_default_file_is_largest_clean(init);
        let n = files.len() - 1;
        let last = files.last();
        assert(last == files[n]);
        assert forall|i: int| 0 <= i < init.len() implies #[trigger] init[i] == files[i] by {}
        match largest_clean_file(init) {
            None => {
                assert forall|i: int| 0 <= i < n implies (#[trigger] files[i]).is_suspected_ad by {
                    assert(init[i] == files[i]);
                }
            },
            Some(j) => {
                assert(init[j] == files[j]);
                assert forall|i: int|
                    0 <= i < n && !(#[trigger] files[i]).is_suspected_ad implies files[i].size_bytes
                    <= files[j].size_bytes by {
                    assert(init[i] == files[i]);
                }
            },
        }
    }
}

/// A torrent's listing entry as this API shows it.
pub open spec fn is_local_entry(e: FileEntry, torrent_id: nat, from: FileEntry) -> bool {
    &&& e.index == from.index
    &&& e.path == from.path
    &&& e.size_bytes == from.size_bytes
    &&& e.is_suspected_ad == from.is_suspected_ad
    &&& e.stream_url@ == local_stream_path(torrent_id, from.index as nat)
}

/// The answer for torrent `torrent_id` once its files are listed: every file
/// is streamed through this API, and the default file is played first.
pub fn magnet_response(torrent_id: usize, files: Vec<FileEntry>) -> (r: ResolveResponse)
    ensures
        r.source_type@ == "magnet"@,
        r.stream_url@ == local_stream_path(torrent_id as nat, default_index(files@) as nat),
        r.files@.len() == files@.len(),
        forall|i: int|
            0 <= i < files@.len() ==> is_local_entry(#[trigger] r.files@[i], torrent_id as nat, files@[i]),
{
    let default = default_file_index(&files);
    let mut out: Vec<FileEntry> = Vec::new();
    let mut k: usize = 0;
    while k < files.len()
        invariant
            k <= files@.len(),
            out@.len() == k,
            forall|i: int|
                0 <= i < k ==> is_local_entry(#[trigger] out@[i], torrent_id as nat, files@[i]),
        decreases files@.len() - k,
    {
        let f = &files[k];
        out.push(
            FileEntry {
                index: f.index,
                path: f.path.clone(),
                size_bytes: f.size_bytes,
                stream_url: local_stream_url(torrent_id, f.index),
                is_suspected_ad: f.is_suspected_ad,
            },
        );
        k += 1;
    }
    ResolveResponse {
        stream_url: local_stream_url(torrent_id, default),
        files: out,
        source_type: String::from_str("magnet"),
    }
}

// ---------------------------------------------------------------------------
// GET /api/local-stream/{torrent_id}/{file_idx}
// ---------------------------------------------------------------------------

/// The media type for a lower-cased file extension.
pub open spec fn media_type(ext: Seq<char>) -> Seq<char> {
    if ext == "mp4"@ {
        "video/mp4"@
    } else if ext == "mkv"@ {
        "video/x-matroska"@
    } else if ext == "webm"@ {
        "video/webm"@
    } else if ext == "avi"@ {
        "video/x-msvideo"@
    } else if ext == "mov"@ {
        "video/quicktime"@
    } else {
        "application/octet-stream"@
    }
}

fn str_eq(a: &str, b: &str) -> (r: bool)
    ensures
        r == (a@ == b@),
{
    let av = chars_of(a);
    let bv = chars_of(b);
    if av.len() != bv.len() {
        return false;
    }
    let r = occurs_at_exec(&av, &bv, 0);
    assert(av@.subrange(0, bv@.len() as int) =~= av@);
    r
}

/// The media type for the lower-cased extension `ext`.
pub fn media_type_for_extension(ext: &str) -> (r: &'static str)
    ensures
        r@ == media_type(ext@),
{
    if str_eq(ext, "mp4") {
        "video/mp4"
    } else if str_eq(ext, "mkv") {
        "video/x-matroska"
    } else if str_eq(ext, "webm") {
        "video/webm"
    } else if str_eq(ext, "avi") {
        "video/x-msvideo"
    } else if str_eq(ext, "mov") {
        "video/quicktime"
    } else {
        "application/octet-stream"
    }
}

/// The media type of the file at `path`: that of its extension in lower case
/// (no extension counts as an empty one).
pub open spec fn path_media_type(path: Seq<char>) -> Seq<char> {
    match extension_of(path) {
        Some(e) => media_type(lowercase(e)),
        None => media_type(lowercase(Seq::<char>::empty())),
    }
}

/// The media type of the file at `path`.
pub fn content_type_for(path: &str) -> (r: &'static str)
    ensures
        r@ == path_media_type(path@),
{
    let ext = path_extension(path);
    let lower = match ext {
        Some(e) => to_lowercase(e.as_str()),
        None => to_lowercase(""),
    };
    proof {
        reveal_strlit("");
        assert(""@ =~= Seq::<char>::empty());
    }
    media_type_for_extension(lower.as_str())
}

/// How a stream request is answered.
pub enum StreamPlan {
    /// `206 Partial Content` with bytes `start..=end`.
    Partial { start: usize, end: usize, content_range: String },
    /// `200 OK` with the whole body.
    Full,
    /// `416 Range Not Satisfiable`.
    Unsatisfiable { content_range: String },
}

/// The `Content-Range` value for bytes `start..=end` of `total`.
pub open spec fn content_range_text(start: nat, end: nat, total: nat) -> Seq<char> {
    "bytes "@ + decimal(start) + "-"@ + decimal(end) + "/"@ + decimal(total)
}

/// The `Content-Range` value of a refused range for a body of `total` bytes.
pub open spec fn unsatisfied_range(total: nat) -> Seq<char> {
    "bytes */"@ + decimal(total)
}

/// Decides how to answer a stream request for a body of `total_len` bytes,
/// given its `Range` header if it has one. An empty body is an error.
pub fn stream_plan(range: Option<&str>, total_len: usize) -> (r: Result<StreamPlan, ApiError>)
    ensures
        total_len == 0 ==> (r matches Err(e) && is_api_error(
            e,
            HttpStatus::InternalServerError,
            "文件为空"@,
        )),
        total_len > 0 ==> match range {
            None => r matches Ok(StreamPlan::Full),
            Some(h) => match requested_range(h@, total_len as nat) {
                Ok((start, end)) => r matches Ok(StreamPlan::Partial { start: s, end: e, content_range })
                    && s == start && e == end && start <= end < total_len && content_range@
                    == content_range_text(start, end, total_len as nat),
                Err(_) => r matches Ok(StreamPlan::Unsatisfiable { content_range })
                    && content_range@ == unsatisfied_range(total_len as nat),
            },
        },
{
    if total_len == 0 {
        return Err(api_error(HttpStatus::InternalServerError, "文件为空"));
    }
    match range {
        None => Ok(StreamPlan::Full),
        Some(h) => match parse_range_header(h, total_len) {
            Ok(Some((start, end))) => {
                let content_range = String::from_str("bytes ").concat(
                    decimal_string(start).as_str(),
                ).concat("-").concat(decimal_string(end).as_str()).concat("/").concat(
                    decimal_string(total_len).as_str(),
                );
                Ok(StreamPlan::Partial { start, end, content_range })
            },
            Ok(None) => Ok(StreamPlan::Full),
            Err(_) => Ok(
                StreamPlan::Unsatisfiable {
                    content_range: String::from_str("bytes */").concat(
                        decimal_string(total_len).as_str(),
                    ),
                },
            ),
        },
    }
}

// ---------------------------------------------------------------------------
// Access control
// ---------------------------------------------------------------------------

/// Whether a request may use the API. Without a configured token every request
/// may; with one, the request must carry it, either as `Authorization: Bearer
/// <token>` or as `x-api-key: <token>`.
pub open spec fn authorized(
    expected: Option<Seq<char>>,
    authorization: Option<Seq<char>>,
    api_key: Option<Seq<char>>,
) -> bool {
    match expected {
        None => true,
        Some(token) => {
            ||| authorization matches Some(a) && starts_with(a, "Bearer "@) && a.subrange(
                7,
                a.len() as int,
            ) == token
            ||| api_key == Some(token)
        },
    }
}

/// Decides whether a request may use the API, from the configured token and
/// the request's `Authorization` and `x-api-key` headers.
pub fn is_authorized(expected: Option<&str>, authorization: Option<&str>, api_key: Option<&str>) -> (r:
    bool)
    ensures
        r == authorized(
            match expected {
                Some(t) => Some(t@),
                None => None,
            },
            match authorization {
                Some(a) => Some(a@),
                None => None,
            },
            match api_key {
                Some(k) => Some(k@),
                None => None,
            },
        ),
{
    let token = match expected {
        None => {
            return true;
        },
        Some(t) => t,
    };
    proof {
        reveal_strlit("Bearer ");
    }
    let bearer_ok = match authorization {
        Some(a) => {
            if str_starts_with(a, "Bearer ") {
                let n = a.unicode_len();
                str_eq(a.substring_char(7, n), token)
            } else {
                false
            }
        },
        None => false,
    };
    let api_key_ok = match api_key {
        Some(k) => str_eq(k, token),
        None => false,
    };
    bearer_ok || api_key_ok
}

// ---------------------------------------------------------------------------
// Cloud exports
// ---------------------------------------------------------------------------

/// A cloud export to record, checked and cleaned up.
pub struct NewExportTask {
    pub provider: String,
    pub resource_id: String,
    pub source_type: String,
    pub source_locator: String,
}

/// Checks a new export: resource id, source type and locator must not be
/// blank, and are kept without surrounding whitespace; the provider defaults to
/// `pikpak`.
pub fn validate_new_export(req: &CreateCloudExportRequest) -> (r: Result<NewExportTask, ApiError>)
    ensures
        (trim(req.resource_id@).len() == 0 || trim(req.source_locator@).len() == 0 || trim(
            req.source_type@,
        ).len() == 0) ==> (r matches Err(e) && is_api_error(
            e,
            HttpStatus::BadRequest,
            "resource_id/source_type/source_locator 不能为空"@,
        )),
        !(trim(req.resource_id@).len() == 0 || trim(req.source_locator@).len() == 0 || trim(
            req.source_type@,
        ).len() == 0) ==> (r matches Ok(t) && t.provider@ == match req.provider {
            Some(p) => p@,
            None => "pikpak"@,
        } && t.resource_id@ == trim(req.resource_id@) && t.source_type@ == trim(req.source_type@)
            && t.source_locator@ == trim(req.source_locator@)),
{
    let resource_id = trim_str(req.resource_id.as_str());
    let source_locator = trim_str(req.source_locator.as_str());
    let source_type = trim_str(req.source_type.as_str());
    if resource_id.unicode_len() == 0 || source_locator.unicode_len() == 0
        || source_type.unicode_len() == 0 {
        return Err(
            api_error(HttpStatus::BadRequest, "resource_id/source_type/source_locator 不能为空"),
        );
    }
    let provider = match &req.provider {
        Some(p) => p.clone(),
        None => String::from_str("pikpak"),
    };
    Ok(
        NewExportTask {
            provider,
            resource_id: String::from_str(resource_id),
            source_type: String::from_str(source_type),
            source_locator: String::from_str(source_locator),
        },
    )
}

/// The answer once an export is recorded: it is queued.
pub fn queued_export(id: i64) -> (r: CreateCloudExportResponse)
    ensures
        r.id == id,
        r.status@ == "queued"@,
{
    CreateCloudExportResponse { id, status: String::from_str("queued") }
}

/// A checked status change of an export.
pub struct StatusUpdate {
    pub id: i64,
    pub status: String,
    pub error_message: Option<String>,
}

/// Checks a status change: the id must be positive and the status not blank;
/// the status is kept without surrounding whitespace.
pub fn validate_status_update(req: &UpdateCloudExportStatusRequest) -> (r: Result<
    StatusUpdate,
    ApiError,
>)
    ensures
        (req.id <= 0 || trim(req.status@).len() == 0) ==> (r matches Err(e) && is_api_error(
            e,
            HttpStatus::BadRequest,
            "id/status 参数非法"@,
        )),
        !(req.id <= 0 || trim(req.status@).len() == 0) ==> (r matches Ok(u) && u.id == req.id
            && u.status@ == trim(req.status@) && u.error_message.deep_view()
            == req.error_message.deep_view()),
{
    let status = trim_str(req.status.as_str());
    if req.id <= 0 || status.unicode_len() == 0 {
        return Err(api_error(HttpStatus::BadRequest, "id/status 参数非法"));
    }
    let error_message = match &req.error_message {
        Some(m) => Some(m.clone()),
        None => None,
    };
    Ok(StatusUpdate { id: req.id, status: String::from_str(status), error_message })
}

} // verus!
