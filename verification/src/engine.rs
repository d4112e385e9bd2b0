//! What the torrent engine decides: the tracker list added to magnet links,
//! stream addresses, file listings, and the checks on local file locations.
//! The engine's own network work (the BitTorrent session and its HTTP API)
//! runs outside this crate and hands its answers to these functions.
use vstd::prelude::*;

use crate::ai_strategy::{analyze_file_path, path_analysis};
use crate::deps::{
    joined_url, path_has_prefix, path_starts_with, percent_encoded, url_encode, url_join,
};
use crate::text::{
    chars_of, decimal, decimal_string, has_substring, occurs_at, occurs_at_exec, split_on,
    split_ranges, starts_with, str_contains, str_starts_with, sub_chars,
};

verus! {

/// One file of a torrent, as listed to clients.
#[derive(Debug, Clone)]
pub struct FileEntry {
    pub index: usize,
    pub path: String,
    pub size_bytes: u64,
    pub stream_url: String,
    pub is_suspected_ad: bool,
}

/// The address under which the engine's HTTP server streams file `file_index`
/// of torrent `torrent_id`: `/stream/torrents/{torrent_id}/stream/{file_index}`.
pub open spec fn stream_path(torrent_id: nat, file_index: nat) -> Seq<char> {
    "/stream/torrents/"@ + decimal(torrent_id) + "/stream/"@ + decimal(file_index)
}

/// The stream address of file `file_index` of torrent `torrent_id`.
pub fn stream_url_for(torrent_id: usize, file_index: usize) -> (r: String)
    ensures
        r@ == stream_path(torrent_id as nat, file_index as nat),
{
    let r = String::from_str("/stream/torrents/");
    let r = r.concat(decimal_string(torrent_id).as_str());
    let r = r.concat("/stream/");
    let r = r.concat(decimal_string(file_index).as_str());
    r
}

// ---------------------------------------------------------------------------
// Magnet links
// ---------------------------------------------------------------------------

/// The public trackers added to every magnet link, in order.
pub open spec fn extra_trackers() -> Seq<Seq<char>> {
    seq![
        "udp://tracker.opentrackr.org:1337/announce"@,
        "udp://opentracker.i2p.rocks:6969/announce"@,
        "http://tracker.openbittorrent.com:80/announce"@,
        "udp://open.stealth.si:80/announce"@,
        "udp://tracker.torrent.eu.org:451/announce"@,
        "udp://explodie.org:6969/announce"@,
        "udp://exodus.desync.com:6969/announce"@,
        "udp://tracker.tiny-vps.com:6969/announce"@,
    ]
}

fn extra_tracker(i: usize) -> (t: &'static str)
    requires
        i < extra_trackers().len(),
    ensures
        t@ == extra_trackers()[i as int],
{
    if i == 0 {
        "udp://tracker.opentrackr.org:1337/announce"
    } else if i == 1 {
        "udp://opentracker.i2p.rocks:6969/announce"
    } else if i == 2 {
        "http://tracker.openbittorrent.com:80/announce"
    } else if i == 3 {
        "udp://open.stealth.si:80/announce"
    } else if i == 4 {
        "udp://tracker.torrent.eu.org:451/announce"
    } else if i == 5 {
        "udp://explodie.org:6969/announce"
    } else if i == 6 {
        "udp://exodus.desync.com:6969/announce"
    } else {
        "udp://tracker.tiny-vps.com:6969/announce"
    }
}

/// `magnet` with `&tr=<tracker>` (percent-encoded) appended for each tracker
/// that it does not name yet, either encoded or as it is.
pub open spec fn add_trackers(magnet: Seq<char>, trackers: Seq<Seq<char>>) -> Seq<char>
    decreases trackers.len(),
{
    if trackers.len() == 0 {
        magnet
    } else {
        let m = add_trackers(magnet, trackers.drop_last());
        let tr = trackers.last();
        let encoded = percent_encoded(tr);
        if !has_substring(m, encoded) && !has_substring(m, tr) {
            m + "&tr="@ + encoded
        } else {
            m
        }
    }
}

proof fn lemma_substring_extend(a: Seq<char>, b: Seq<char>, x: Seq<char>)
    requires
        has_substring(a, x),
    ensures
        has_substring(a + b, x),
{
    let i = choose|i: int| occurs_at(a, x, i);
    assert((a + b).subrange(i, i + x.len()) =~= a.subrange(i, i + x.len()));
    assert(occurs_at(a + b, x, i));
}

proof fn lemma_substring_suffix(a: Seq<char>, x: Seq<char>)
    ensures
        has_substring(a + x, x),
{
    assert((a + x).subrange(a.len() as int, (a.len() + x.len()) as int) =~= x);
    assert(occurs_at(a + x, x, a.len() as int));
}

/// Adding trackers keeps the link it started from as a prefix, and leaves each
/// tracker named in the result, either percent-encoded or as it is.
pub proof fn lemma_trackers_present(magnet: Seq<char>, trackers: Seq<Seq<char>>)
    ensures
        starts_with(add_trackers(magnet, trackers), magnet),
        forall|i: int|
            0 <= i < trackers.len() ==> has_substring(
                add_trackers(magnet, trackers),
                percent_encoded(#[trigger] trackers[i]),
            ) || has_substring(add_trackers(magnet, trackers), trackers[i]),
    decreases trackers.len(),
{
    if trackers.len() == 0 {
        assert(magnet.subrange(0, magnet.len() as int) =~= magnet);
    } else {
        let init = trackers.drop_last();
        lemma_trackers_present(magnet, init);
        let m = add_trackers(magnet, init);
        let tr = trackers.last();
        let encoded = percent_encoded(tr);
        if !has_substring(m, encoded) && !has_substring(m, tr) {
            let tail = "&tr="@ + encoded;
            assert(m + "&tr="@ + encoded =~= m + tail);
            assert((m + tail).subrange(0, magnet.len() as int) =~= m.subrange(0, magnet.len() as int));
            assert forall|i: int| 0 <= i < trackers.len() implies has_substring(
                add_trackers(magnet, trackers),
                percent_encoded(#[trigger] trackers[i]),
            ) || has_substring(add_trackers(magnet, trackers), trackers[i]) by {
                if i < init.len() {
                    assert(trackers[i] == init[i]);
                    if has_substring(m, percent_encoded(init[i])) {
                        lemma_substring_extend(m, tail, percent_encoded(init[i]));
                    } else {
                        lemma_substring_extend(m, tail, init[i]);
                    }
                } else {
                    lemma_substring_suffix(m + "&tr="@, encoded);
                }
            }
        } else {
            assert forall|i: int| 0 <= i < trackers.len() implies has_substring(
                add_trackers(magnet, trackers),
                percent_encoded(#[trigger] trackers[i]),
            ) || has_substring(add_trackers(magnet, trackers), trackers[i]) by {
                if i < init.len() {
                    assert(trackers[i] == init[i]);
                }
            }
        }
    }
}

proof fn lemma_add_trackers_noop(magnet: Seq<char>, trackers: Seq<Seq<char>>)
    requires
        forall|i: int|
            0 <= i < trackers.len() ==> has_substring(magnet, percent_encoded(#[trigger] trackers[i]))
                || has_substring(magnet, trackers[i]),
    ensures
        add_trackers(magnet, trackers) == magnet,
    decreases trackers.len(),
{
    if trackers.len() > 0 {
        let init = trackers.drop_last();
        assert forall|i: int| 0 <= i < init.len() implies has_substring(
            magnet,
            percent_encoded(#[trigger] init[i]),
        ) || has_substring(magnet, init[i]) by {
            assert(init[i] == trackers[i]);
        }
        lemma_add_trackers_noop(magnet, init);
        assert(trackers.last() == trackers[trackers.len() - 1]);
    }
}

/// Adding the trackers a second time changes nothing: once added, every tracker
/// is named in the link.
pub proof fn lemma_add_trackers_idempotent(magnet: Seq<char>, trackers: Seq<Seq<char>>)
    ensures
        add_trackers(add_trackers(magnet, trackers), trackers) == add_trackers(magnet, trackers),
{
    lemma_trackers_present(magnet, trackers);
    lemma_add_trackers_noop(add_trackers(magnet, trackers), trackers);
}

/// The magnet link given to the BitTorrent session: `magnet` with the public
/// trackers added. Every public tracker is named in the result, which starts
/// with `magnet`.
pub fn magnet_with_trackers(magnet: &str) -> (r: String)
    ensures
        r@ == add_trackers(magnet@, extra_trackers()),
        starts_with(r@, magnet@),
        forall|i: int|
            0 <= i < extra_trackers().len() ==> has_substring(
                r@,
                percent_encoded(#[trigger] extra_trackers()[i]),
            ) || has_substring(r@, extra_trackers()[i]),
{
    let mut magnet_url = String::from_str(magnet);
    let n: usize = 8;
    let mut i: usize = 0;
    assert(extra_trackers().take(0) =~= Seq::<Seq<char>>::empty());
    while i < n
        invariant
            n == extra_trackers().len(),
            i <= n,
            magnet_url@ == add_trackers(magnet@, extra_trackers().take(i as int)),
        decreases n - i,
    {
        let tr = extra_tracker(i);
        let encoded = url_encode(tr);
        let ghost ts = extra_trackers().take(i + 1);
        assert(ts.drop_last() =~= extra_trackers().take(i as int));
        assert(ts.last() == tr@);
        if !str_contains(magnet_url.as_str(), encoded.as_str()) && !str_contains(
            magnet_url.as_str(),
            tr,
        ) {
            magnet_url.append("&tr=");
            magnet_url.append(encoded.as_str());
        }
        i += 1;
    }
    assert(extra_trackers().take(n as int) =~= extra_trackers());
    proof {
        lemma_trackers_present(magnet@, extra_trackers());
    }
    magnet_url
}

/// What the BitTorrent session answered when a magnet link was added.
pub enum AddOutcome {
    /// A new torrent, with its id.
    Added(usize),
    /// A torrent the session already had, with its id.
    AlreadyManaged(usize),
    /// The session only listed the torrent's files.
    ListOnly,
    /// The session refused the link, with the text of its error.
    Failed(String),
    /// The session did not answer within the time allowed (sixty seconds).
    TimedOut,
}

/// The stream address of the first file and the torrent id for an added
/// magnet link; the other answers are errors.
pub fn parsed_magnet(outcome: AddOutcome) -> (r: Result<(String, usize), String>)
    ensures
        match outcome {
            AddOutcome::Added(id) | AddOutcome::AlreadyManaged(id) => r matches Ok((url, tid))
                && tid == id && url@ == stream_path(id as nat, 0),
            AddOutcome::ListOnly => r matches Err(e) && e@ == "意外 ListOnly 响应"@,
            AddOutcome::Failed(why) => r matches Err(e) && e@ == "添加磁链失败: "@ + why@,
            AddOutcome::TimedOut => r matches Err(e) && e@ == "磁链解析超时（60s）"@,
        },
{
    match outcome {
        AddOutcome::Added(id) => Ok((stream_url_for(id, 0), id)),
        AddOutcome::AlreadyManaged(id) => Ok((stream_url_for(id, 0), id)),
        AddOutcome::ListOnly => Err(String::from_str("意外 ListOnly 响应")),
        AddOutcome::Failed(why) => Err(String::from_str("添加磁链失败: ").concat(why.as_str())),
        AddOutcome::TimedOut => Err(String::from_str("磁链解析超时（60s）")),
    }
}

// ---------------------------------------------------------------------------
// Engine HTTP API addresses
// ---------------------------------------------------------------------------

/// The address of the engine's HTTP API on this machine: `http://127.0.0.1:{port}`.
pub fn stream_base_url_text(port: u16) -> (r: String)
    ensures
        r@ == "http://127.0.0.1:"@ + decimal(port as nat),
{
    String::from_str("http://127.0.0.1:").concat(decimal_string(port as usize).as_str())
}

/// The address of the torrent list under the engine's base address.
pub fn torrents_list_url(base: &str) -> (r: Option<String>)
    ensures
        r.deep_view() == joined_url(base@, "torrents"@),
{
    url_join(base, "torrents")
}

/// The address of one torrent's details: `torrents/{torrent_id}` under the base address.
pub fn torrent_detail_url(base: &str, torrent_id: usize) -> (r: Option<String>)
    ensures
        r.deep_view() == joined_url(base@, "torrents/"@ + decimal(torrent_id as nat)),
{
    let path = String::from_str("torrents/").concat(decimal_string(torrent_id).as_str());
    url_join(base, path.as_str())
}

// ---------------------------------------------------------------------------
// File listings
// ---------------------------------------------------------------------------

/// What the engine's API reports of one file of a torrent.
pub struct TorrentFileMeta {
    pub name: Option<String>,
    pub length: Option<u64>,
}

/// The listed path of a file: its name, or `?` when the API gave none.
pub open spec fn listed_path(meta: TorrentFileMeta) -> Seq<char> {
    match meta.name {
        Some(n) => n@,
        None => "?"@,
    }
}

/// The listing entry for file `i` of torrent `torrent_id`.
pub open spec fn is_listed_entry(e: FileEntry, torrent_id: nat, i: int, meta: TorrentFileMeta) -> bool {
    &&& e.index == i
    &&& e.path@ == listed_path(meta)
    &&& e.size_bytes == match meta.length {
        Some(l) => l,
        None => 0,
    }
    &&& e.stream_url@ == stream_path(torrent_id, i as nat)
    &&& e.is_suspected_ad == path_analysis(listed_path(meta)).0
}

/// The files of torrent `torrent_id`, in the order the engine listed them, each
/// with its stream address and the ad heuristic's verdict on its path.
pub fn file_entries(torrent_id: usize, files: &Vec<TorrentFileMeta>) -> (r: Vec<FileEntry>)
    ensures
        r@.len() == files@.len(),
        forall|i: int|
            0 <= i < r@.len() ==> is_listed_entry(#[trigger] r@[i], torrent_id as nat, i, files@[i]),
{
    let mut entries: Vec<FileEntry> = Vec::new();
    let mut idx: usize = 0;
    while idx < files.len()
        invariant
            idx <= files@.len(),
            entries@.len() == idx,
            forall|i: int|
                0 <= i < entries@.len() ==> is_listed_entry(
                    #[trigger] entries@[i],
                    torrent_id as nat,
                    i,
                    files@[i],
                ),
        decreases files@.len() - idx,
    {
        let f = &files[idx];
        let path = match &f.name {
            Some(n) => n.clone(),
            None => String::from_str("?"),
        };
        let size = match f.length {
            Some(l) => l,
            None => 0,
        };
        let stream_url = stream_url_for(torrent_id, idx);
        let is_suspected_ad = analyze_file_path(path.as_str()).0;
        entries.push(FileEntry { index: idx, path, size_bytes: size, stream_url, is_suspected_ad });
        idx += 1;
    }
    entries
}

/// The largest id among those present, or 0 when none is.
pub open spec fn max_present_id(ids: Seq<Option<u64>>) -> nat
    decreases ids.len(),
{
    if ids.len() == 0 {
        0
    } else {
        let m = max_present_id(ids.drop_last());
        match ids.last() {
            Some(id) => if id > m {
                id as nat
            } else {
                m
            },
            None => m,
        }
    }
}

/// The default torrent is the one with the largest id: its id is at least
/// every id in the list, and it is one of them (0 when the list holds none).
pub proof fn lemma_latest_is_largest(ids: Seq<Option<u64>>)
    ensures
        forall|i: int| 0 <= i < ids.len() && (#[trigger] ids[i]) is Some ==> ids[i]->0 <= max_present_id(ids),
        max_present_id(ids) == 0 || exists|i: int|
            0 <= i < ids.len() && #[trigger] ids[i] == Some(max_present_id(ids) as u64),
    decreases ids.len(),
{
    if ids.len() > 0 {
        let init = ids.drop_last();
        lemma_latest_is_largest(init);
        let n = ids.len() - 1;
        assert(ids.last() == ids[n]);
        assert forall|i: int| 0 <= i < ids.len() && (#[trigger] ids[i]) is Some implies ids[i]->0
            <= max_present_id(ids) by {
            if i < n {
                assert(init[i] == ids[i]);
            }
        }
        if max_present_id(ids) != 0 {
            if max_present_id(ids) == max_present_id(init) {
                let j = choose|j: int| 0 <= j < init.len() && #[trigger] init[j] == Some(
                    max_present_id(init) as u64,
                );
                assert(ids[j] == init[j]);
            } else {
                assert(ids[n] == Some(max_present_id(ids) as u64));
            }
        }
    }
}

/// The torrent whose files are listed by default: `None` when the engine has no
/// torrent, else the largest id (0 when no torrent reported one).
pub fn latest_torrent_id(ids: &Vec<Option<u64>>) -> (r: Option<usize>)
    ensures
        ids@.len() == 0 ==> r is None,
        ids@.len() > 0 ==> r == Some(max_present_id(ids@) as usize),
        forall|i: int|
            0 <= i < ids@.len() && (#[trigger] ids@[i]) is Some ==> ids@[i]->0 <= max_present_id(ids@),
        max_present_id(ids@) == 0 || exists|i: int|
            0 <= i < ids@.len() && #[trigger] ids@[i] == Some(max_present_id(ids@) as u64),
{
    proof {
        lemma_latest_is_largest(ids@);
    }
    if ids.len() == 0 {
        return None;
    }
    let mut best: u64 = 0;
    let mut k: usize = 0;
    assert(ids@.take(0) =~= Seq::<Option<u64>>::empty());
    while k < ids.len()
        invariant
            k <= ids@.len(),
            best == max_present_id(ids@.take(k as int)),
        decreases ids@.len() - k,
    {
        assert(ids@.take(k + 1).drop_last() =~= ids@.take(k as int));
        match ids[k] {
            Some(id) => {
                if id > best {
                    best = id;
                }
            },
            None => {},
        }
        k += 1;
    }
    assert(ids@.take(k as int) =~= ids@);
    Some(best as usize)
}

// ---------------------------------------------------------------------------
// Locating a downloaded file
// ---------------------------------------------------------------------------

/// What the engine's API reports of one torrent in its list.
pub struct TorrentListEntry {
    pub id: Option<u64>,
    pub output_folder: Option<String>,
}

/// The position of the first torrent, from position `k` on, whose id is `id`.
pub open spec fn first_with_id(ts: Seq<TorrentListEntry>, id: u64, k: int) -> Option<int>
    decreases ts.len() - k,
{
    if k < 0 || k >= ts.len() {
        None
    } else if ts[k].id == Some(id) {
        Some(k)
    } else {
        first_with_id(ts, id, k + 1)
    }
}

/// The answer when a torrent's download folder is not known.
pub open spec fn missing_folder_message(torrent_id: nat) -> Seq<char> {
    "未找到 torrent 输出目录: "@ + decimal(torrent_id)
}

/// The download folder of torrent `torrent_id`: that of the first listed
/// torrent with this id, when the list gives one.
pub open spec fn output_folder_result(ts: Seq<TorrentListEntry>, torrent_id: usize) -> Result<
    Seq<char>,
    Seq<char>,
> {
    match first_with_id(ts, torrent_id as u64, 0) {
        Some(j) => match ts[j].output_folder {
            Some(f) => Ok(f@),
            None => Err(missing_folder_message(torrent_id as nat)),
        },
        None => Err(missing_folder_message(torrent_id as nat)),
    }
}

/// Finds the download folder of torrent `torrent_id` in the engine's torrent list.
pub fn output_folder_of(torrents: &Vec<TorrentListEntry>, torrent_id: usize) -> (r: Result<
    String,
    String,
>)
    ensures
        match output_folder_result(torrents@, torrent_id) {
            Ok(f) => r matches Ok(s) && s@ == f,
            Err(e) => r matches Err(s) && s@ == e,
        },
{
    let id = torrent_id as u64;
    let mut k: usize = 0;
    while k < torrents.len()
        invariant
            k <= torrents@.len(),
            id == torrent_id as u64,
            first_with_id(torrents@, id, 0) == first_with_id(torrents@, id, k as int),
        decreases torrents@.len() - k,
    {
        if torrents[k].id == Some(id) {
            return match &torrents[k].output_folder {
                Some(f) => Ok(f.clone()),
                None => Err(missing_folder_message_text(torrent_id)),
            };
        }
        k += 1;
    }
    Err(missing_folder_message_text(torrent_id))
}

fn missing_folder_message_text(torrent_id: usize) -> (r: String)
    ensures
        r@ == missing_folder_message(torrent_id as nat),
{
    String::from_str("未找到 torrent 输出目录: ").concat(decimal_string(torrent_id).as_str())
}

/// The name of file `file_index` in the file names a torrent's details list.
pub open spec fn file_name_result(names: Option<Seq<Option<Seq<char>>>>, file_index: nat) -> Result<
    Seq<char>,
    Seq<char>,
> {
    match names {
        None => Err("torrent 文件列表为空"@),
        Some(ns) => if file_index < ns.len() && ns[file_index as int] is Some {
            Ok(ns[file_index as int]->0)
        } else {
            Err("文件索引不存在: "@ + decimal(file_index))
        },
    }
}

/// Picks the name of file `file_index`; `names` is `None` when the details
/// have no file list.
pub fn file_name_at(names: &Option<Vec<Option<String>>>, file_index: usize) -> (r: Result<
    String,
    String,
>)
    ensures
        match file_name_result(names.deep_view(), file_index as nat) {
            Ok(n) => r matches Ok(s) && s@ == n,
            Err(e) => r matches Err(s) && s@ == e,
        },
{
    match names {
        None => Err(String::from_str("torrent 文件列表为空")),
        Some(ns) => {
            if file_index < ns.len() {
                assert(names.deep_view()->0[file_index as int] == ns@[file_index as int].deep_view());
                if let Some(n) = &ns[file_index] {
                    return Ok(n.clone());
                }
            }
            Err(String::from_str("文件索引不存在: ").concat(decimal_string(file_index).as_str()))
        },
    }
}

/// The path starts at the root (`/`).
pub open spec fn has_root(p: Seq<char>) -> bool {
    starts_with(p, "/"@)
}

/// A relative name that could leave the folder it is put in: it starts at the
/// root or has a `..` component (as `Path::components` reports them on Unix).
pub open spec fn escapes_folder(name: Seq<char>) -> bool {
    has_root(name) || exists|i: int|
        0 <= i < split_on(name, '/').len() && #[trigger] split_on(name, '/')[i] == ".."@
}

/// The text of a refusal about file `file_index` of torrent `torrent_id`.
pub open spec fn location_message(what: Seq<char>, torrent_id: nat, file_index: nat) -> Seq<char> {
    what + decimal(torrent_id) + " file "@ + decimal(file_index)
}

fn location_message_text(what: &str, torrent_id: usize, file_index: usize) -> (r: String)
    ensures
        r@ == location_message(what@, torrent_id as nat, file_index as nat),
{
    String::from_str(what).concat(decimal_string(torrent_id).as_str()).concat(" file ").concat(
        decimal_string(file_index).as_str(),
    )
}

/// The refusal once the file found is not a regular file.
pub fn not_regular_file_message(torrent_id: usize, file_index: usize) -> (r: String)
    ensures
        r@ == location_message("not a regular file for torrent "@, torrent_id as nat, file_index as nat),
{
    location_message_text("not a regular file for torrent ", torrent_id, file_index)
}

fn has_parent_component(name: &str) -> (b: bool)
    ensures
        b == exists|i: int|
            0 <= i < split_on(name@, '/').len() && #[trigger] split_on(name@, '/')[i] == ".."@,
{
    let v = chars_of(name);
    let parts = split_ranges(&v, '/');
    let dots = chars_of("..");
    let mut k: usize = 0;
    while k < parts.len()
        invariant
            k <= parts@.len(),
            v@ == name@,
            dots@ == ".."@,
            parts@.len() == split_on(v@, '/').len(),
            forall|j: int| #![trigger parts@[j]] 0 <= j < parts@.len() ==> parts@[j].0 <= parts@[j].1 <= v@.len(),
            forall|j: int|
                0 <= j < parts@.len() ==> v@.subrange(parts@[j].0 as int, parts@[j].1 as int)
                    == #[trigger] split_on(v@, '/')[j],
            forall|j: int| 0 <= j < k ==> #[trigger] split_on(v@, '/')[j] != ".."@,
        decreases parts@.len() - k,
    {
        let (a, b) = parts[k];
        assert(v@.subrange(a as int, b as int) == split_on(v@, '/')[k as int]);
        let piece = sub_chars(&v, a, b);
        if piece.len() == dots.len() && occurs_at_exec(&piece, &dots, 0) {
            assert(piece@.subrange(0, dots@.len() as int) =~= piece@);
            return true;
        }
        proof {
            if piece@ == dots@ {
                assert(piece@.subrange(0, dots@.len() as int) =~= piece@);
            }
        }
        k += 1;
    }
    false
}

/// The checks made before the file is looked up on disk: the download folder
/// must be absolute, and the file's name must stay inside it.
pub fn check_file_location(
    output_folder: &str,
    file_name: &str,
    torrent_id: usize,
    file_index: usize,
) -> (r: Result<(), String>)
    ensures
        !has_root(output_folder@) ==> (r matches Err(e) && e@ == location_message(
            "output_folder must be absolute for torrent "@,
            torrent_id as nat,
            file_index as nat,
        )),
        has_root(output_folder@) && escapes_folder(file_name@) ==> (r matches Err(e) && e@
            == location_message(
            "invalid file_name component for torrent "@,
            torrent_id as nat,
            file_index as nat,
        )),
        has_root(output_folder@) && !escapes_folder(file_name@) ==> r is Ok,
{
    if !str_starts_with(output_folder, "/") {
        return Err(
            location_message_text("output_folder must be absolute for torrent ", torrent_id, file_index),
        );
    }
    if str_starts_with(file_name, "/") || has_parent_component(file_name) {
        return Err(
            location_message_text("invalid file_name component for torrent ", torrent_id, file_index),
        );
    }
    Ok(())
}

/// The check made once both paths are canonical: the file must lie inside the
/// download folder.
pub fn check_inside_folder(
    canonical_file: &str,
    canonical_folder: &str,
    torrent_id: usize,
    file_index: usize,
) -> (r: Result<(), String>)
    ensures
        path_has_prefix(canonical_file@, canonical_folder@) ==> r is Ok,
        !path_has_prefix(canonical_file@, canonical_folder@) ==> (r matches Err(e) && e@
            == location_message(
            "path traversal detected for torrent "@,
            torrent_id as nat,
            file_index as nat,
        )),
{
    if path_starts_with(canonical_file, canonical_folder) {
        Ok(())
    } else {
        Err(location_message_text("path traversal detected for torrent ", torrent_id, file_index))
    }
}

} // verus!
