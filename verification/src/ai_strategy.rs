//! Heuristic advertisement detection from file names.
//!
//! A file whose lower-cased path contains one of the keywords below (advert,
//! gambling, QR-code, trailer and sample words) is marked as a suspected ad.
use vstd::prelude::*;

use crate::deps::{lowercase, to_lowercase};
use crate::text::{chars_of, has_substring, has_substring_exec};

verus! {

/// The analysis of one file of a torrent.
#[derive(Debug, Clone)]
pub struct FileAnalysis {
    pub index: usize,
    pub path: String,
    pub is_suspected_ad: bool,
    pub matched_keywords: Vec<String>,
}

/// The keywords, in the order in which matches are reported.
pub open spec fn ad_keywords() -> Seq<Seq<char>> {
    seq![
        "ad"@,
        "ads"@,
        "advertisement"@,
        "广告"@,
        "推广"@,
        "赌博"@,
        "博彩"@,
        "casino"@,
        "bet"@,
        "扫码"@,
        "二维码"@,
        "qrcode"@,
        "wechat"@,
        "预告"@,
        "trailer"@,
        "promo"@,
        "sample"@,
    ]
}

/// The keywords of `keywords` that occur in `lower`, in their order.
pub open spec fn keywords_found_in(lower: Seq<char>, keywords: Seq<Seq<char>>) -> Seq<Seq<char>>
    decreases keywords.len(),
{
    if keywords.len() == 0 {
        Seq::<Seq<char>>::empty()
    } else {
        let init = keywords_found_in(lower, keywords.drop_last());
        if has_substring(lower, keywords.last()) {
            init.push(keywords.last())
        } else {
            init
        }
    }
}

/// The ad keywords that occur in the already lower-cased text `lower`.
pub open spec fn keywords_found(lower: Seq<char>) -> Seq<Seq<char>> {
    keywords_found_in(lower, ad_keywords())
}

/// What `analyze_file_path` answers for `path`: whether any keyword occurs in
/// its lower-case form, and which ones.
pub open spec fn path_analysis(path: Seq<char>) -> (bool, Seq<Seq<char>>) {
    let found = keywords_found(lowercase(path));
    (found.len() > 0, found)
}

proof fn lemma_keywords_found_in(lower: Seq<char>, ks: Seq<Seq<char>>)
    ensures
        forall|i: int|
            0 <= i < ks.len() && has_substring(lower, #[trigger] ks[i]) ==> keywords_found_in(
                lower,
                ks,
            ).contains(ks[i]),
        forall|x: Seq<char>| #[trigger]
            keywords_found_in(lower, ks).contains(x) ==> has_substring(lower, x) && ks.contains(x),
    decreases ks.len(),
{
    if ks.len() > 0 {
        let init = ks.drop_last();
        lemma_keywords_found_in(lower, init);
        let n = ks.len() - 1;
        let prev = keywords_found_in(lower, init);
        let cur = keywords_found_in(lower, ks);
        assert(ks.last() == ks[n]);
        assert forall|i: int|
            0 <= i < ks.len() && has_substring(lower, #[trigger] ks[i]) implies cur.contains(ks[i]) by {
            if i < n {
                assert(init[i] == ks[i]);
                assert(prev.contains(init[i]));
                let j = choose|j: int| 0 <= j < prev.len() && prev[j] == init[i];
                if has_substring(lower, ks.last()) {
                    assert(cur[j] == prev[j]);
                }
            } else {
                assert(cur.last() == ks[n]);
                assert(cur[cur.len() - 1] == ks[n]);
            }
        }
        assert forall|x: Seq<char>| #[trigger] cur.contains(x) implies has_substring(lower, x)
            && ks.contains(x) by {
            let j = choose|j: int| 0 <= j < cur.len() && cur[j] == x;
            if j < prev.len() {
                assert(prev[j] == x);
                assert(prev.contains(x));
                let m = choose|m: int| 0 <= m < init.len() && init[m] == x;
                assert(ks[m] == x);
            } else {
                assert(x == ks[n]);
            }
        }
    }
}

/// Every ad keyword that occurs in the lower-cased path is reported, only such
/// keywords are reported, and the path is suspected exactly when one occurs.
pub proof fn lemma_suspected_iff_keyword(path: Seq<char>)
    ensures
        forall|i: int|
            0 <= i < ad_keywords().len() && has_substring(lowercase(path), #[trigger] ad_keywords()[i])
                ==> path_analysis(path).1.contains(ad_keywords()[i]),
        forall|x: Seq<char>| #[trigger]
            path_analysis(path).1.contains(x) ==> has_substring(lowercase(path), x)
                && ad_keywords().contains(x),
        path_analysis(path).0 <==> exists|i: int|
            0 <= i < ad_keywords().len() && has_substring(lowercase(path), #[trigger] ad_keywords()[i]),
{
    let lower = lowercase(path);
    lemma_keywords_found_in(lower, ad_keywords());
    let found = path_analysis(path).1;
    if found.len() > 0 {
        assert(found.contains(found[0]));
        let m = choose|m: int| 0 <= m < ad_keywords().len() && ad_keywords()[m] == found[0];
        assert(has_substring(lower, ad_keywords()[m]));
    }
}

/// The `i`-th ad keyword.
fn ad_keyword(i: usize) -> (k: &'static str)
    requires
        i < ad_keywords().len(),
    ensures
        k@ == ad_keywords()[i as int],
{
    if i == 0 {
        "ad"
    } else if i == 1 {
        "ads"
    } else if i == 2 {
        "advertisement"
    } else if i == 3 {
        "广告"
    } else if i == 4 {
        "推广"
    } else if i == 5 {
        "赌博"
    } else if i == 6 {
        "博彩"
    } else if i == 7 {
        "casino"
    } else if i == 8 {
        "bet"
    } else if i == 9 {
        "扫码"
    } else if i == 10 {
        "二维码"
    } else if i == 11 {
        "qrcode"
    } else if i == 12 {
        "wechat"
    } else if i == 13 {
        "预告"
    } else if i == 14 {
        "trailer"
    } else if i == 15 {
        "promo"
    } else {
        "sample"
    }
}

/// The ad keywords that occur in the lower-cased text `lower`, in keyword order.
pub fn keywords_in(lower: &str) -> (r: Vec<String>)
    ensures
        r.deep_view() == keywords_found(lower@),
{
    let text = chars_of(lower);
    let mut found: Vec<String> = Vec::new();
    let n: usize = 17;
    let mut i: usize = 0;
    assert(ad_keywords().take(0) =~= Seq::<Seq<char>>::empty());
    while i < n
        invariant
            n == ad_keywords().len(),
            i <= n,
            text@ == lower@,
            found.deep_view() == keywords_found_in(lower@, ad_keywords().take(i as int)),
        decreases n - i,
    {
        let kw = ad_keyword(i);
        let kv = chars_of(kw);
        let ghost before = found.deep_view();
        let ghost ks = ad_keywords().take(i + 1);
        assert(ks.drop_last() =~= ad_keywords().take(i as int));
        assert(ks.last() == kw@);
        if has_substring_exec(&text, &kv) {
            found.push(String::from_str(kw));
            assert(found.deep_view() =~= before.push(kw@));
        }
        i += 1;
    }
    assert(ad_keywords().take(n as int) =~= ad_keywords());
    found
}

/// Analyses a file path: whether it looks like an ad, and which keywords matched.
pub fn analyze_file_path(path: &str) -> (r: (bool, Vec<String>))
    ensures
        r.0 == path_analysis(path@).0,
        r.1.deep_view() == path_analysis(path@).1,
        forall|i: int|
            0 <= i < ad_keywords().len() && has_substring(lowercase(path@), #[trigger] ad_keywords()[i])
                ==> r.1.deep_view().contains(ad_keywords()[i]),
        r.0 <==> exists|i: int|
            0 <= i < ad_keywords().len() && has_substring(lowercase(path@), #[trigger] ad_keywords()[i]),
{
    proof {
        lemma_suspected_iff_keyword(path@);
    }
    let lower = to_lowercase(path);
    let matched = keywords_in(lower.as_str());
    let is_suspected = matched.len() > 0;
    (is_suspected, matched)
}

/// Analyses each path of a list; entry `i` describes `paths[i]`.
pub fn analyze_files(paths: &Vec<String>) -> (r: Vec<FileAnalysis>)
    ensures
        r@.len() == paths@.len(),
        forall|i: int|
            0 <= i < r@.len() ==> {
                &&& (#[trigger] r@[i]).index == i
                &&& r@[i].path@ == paths@[i]@
                &&& r@[i].is_suspected_ad == path_analysis(paths@[i]@).0
                &&& r@[i].matched_keywords.deep_view() == path_analysis(paths@[i]@).1
            },
{
    let mut r: Vec<FileAnalysis> = Vec::new();
    let mut idx: usize = 0;
    while idx < paths.len()
        invariant
            idx <= paths@.len(),
            r@.len() == idx,
            forall|i: int|
                0 <= i < r@.len() ==> {
                    &&& (#[trigger] r@[i]).index == i
                    &&& r@[i].path@ == paths@[i]@
                    &&& r@[i].is_suspected_ad == path_analysis(paths@[i]@).0
                    &&& r@[i].matched_keywords.deep_view() == path_analysis(paths@[i]@).1
                },
        decreases paths@.len() - idx,
    {
        let path = &paths[idx];
        let (is_suspected_ad, matched_keywords) = analyze_file_path(path.as_str());
        r.push(
            FileAnalysis { index: idx, path: path.clone(), is_suspected_ad, matched_keywords },
        );
        idx += 1;
    }
    r
}

} // verus!
