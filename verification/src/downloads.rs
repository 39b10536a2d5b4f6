//! Planning of attachment downloads: the key under which a URL is
//! deduplicated, the folder and file name it is saved under, the content
//! hash index that keeps identical files from being saved twice, and the
//! tallies and progress labels of a run.
use vstd::prelude::*;
use vstd::hash_map::StringHashMap;
use crate::dates::find_char;
use crate::numfmt::{decimal, pad_left, push_decimal, push_padded, zero_padded};
use crate::text::{
    chars_of, contains_seq, contains_str, copy_str, find_from, has_prefix, is_alnum, is_alnum_char,
    lemma_find_from_bounds, lower_seq, push_char, push_str, starts_with, string_from_chars,
    string_from_range, to_ascii_lowercase, trim, trim_seq,
};

verus! {

broadcast use vstd::hash_map::axiom_string_hash_map_spec_len;

// ---------------------------------------------------------------------------
// Keys, names and folders
// ---------------------------------------------------------------------------

/// `s` up to (not including) the first `c`.
pub open spec fn before_char(s: Seq<char>, c: char) -> Seq<char> {
    s.take(find_from(s, c, 0))
}

/// The URL without fragment, query and `https://` or `http://` scheme:
/// two links to the same file with different access tokens share it.
pub open spec fn canonical_key_spec(url: Seq<char>) -> Seq<char> {
    let base = before_char(before_char(url, '#'), '?');
    if has_prefix(base, "https://"@) {
        base.skip(8)
    } else if has_prefix(base, "http://"@) {
        base.skip(7)
    } else {
        base
    }
}

fn prefix_before(v: &Vec<char>, c: char) -> (r: Vec<char>)
    ensures
        r@ == before_char(v@, c),
{
    let end = find_char(v, c, 0);
    proof {
        lemma_find_from_bounds(v@, c, 0);
    }
    let mut r: Vec<char> = Vec::new();
    let mut i: usize = 0;
    while i < end
        invariant
            end <= v@.len(),
            i <= end,
            r@ == v@.take(i as int),
        decreases end - i,
    {
        r.push(v[i]);
        i += 1;
        assert(r@ =~= v@.take(i as int));
    }
    r
}

pub fn canonical_attachment_key(url: &str) -> (out: String)
    ensures
        out@ == canonical_key_spec(url@),
{
    let v = chars_of(url);
    let a = prefix_before(&v, '#');
    let b = prefix_before(&a, '?');
    let base = string_from_chars(&b);
    proof {
        reveal_strlit("https://");
        reveal_strlit("http://");
    }
    if starts_with(base.as_str(), "https://") {
        let out = string_from_range(&b, 8, b.len());
        assert(out@ =~= b@.skip(8));
        out
    } else if starts_with(base.as_str(), "http://") {
        let out = string_from_range(&b, 7, b.len());
        assert(out@ =~= b@.skip(7));
        out
    } else {
        base
    }
}

/// `s` without trailing `/`.
pub open spec fn trim_slashes(s: Seq<char>) -> Seq<char>
    decreases s.len(),
{
    if s.len() > 0 && s.last() == '/' {
        trim_slashes(s.drop_last())
    } else {
        s
    }
}

/// Index just past the last `/` before `j` (0 when there is none).
pub open spec fn last_slash_end(s: Seq<char>, j: int) -> int
    decreases j,
{
    if j <= 0 || j > s.len() {
        0
    } else if s[j - 1] == '/' {
        j
    } else {
        last_slash_end(s, j - 1)
    }
}

/// The last path segment of a URL or path, `attachment` when it is empty.
pub open spec fn basename_spec(s: Seq<char>) -> Seq<char> {
    let t = trim_slashes(s);
    let seg = t.skip(last_slash_end(t, t.len() as int));
    if seg.len() == 0 {
        "attachment"@
    } else {
        seg
    }
}

proof fn lemma_last_slash_bounds(s: Seq<char>, j: int)
    requires
        0 <= j <= s.len(),
    ensures
        0 <= last_slash_end(s, j) <= j,
    decreases j,
{
    if j > 0 && s[j - 1] != '/' {
        lemma_last_slash_bounds(s, j - 1);
    }
}

pub fn attachment_basename(url_or_path: &str) -> (out: String)
    ensures
        out@ == basename_spec(url_or_path@),
{
    let v = chars_of(url_or_path);
    let mut end = v.len();
    assert(v@.take(v@.len() as int) =~= v@);
    while end > 0 && v[end - 1] == '/'
        invariant
            end <= v@.len(),
            trim_slashes(v@) == trim_slashes(v@.take(end as int)),
        decreases end,
    {
        assert(v@.take(end as int).drop_last() =~= v@.take(end - 1));
        end -= 1;
    }
    assert(v@.take(v@.len() as int) =~= v@);
    let ghost t = v@.take(end as int);
    assert(trim_slashes(t) == t);
    let mut start = end;
    while start > 0 && v[start - 1] != '/'
        invariant
            start <= end <= v@.len(),
            t == v@.take(end as int),
            last_slash_end(t, t.len() as int) == last_slash_end(t, start as int),
        decreases start,
    {
        start -= 1;
    }
    proof {
        lemma_last_slash_bounds(t, t.len() as int);
    }
    if start == end {
        proof {
            reveal_strlit("attachment");
        }
        assert(t.skip(start as int).len() == 0);
        copy_str("attachment")
    } else {
        let out = string_from_range(&v, start, end);
        assert(out@ =~= t.skip(start as int));
        out
    }
}

/// Any of `needles` occurs in `s`.
pub open spec fn has_any(s: Seq<char>, needles: Seq<Seq<char>>) -> bool {
    exists|i: int| 0 <= i < needles.len() && contains_seq(s, #[trigger] needles[i])
}

pub open spec fn category_spec(url: Seq<char>) -> Seq<char> {
    let l = lower_seq(url);
    if has_any(l, seq![".mp3"@, ".wav"@, ".m4a"@]) {
        "audios"@
    } else if has_any(l, seq![".doc"@, ".pdf"@]) {
        "docs"@
    } else if has_any(l, seq![".jpg"@, ".jpeg"@, ".png"@, ".gif"@, ".webp"@]) {
        "imgs"@
    } else if has_any(l, seq![".txt"@]) {
        "txts"@
    } else if has_any(l, seq![".py"@, ".js"@, ".html"@, ".css"@, ".json"@]) {
        "codes"@
    } else if has_any(l, seq![".exe"@, ".msi"@]) {
        "exes"@
    } else if has_any(l, seq![".mp4"@, ".mov"@, ".webm"@, ".mkv"@]) {
        "vids"@
    } else if has_any(l, seq![".zip"@, ".rar"@, ".7z"@, ".tar"@, ".gz"@]) {
        "zips"@
    } else {
        "unknowns"@
    }
}

fn contains_any(s: &str, needles: &[&str]) -> (r: bool)
    ensures
        r == has_any(s@, needles@.map_values(|n: &str| n@)),
{
    let ghost ns = needles@.map_values(|n: &str| n@);
    let mut i: usize = 0;
    while i < needles.len()
        invariant
            i <= needles@.len(),
            ns == needles@.map_values(|n: &str| n@),
            forall|k: int| 0 <= k < i ==> !contains_seq(s@, #[trigger] ns[k]),
        decreases needles@.len() - i,
    {
        if contains_str(s, needles[i]) {
            assert(contains_seq(s@, ns[i as int]));
            return true;
        }
        i += 1;
    }
    false
}

/// The folder an attachment is saved in, from the extension its URL shows.
pub fn guess_category(url: &str) -> (r: &'static str)
    ensures
        r@ == category_spec(url@),
{
    let l = to_ascii_lowercase(url);
    let a = [".mp3", ".wav", ".m4a"];
    assert(a@.map_values(|n: &str| n@) =~= seq![".mp3"@, ".wav"@, ".m4a"@]);
    if contains_any(l.as_str(), &a) {
        return "audios";
    }
    let d = [".doc", ".pdf"];
    assert(d@.map_values(|n: &str| n@) =~= seq![".doc"@, ".pdf"@]);
    if contains_any(l.as_str(), &d) {
        return "docs";
    }
    let im = [".jpg", ".jpeg", ".png", ".gif", ".webp"];
    assert(im@.map_values(|n: &str| n@) =~= seq![".jpg"@, ".jpeg"@, ".png"@, ".gif"@, ".webp"@]);
    if contains_any(l.as_str(), &im) {
        return "imgs";
    }
    let t = [".txt"];
    assert(t@.map_values(|n: &str| n@) =~= seq![".txt"@]);
    if contains_any(l.as_str(), &t) {
        return "txts";
    }
    let c = [".py", ".js", ".html", ".css", ".json"];
    assert(c@.map_values(|n: &str| n@) =~= seq![".py"@, ".js"@, ".html"@, ".css"@, ".json"@]);
    if contains_any(l.as_str(), &c) {
        return "codes";
    }
    let e = [".exe", ".msi"];
    assert(e@.map_values(|n: &str| n@) =~= seq![".exe"@, ".msi"@]);
    if contains_any(l.as_str(), &e) {
        return "exes";
    }
    let vi = [".mp4", ".mov", ".webm", ".mkv"];
    assert(vi@.map_values(|n: &str| n@) =~= seq![".mp4"@, ".mov"@, ".webm"@, ".mkv"@]);
    if contains_any(l.as_str(), &vi) {
        return "vids";
    }
    let z = [".zip", ".rar", ".7z", ".tar", ".gz"];
    assert(z@.map_values(|n: &str| n@) =~= seq![".zip"@, ".rar"@, ".7z"@, ".tar"@, ".gz"@]);
    if contains_any(l.as_str(), &z) {
        return "zips";
    }
    "unknowns"
}

/// The folders attachments are sorted into.
pub fn categories() -> (r: Vec<&'static str>)
    ensures
        r@.map_values(|c: &str| c@) == seq![
            "unknowns"@,
            "audios"@,
            "docs"@,
            "imgs"@,
            "txts"@,
            "codes"@,
            "data"@,
            "exes"@,
            "vids"@,
            "zips"@,
        ],
{
    let r = vec!["unknowns", "audios", "docs", "imgs", "txts", "codes", "data", "exes", "vids", "zips"];
    assert(r@.map_values(|c: &str| c@) =~= seq![
        "unknowns"@,
        "audios"@,
        "docs"@,
        "imgs"@,
        "txts"@,
        "codes"@,
        "data"@,
        "exes"@,
        "vids"@,
        "zips"@,
    ]);
    r
}

/// Characters kept in saved file names; every other becomes `_`.
pub open spec fn safe_char(c: char) -> bool {
    is_alnum_char(c) || c == '.' || c == '_' || c == '-'
}

pub open spec fn safe_name_spec(s: Seq<char>) -> Seq<char> {
    s.map_values(|c: char| if safe_char(c) { c } else { '_' })
}

pub fn safe_file_name(name: &str) -> (out: String)
    ensures
        out@ == safe_name_spec(name@),
{
    let v = chars_of(name);
    let mut out = String::new();
    let mut i: usize = 0;
    while i < v.len()
        invariant
            i <= v@.len(),
            v@ == name@,
            out@ == safe_name_spec(v@.take(i as int)),
        decreases v@.len() - i,
    {
        let c = v[i];
        let keep = is_alnum(c) || c == '.' || c == '_' || c == '-';
        push_char(&mut out, if keep { c } else { '_' });
        i += 1;
        assert(out@ =~= safe_name_spec(v@.take(i as int)));
    }
    assert(v@.take(v@.len() as int) =~= v@);
    out
}

/// `attachment_{i:06}_{safe name}`.
pub open spec fn output_name_spec(i: nat, key: Seq<char>) -> Seq<char> {
    "attachment_"@ + pad_left(decimal(i), 6, '0') + "_"@ + safe_name_spec(basename_spec(key))
}

/// `attachment_{i:06}.part`.
pub open spec fn temp_name_spec(i: nat) -> Seq<char> {
    "attachment_"@ + pad_left(decimal(i), 6, '0') + ".part"@
}

// ---------------------------------------------------------------------------
// The plan
// ---------------------------------------------------------------------------

/// One attachment to fetch.
pub struct PlannedDownload {
    /// The link, trimmed.
    pub url: String,
    /// Its deduplication key.
    pub key: String,
    pub category: &'static str,
    /// File name in the category folder.
    pub output_name: String,
    /// File name in the temporary folder while it downloads.
    pub temp_name: String,
}

/// The downloads of a run, and the links dropped as repeats of an earlier
/// one.
pub struct DownloadPlan {
    pub tasks: Vec<PlannedDownload>,
    pub duplicates_ignored_url: u64,
}

/// The trimmed, non-empty links whose key no earlier link had, in order.
pub open spec fn unique_links(links: Seq<Seq<char>>) -> Seq<Seq<char>>
    decreases links.len(),
{
    if links.len() == 0 {
        Seq::empty()
    } else {
        let rest = unique_links(links.drop_last());
        let t = trim_seq(links.last());
        if t.len() == 0 || exists|k: int|
            0 <= k < rest.len() && canonical_key_spec(#[trigger] rest[k]) == canonical_key_spec(t) {
            rest
        } else {
            rest.push(t)
        }
    }
}

/// Non-empty trimmed links that repeat the key of an earlier link.
pub open spec fn repeated_links(links: Seq<Seq<char>>) -> nat
    decreases links.len(),
{
    if links.len() == 0 {
        0
    } else {
        let rest = unique_links(links.drop_last());
        let t = trim_seq(links.last());
        repeated_links(links.drop_last()) + if t.len() > 0 && exists|k: int|
            0 <= k < rest.len() && canonical_key_spec(#[trigger] rest[k]) == canonical_key_spec(t) {
            1nat
        } else {
            0nat
        }
    }
}

pub open spec fn task_spec(t: PlannedDownload, i: nat, url: Seq<char>) -> bool {
    let key = canonical_key_spec(url);
    &&& t.url@ == url
    &&& t.key@ == key
    &&& t.category@ == category_spec(key)
    &&& t.output_name@ == output_name_spec(i, key)
    &&& t.temp_name@ == temp_name_spec(i)
}

fn plan_task(i: usize, url: String, key: String) -> (t: PlannedDownload)
    requires
        key@ == canonical_key_spec(url@),
    ensures
        task_spec(t, i as nat, url@),
{
    let category = guess_category(key.as_str());
    let base = attachment_basename(key.as_str());
    let safe = safe_file_name(base.as_str());
    let idx = zero_padded(i as u64, 6);
    let mut output_name = copy_str("attachment_");
    push_str(&mut output_name, idx.as_str());
    push_str(&mut output_name, "_");
    push_str(&mut output_name, safe.as_str());
    let mut temp_name = copy_str("attachment_");
    push_str(&mut temp_name, idx.as_str());
    push_str(&mut temp_name, ".part");
    assert(output_name@ =~= output_name_spec(i as nat, key@));
    assert(temp_name@ =~= temp_name_spec(i as nat));
    PlannedDownload { url, key, category, output_name, temp_name }
}

/// The downloads for `links`: each trimmed, non-empty link whose key no
/// earlier link had, numbered in order, with its folder and file names;
/// and how many links were dropped as repeats.
pub fn plan_downloads(links: &Vec<String>) -> (p: DownloadPlan)
    ensures
        ({
            let ls = links@.map_values(|s: String| s@);
            let u = unique_links(ls);
            &&& p.tasks@.len() == u.len()
            &&& forall|i: int| 0 <= i < u.len() ==> task_spec(#[trigger] p.tasks@[i], i as nat, u[i])
            &&& p.duplicates_ignored_url == repeated_links(ls)
        }),
{
    let ghost ls = links@.map_values(|s: String| s@);
    let mut seen: StringHashMap<bool> = StringHashMap::new();
    let mut tasks: Vec<PlannedDownload> = Vec::new();
    let mut dups: u64 = 0;
    let mut i: usize = 0;
    assert(ls.take(0) =~= Seq::<Seq<char>>::empty());
    while i < links.len()
        invariant
            i <= links@.len(),
            ls == links@.map_values(|s: String| s@),
            tasks@.len() == unique_links(ls.take(i as int)).len(),
            forall|q: int|
                0 <= q < tasks@.len() ==> task_spec(#[trigger] tasks@[q], q as nat, unique_links(ls.take(i as int))[q]),
            dups == repeated_links(ls.take(i as int)),
            dups <= i,
            forall|k: Seq<char>|
                #[trigger] seen@.contains_key(k) <==> exists|q: int|
                    0 <= q < unique_links(ls.take(i as int)).len() && canonical_key_spec(
                        #[trigger] unique_links(ls.take(i as int))[q],
                    ) == k,
        decreases links@.len() - i,
    {
        let ghost prev = ls.take(i as int);
        let ghost u = unique_links(prev);
        assert(ls.take(i + 1).drop_last() =~= prev);
        assert(ls.take(i + 1).last() == links@[i as int]@);
        let t = trim(links[i].as_str());
        let empty = t.as_str().is_empty();
        if !empty {
            let key = canonical_attachment_key(t.as_str());
            if seen.contains_key(key.as_str()) {
                proof {
                    let q = choose|q: int| 0 <= q < u.len() && canonical_key_spec(#[trigger] u[q]) == key@;
                    assert(canonical_key_spec(u[q]) == canonical_key_spec(t@));
                }
                dups = dups + 1;
            } else {
                proof {
                    assert(!(exists|k: int| 0 <= k < u.len() && canonical_key_spec(#[trigger] u[k]) == canonical_key_spec(t@)));
                }
                seen.insert(key.clone(), true);
                let n = tasks.len();
                tasks.push(plan_task(n, t, key));
                proof {
                    let u2 = unique_links(ls.take(i + 1));
                    assert(u2 == u.push(trim_seq(links@[i as int]@)));
                    assert forall|k: Seq<char>| #[trigger] seen@.contains_key(k) <==> exists|q: int|
                        0 <= q < u2.len() && canonical_key_spec(#[trigger] u2[q]) == k by {
                        if seen@.contains_key(k) && k != canonical_key_spec(t@) {
                            let q = choose|q: int| 0 <= q < u.len() && canonical_key_spec(#[trigger] u[q]) == k;
                            assert(u2[q] == u[q]);
                        }
                        if k == canonical_key_spec(t@) {
                            assert(u2[u.len() as int] == t@);
                        }
                        if exists|q: int| 0 <= q < u2.len() && canonical_key_spec(#[trigger] u2[q]) == k {
                            let q = choose|q: int| 0 <= q < u2.len() && canonical_key_spec(#[trigger] u2[q]) == k;
                            if q < u.len() {
                                assert(u2[q] == u[q]);
                            }
                        }
                    }
                    assert forall|q: int| 0 <= q < tasks@.len() implies task_spec(#[trigger] tasks@[q], q as nat, u2[q]) by {
                        if q < u.len() {
                            assert(u2[q] == u[q]);
                        }
                    }
                }
            }
        }
        i += 1;
    }
    assert(ls.take(ls.len() as int) =~= ls);
    DownloadPlan { tasks, duplicates_ignored_url: dups }
}

// ---------------------------------------------------------------------------
// The content hash index
// ---------------------------------------------------------------------------

/// The format version of the stored hash index.
pub fn hash_index_version() -> (v: u8)
    ensures
        v == 1,
{
    1
}

/// The index after recording `path` for `hash` unless it has a path for it.
pub open spec fn kept_or_added(m: Map<Seq<char>, Seq<char>>, hash: Seq<char>, path: Seq<char>) -> Map<
    Seq<char>,
    Seq<char>,
> {
    if m.contains_key(hash) {
        m
    } else {
        m.insert(hash, path)
    }
}

/// Saved files by the SHA-256 of their content.
pub struct HashIndex {
    version: u8,
    index: StringHashMap<usize>,
    entries: Vec<(String, String)>,
}

impl HashIndex {
    /// Content hash -> path of the file saved with that content.
    pub closed spec fn view(&self) -> Map<Seq<char>, Seq<char>> {
        Map::new(
            |k: Seq<char>| self.index@.contains_key(k),
            |k: Seq<char>| self.entries@[self.index@[k] as int].1@,
        )
    }

    /// The format version it was stored with.
    pub closed spec fn format(&self) -> u8 {
        self.version
    }

    pub fn version(&self) -> (v: u8)
        ensures
            v == self.format(),
    {
        self.version
    }

    pub closed spec fn wf(&self) -> bool {
        &&& forall|i: int|
            0 <= i < self.entries@.len() ==> self.index@.contains_key(
                (#[trigger] self.entries@[i]).0@,
            ) && self.index@[self.entries@[i].0@] == i
        &&& forall|k: Seq<char>|
            #[trigger] self.index@.contains_key(k) ==> self.index@[k] < self.entries@.len()
                && self.entries@[self.index@[k] as int].0@ == k
    }

    pub fn new() -> (h: Self)
        ensures
            h.wf(),
            h.format() == 1,
            h@ == Map::<Seq<char>, Seq<char>>::empty(),
    {
        let h = HashIndex { version: hash_index_version(), index: StringHashMap::new(), entries: Vec::new() };
        assert(h@ =~= Map::<Seq<char>, Seq<char>>::empty());
        h
    }

    /// An empty index read back with format version `version`, which it
    /// keeps when it is written again.
    pub fn with_version(version: u8) -> (h: Self)
        ensures
            h.wf(),
            h.format() == version,
            h@ == Map::<Seq<char>, Seq<char>>::empty(),
    {
        let h = HashIndex { version, index: StringHashMap::new(), entries: Vec::new() };
        assert(h@ =~= Map::<Seq<char>, Seq<char>>::empty());
        h
    }

    /// The path saved under `hash`.
    pub fn get(&self, hash: &str) -> (r: Option<String>)
        requires
            self.wf(),
        ensures
            match r {
                Some(p) => self@.contains_key(hash@) && self@[hash@] == p@,
                None => !self@.contains_key(hash@),
            },
    {
        match self.index.get(hash) {
            Some(i) => Some(self.entries[*i].1.clone()),
            None => None,
        }
    }

    /// Records a file saved with `hash`, replacing an earlier path.
    pub fn insert(&mut self, hash: &str, path: &str)
        requires
            old(self).wf(),
        ensures
            final(self).wf(),
            final(self).format() == old(self).format(),
            final(self)@ == old(self)@.insert(hash@, path@),
    {
        let ghost old_view = self@;
        match self.index.get(hash) {
            Some(i) => {
                let i = *i;
                let key = self.entries[i].0.clone();
                self.entries.set(i, (key, copy_str(path)));
                assert(self@ =~= old_view.insert(hash@, path@));
            },
            None => {
                let n = self.entries.len();
                self.entries.push((copy_str(hash), copy_str(path)));
                self.index.insert(copy_str(hash), n);
                assert(self@ =~= old_view.insert(hash@, path@));
            },
        }
    }

    /// Records an existing file under `hash` unless a path is known for it.
    pub fn insert_if_absent(&mut self, hash: &str, path: &str)
        requires
            old(self).wf(),
        ensures
            final(self).wf(),
            final(self).format() == old(self).format(),
            final(self)@ == kept_or_added(old(self)@, hash@, path@),
    {
        if !self.index.contains_key(hash) {
            self.insert(hash, path);
        }
    }

    /// The (hash, path) pairs, in the order the hashes were first recorded.
    pub fn entries(&self) -> (r: Vec<(String, String)>)
        requires
            self.wf(),
        ensures
            forall|i: int| 0 <= i < r@.len() ==> self@.contains_key((#[trigger] r@[i]).0@) && self@[r@[i].0@] == r@[i].1@,
            forall|k: Seq<char>| #[trigger] self@.contains_key(k) ==> exists|i: int| 0 <= i < r@.len() && r@[i].0@ == k,
    {
        let mut r: Vec<(String, String)> = Vec::new();
        let mut i: usize = 0;
        while i < self.entries.len()
            invariant
                self.wf(),
                i <= self.entries@.len(),
                r@.len() == i,
                forall|q: int| 0 <= q < i ==> (#[trigger] r@[q]) == self.entries@[q],
            decreases self.entries@.len() - i,
        {
            r.push((self.entries[i].0.clone(), self.entries[i].1.clone()));
            i += 1;
        }
        proof {
            assert forall|q: int| 0 <= q < r@.len() implies self@.contains_key((#[trigger] r@[q]).0@) && self@[r@[q].0@] == r@[q].1@ by {
                assert(r@[q] == self.entries@[q]);
            }
            assert forall|k: Seq<char>| #[trigger] self@.contains_key(k) implies exists|q: int| 0 <= q < r@.len() && r@[q].0@ == k by {
                let q = self.index@[k] as int;
                assert(r@[q] == self.entries@[q]);
            }
        }
        r
    }
}

// ---------------------------------------------------------------------------
// Tallies and progress labels
// ---------------------------------------------------------------------------

/// How one planned download ended.
#[derive(Clone, Copy, PartialEq, Eq, Debug, Structural)]
pub enum DownloadOutcome {
    /// Fetched and saved as a new file.
    Saved,
    /// Its output file already existed.
    Existing,
    /// Fetched, but a file with the same content was already saved.
    DuplicateContent,
    /// Every attempt failed.
    Failed,
}

/// Outcomes counted so far.
pub struct DownloadTally {
    pub saved: u64,
    pub existing: u64,
    pub duplicate_content: u64,
    pub failed: u64,
}

impl DownloadTally {
    pub fn new() -> (t: Self)
        ensures
            t.saved == 0 && t.existing == 0 && t.duplicate_content == 0 && t.failed == 0,
    {
        DownloadTally { saved: 0, existing: 0, duplicate_content: 0, failed: 0 }
    }

    /// Counts one outcome (counts saturate).
    pub fn record(&mut self, o: DownloadOutcome)
        ensures
            final(self).saved == if o == DownloadOutcome::Saved {
                crate::counts::sat_u64(old(self).saved + 1)
            } else {
                old(self).saved
            },
            final(self).existing == if o == DownloadOutcome::Existing {
                crate::counts::sat_u64(old(self).existing + 1)
            } else {
                old(self).existing
            },
            final(self).duplicate_content == if o == DownloadOutcome::DuplicateContent {
                crate::counts::sat_u64(old(self).duplicate_content + 1)
            } else {
                old(self).duplicate_content
            },
            final(self).failed == if o == DownloadOutcome::Failed {
                crate::counts::sat_u64(old(self).failed + 1)
            } else {
                old(self).failed
            },
    {
        match o {
            DownloadOutcome::Saved => self.saved = crate::counts::sat_add(self.saved, 1),
            DownloadOutcome::Existing => self.existing = crate::counts::sat_add(self.existing, 1),
            DownloadOutcome::DuplicateContent => {
                self.duplicate_content = crate::counts::sat_add(self.duplicate_content, 1)
            },
            DownloadOutcome::Failed => self.failed = crate::counts::sat_add(self.failed, 1),
        }
    }
}

/// The outcome of a task whose content hash is known, given whether a file
/// saved under that hash still exists and whether moving the download into
/// place worked: a duplicate when the index has a live file for the hash,
/// else saved when the move worked; `None` when this attempt failed.
pub open spec fn attempt_outcome(indexed_file_exists: bool, moved: bool) -> Option<DownloadOutcome> {
    if indexed_file_exists {
        Some(DownloadOutcome::DuplicateContent)
    } else if moved {
        Some(DownloadOutcome::Saved)
    } else {
        None
    }
}

pub fn decide_attempt(indexed_file_exists: bool, moved: bool) -> (r: Option<DownloadOutcome>)
    ensures
        r == attempt_outcome(indexed_file_exists, moved),
{
    if indexed_file_exists {
        Some(DownloadOutcome::DuplicateContent)
    } else if moved {
        Some(DownloadOutcome::Saved)
    } else {
        None
    }
}

/// How many times a download is tried before it counts as failed.
pub const DOWNLOAD_ATTEMPTS: u32 = 3;

/// Keeps the result of one attempt whose content hash is `hash`: the
/// outcome is `attempt_outcome`; a saved file enters the index under its
/// hash at `out_path` (replacing an older path), and anything else leaves
/// the index as it was. `indexed_file_exists` tells whether the path the
/// index gives for `hash` still holds a file.
pub fn settle_attempt(
    index: &mut HashIndex,
    hash: &str,
    out_path: &str,
    indexed_file_exists: bool,
    moved: bool,
) -> (r: Option<DownloadOutcome>)
    requires
        old(index).wf(),
    ensures
        final(index).wf(),
        final(index).format() == old(index).format(),
        r == attempt_outcome(indexed_file_exists, moved),
        r == Some(DownloadOutcome::Saved) ==> final(index)@ == old(index)@.insert(hash@, out_path@),
        r != Some(DownloadOutcome::Saved) ==> final(index)@ == old(index)@,
{
    let r = decide_attempt(indexed_file_exists, moved);
    if r == Some(DownloadOutcome::Saved) {
        index.insert(hash, out_path);
    }
    r
}

/// Whether another attempt is made after `tried` failed ones.
pub fn attempts_left(tried: u32) -> (r: bool)
    ensures
        r == (tried < DOWNLOAD_ATTEMPTS),
{
    tried < DOWNLOAD_ATTEMPTS
}

/// Content saved once is not saved again, in this run or a later one that
/// reads the index back: after an attempt saves content `h` at `p`, the
/// index gives `p` for `h`, and while that file exists every later attempt
/// fetching content `h` is a duplicate and leaves the index as it is.
pub proof fn lemma_saved_content_not_saved_again(
    i0: Map<Seq<char>, Seq<char>>,
    h: Seq<char>,
    p: Seq<char>,
    moved: bool,
)
    ensures
        i0.insert(h, p).contains_key(h),
        i0.insert(h, p)[h] == p,
        attempt_outcome(true, moved) == Some(DownloadOutcome::DuplicateContent),
{
}

/// `d saved, s existing, c dup-content, f failed, u dup-url`
pub open spec fn tally_text(t: DownloadTally, dup_url: u64) -> Seq<char> {
    decimal(t.saved as nat) + " saved, "@ + decimal(t.existing as nat) + " existing, "@ + decimal(
        t.duplicate_content as nat,
    ) + " dup-content, "@ + decimal(t.failed as nat) + " failed, "@ + decimal(dup_url as nat)
        + " dup-url"@
}

fn push_tally(out: &mut String, t: &DownloadTally, dup_url: u64)
    ensures
        final(out)@ == old(out)@ + tally_text(*t, dup_url),
{
    push_decimal(out, t.saved);
    push_str(out, " saved, ");
    push_decimal(out, t.existing);
    push_str(out, " existing, ");
    push_decimal(out, t.duplicate_content);
    push_str(out, " dup-content, ");
    push_decimal(out, t.failed);
    push_str(out, " failed, ");
    push_decimal(out, dup_url);
    push_str(out, " dup-url");
    assert(final(out)@ =~= old(out)@ + tally_text(*t, dup_url));
}

pub open spec fn progress_label_spec(completed: u64, total: u64, t: DownloadTally, dup_url: u64) -> Seq<char> {
    "Downloading: "@ + decimal(completed as nat) + "/"@ + decimal(total as nat) + " ("@ + tally_text(t, dup_url) + ")"@
}

/// The label shown after each finished task.
pub fn progress_label(completed: u64, total: u64, t: &DownloadTally, dup_url: u64) -> (out: String)
    ensures
        out@ == progress_label_spec(completed, total, *t, dup_url),
{
    let mut out = copy_str("Downloading: ");
    push_decimal(&mut out, completed);
    push_str(&mut out, "/");
    push_decimal(&mut out, total);
    push_str(&mut out, " (");
    push_tally(&mut out, t, dup_url);
    push_str(&mut out, ")");
    assert(out@ =~= progress_label_spec(completed, total, *t, dup_url));
    out
}

pub open spec fn finish_label_spec(t: DownloadTally, dup_url: u64) -> Seq<char> {
    "Download finished. "@ + tally_text(t, dup_url) + "."@
}

/// The label shown when the run is over.
pub fn finish_label(t: &DownloadTally, dup_url: u64) -> (out: String)
    ensures
        out@ == finish_label_spec(*t, dup_url),
{
    let mut out = copy_str("Download finished. ");
    push_tally(&mut out, t, dup_url);
    push_str(&mut out, ".");
    assert(out@ =~= finish_label_spec(*t, dup_url));
    out
}

/// The label when there is nothing to fetch.
pub fn nothing_to_download_label() -> (out: String)
    ensures
        out@ == "No attachments to download."@,
{
    copy_str("No attachments to download.")
}

// ---------------------------------------------------------------------------
// Properties
// ---------------------------------------------------------------------------

/// The trimmed, non-empty links.
pub open spec fn nonblank_links(links: Seq<Seq<char>>) -> nat
    decreases links.len(),
{
    if links.len() == 0 {
        0
    } else {
        nonblank_links(links.drop_last()) + if trim_seq(links.last()).len() > 0 {
            1nat
        } else {
            0nat
        }
    }
}

/// Every non-blank link is either planned or counted as a repeated link.
pub proof fn lemma_links_accounted(links: Seq<Seq<char>>)
    ensures
        unique_links(links).len() + repeated_links(links) == nonblank_links(links),
    decreases links.len(),
{
    if links.len() > 0 {
        lemma_links_accounted(links.drop_last());
    }
}

/// `find_from` finds the first occurrence at or after `i`.
proof fn lemma_find_first(s: Seq<char>, c: char, i: int, k: int)
    requires
        0 <= i <= k < s.len(),
        s[k] == c,
        forall|m: int| i <= m < k ==> s[m] != c,
    ensures
        find_from(s, c, i) == k,
    decreases k - i,
{
    if i < k {
        lemma_find_first(s, c, i + 1, k);
    }
}

/// A link with a query keeps, as its key, the part before the `?`.
proof fn lemma_query_base(u: Seq<char>, t: Seq<char>)
    requires
        forall|m: int| 0 <= m < u.len() ==> u[m] != '?' && u[m] != '#',
    ensures
        before_char(before_char(u + seq!['?'] + t, '#'), '?') == u,
{
    let s = u + seq!['?'] + t;
    lemma_find_from_bounds(s, '#', 0);
    let i = find_from(s, '#', 0);
    assert(i > u.len()) by {
        if i <= u.len() {
            assert(s[i] == '#' || i == s.len());
            assert(s[i] == u[i] || i == u.len());
        }
    }
    let a = s.take(i);
    assert(a[u.len() as int] == '?');
    assert forall|m: int| 0 <= m < u.len() implies a[m] != '?' by {
        assert(a[m] == u[m]);
    }
    lemma_find_first(a, '?', 0, u.len() as int);
    assert(a.take(u.len() as int) =~= u);
}

/// Two links to the same file that differ only in their query (such as
/// an access token) share one key, so the second is dropped as a repeat.
pub proof fn lemma_query_ignored(u: Seq<char>, t1: Seq<char>, t2: Seq<char>)
    requires
        forall|m: int| 0 <= m < u.len() ==> u[m] != '?' && u[m] != '#',
    ensures
        canonical_key_spec(u + seq!['?'] + t1) == canonical_key_spec(u + seq!['?'] + t2),
{
    lemma_query_base(u, t1);
    lemma_query_base(u, t2);
}


/// A lookup gives back the path last recorded for a hash.
pub proof fn lemma_index_read_after_write(before: HashIndex, after: HashIndex, hash: Seq<char>, path: Seq<char>)
    requires
        after@ == before@.insert(hash, path),
    ensures
        after@.contains_key(hash),
        after@[hash] == path,
{
}

/// Once a file is recorded for some content, recording another file with
/// the same content keeps the first: a duplicate never replaces it.
pub proof fn lemma_first_file_kept(
    i0: HashIndex,
    i1: HashIndex,
    i2: HashIndex,
    hash: Seq<char>,
    first: Seq<char>,
    second: Seq<char>,
)
    requires
        i1@ == kept_or_added(i0@, hash, first),
        i2@ == kept_or_added(i1@, hash, second),
    ensures
        i2@.contains_key(hash),
        i2@[hash] == i1@[hash],
        !i0@.contains_key(hash) ==> i2@[hash] == first,
{
}

} // verus!
