//! The model download manager's verified core: deriving a candidate file
//! name from a URL, resolving name collisions with a numbered suffix, and
//! accounting for streamed progress.

use vstd::prelude::*;
use vstd::seq_lib::seq_to_set_is_finite;
use vstd::set_lib::lemma_len_subset;
use vstd::string::*;

use crate::numfmt::{dec_repr, lemma_dec_repr_injective, u128_to_dec_string};
use crate::strutil::{first_index_of, last_index_of, str_eq, str_first_index_of,
    str_last_index_of, substring_owned};

verus! {

/// The fixed fallback name when a URL yields no file name.
pub open spec fn default_model_filename() -> Seq<char> {
    "model.onnx"@
}

/// The candidate file name for a URL: its last path segment, stripped of any
/// query string, or the fixed default when that is empty.
pub open spec fn spec_derive_filename(url: Seq<char>) -> Seq<char> {
    let seg = url.subrange(last_index_of(url, '/') + 1, url.len() as int);
    let cand = seg.subrange(0, first_index_of(seg, '?'));
    if cand.len() == 0 {
        default_model_filename()
    } else {
        cand
    }
}

/// Derives the candidate file name from a URL.
pub fn derive_filename(url: &str) -> (name: String)
    ensures
        name@ == spec_derive_filename(url@),
        name@.len() > 0,
{
    let n = url.unicode_len();
    let start: usize = match str_last_index_of(url, '/') {
        Some(i) => i + 1,
        None => 0,
    };
    proof {
        assert(start as int == last_index_of(url@, '/') + 1);
    }
    let seg = url.substring_char(start, n);
    let m = seg.unicode_len();
    let q: usize = match str_first_index_of(seg, '?') {
        Some(i) => i,
        None => m,
    };
    proof {
        assert(q as int == first_index_of(seg@, '?'));
    }
    let cand = substring_owned(seg, 0, q);
    if q == 0 {
        let fallback = String::from_str("model.onnx");
        proof {
            reveal_strlit("model.onnx");
        }
        fallback
    } else {
        cand
    }
}

/// Index of the dot that separates a plain file name from its extension:
/// the last dot, unless it is the leading character, in which case the name
/// has no extension.
pub open spec fn ext_dot_index(name: Seq<char>) -> int {
    let d = last_index_of(name, '.');
    if d >= 1 {
        d
    } else {
        -1
    }
}

/// The file name without its extension.
pub open spec fn spec_file_stem(name: Seq<char>) -> Seq<char> {
    if ext_dot_index(name) >= 0 {
        name.subrange(0, ext_dot_index(name))
    } else {
        name
    }
}

/// The file name's extension, or the fixed default when it has none.
pub open spec fn spec_file_ext_or_default(name: Seq<char>) -> Seq<char> {
    if ext_dot_index(name) >= 0 {
        name.subrange(ext_dot_index(name) + 1, name.len() as int)
    } else {
        "onnx"@
    }
}

/// The `n`-th alternative for a colliding file name: the counter in
/// parentheses between stem and extension.
pub open spec fn spec_numbered_name(name: Seq<char>, n: nat) -> Seq<char> {
    spec_file_stem(name) + " ("@ + dec_repr(n) + ")."@ + spec_file_ext_or_default(name)
}

/// Builds the `n`-th alternative name.
fn numbered_name(name: &str, n: u128) -> (r: String)
    ensures
        r@ == spec_numbered_name(name@, n as nat),
{
    let len = name.unicode_len();
    let mut s: String = match str_last_index_of(name, '.') {
        Some(d) if d >= 1 => {
            proof {
                assert(ext_dot_index(name@) == d as int);
            }
            substring_owned(name, 0, d)
        },
        _ => {
            proof {
                assert(ext_dot_index(name@) == -1);
            }
            String::from_str(name)
        },
    };
    s.append(" (");
    let num = u128_to_dec_string(n);
    s.append(num.as_str());
    s.append(").");
    match str_last_index_of(name, '.') {
        Some(d) if d >= 1 => {
            let ext = name.substring_char(d + 1, len);
            s.append(ext);
        },
        _ => {
            s.append("onnx");
        },
    };
    proof {
        assert(s@ =~= spec_numbered_name(name@, n as nat));
    }
    s
}

/// Whether one of the existing names equals `name`, character for character.
fn contains_name(existing: &Vec<String>, name: &str) -> (r: bool)
    ensures
        r == existing.deep_view().contains(name@),
{
    let ghost names = existing.deep_view();
    let mut i: usize = 0;
    while i < existing.len()
        invariant
            names == existing.deep_view(),
            names.len() == existing@.len(),
            i <= existing@.len(),
            forall|j: int| 0 <= j < i ==> names[j] != name@,
        decreases existing@.len() - i,
    {
        proof {
            assert(names[i as int] == existing@[i as int]@);
        }
        if str_eq(existing[i].as_str(), name) {
            return true;
        }
        i += 1;
    }
    proof {
        if names.contains(name@) {
            let j = choose|j: int| 0 <= j < names.len() && names[j] == name@;
            assert(false);
        }
    }
    false
}

proof fn lemma_numbered_name_injective(name: Seq<char>, a: nat, b: nat)
    requires
        spec_numbered_name(name, a) == spec_numbered_name(name, b),
    ensures
        a == b,
{
    let p = spec_file_stem(name) + " ("@;
    let ta = spec_numbered_name(name, a);
    let tb = spec_numbered_name(name, b);
    let da = dec_repr(a);
    let db = dec_repr(b);
    assert(ta.len() == p.len() + da.len() + ")."@.len() + spec_file_ext_or_default(name).len());
    assert(tb.len() == p.len() + db.len() + ")."@.len() + spec_file_ext_or_default(name).len());
    assert(da.len() == db.len());
    assert forall|i: int| 0 <= i < da.len() implies da[i] == db[i] by {
        assert(ta[p.len() + i] == da[i]);
        assert(tb[p.len() + i] == db[i]);
    }
    assert(da =~= db);
    lemma_dec_repr_injective(a, b);
}

proof fn lemma_candidates_bound(names: Seq<Seq<char>>, base: Seq<char>, k: nat)
    requires
        forall|m: nat| 1 <= m < k ==> names.contains(#[trigger] spec_numbered_name(base, m)),
        k >= 1,
    ensures
        k <= names.len() + 1,
{
    let cands = Seq::new((k - 1) as nat, |i: int| spec_numbered_name(base, (i + 1) as nat));
    assert(cands.no_duplicates()) by {
        assert forall|i: int, j: int|
            0 <= i < cands.len() && 0 <= j < cands.len() && i != j implies cands[i] != cands[j] by {
            if cands[i] == cands[j] {
                lemma_numbered_name_injective(base, (i + 1) as nat, (j + 1) as nat);
            }
        }
    }
    cands.unique_seq_to_set();
    assert(cands.to_set().subset_of(names.to_set())) by {
        assert forall|x: Seq<char>| cands.to_set().contains(x) implies names.to_set().contains(
            x,
        ) by {
            let i = choose|i: int| 0 <= i < cands.len() && cands[i] == x;
            assert(names.contains(spec_numbered_name(base, (i + 1) as nat)));
        }
    }
    seq_to_set_is_finite(names);
    lemma_len_subset(cands.to_set(), names.to_set());
    names.lemma_cardinality_of_set();
}

/// Resolves a collision-free destination name: the candidate itself when it
/// is not taken, else the first numbered alternative that is free, counting
/// from 1.
pub fn resolve_filename(filename: &str, existing: &Vec<String>) -> (r: String)
    ensures
        !existing.deep_view().contains(r@),
        !existing.deep_view().contains(filename@) ==> r@ == filename@,
        existing.deep_view().contains(filename@) ==> exists|n: nat|
            {
                &&& 1 <= n
                &&& r@ == #[trigger] spec_numbered_name(filename@, n)
                &&& forall|m: nat|
                    1 <= m < n ==> existing.deep_view().contains(
                        #[trigger] spec_numbered_name(filename@, m),
                    )
            },
{
    let ghost names = existing.deep_view();
    proof {
        assert(names.len() == existing@.len());
    }
    if !contains_name(existing, filename) {
        return String::from_str(filename);
    }
    let elen = existing.len();
    let mut counter: u128 = 1;
    loop
        invariant
            names == existing.deep_view(),
            names.len() == existing@.len(),
            names.len() == elen,
            names.contains(filename@),
            1 <= counter,
            counter as nat <= names.len() + 1,
            forall|m: nat|
                1 <= m < counter as nat ==> names.contains(#[trigger] spec_numbered_name(
                    filename@,
                    m,
                )),
        decreases names.len() + 1 - counter,
    {
        let cand = numbered_name(filename, counter);
        if !contains_name(existing, cand.as_str()) {
            return cand;
        }
        proof {
            lemma_candidates_bound(names, filename@, (counter + 1) as nat);
        }
        counter += 1;
    }
}

/// One download's bookkeeping: where it goes and how far it has come.
pub struct DownloadJob {
    pub url: String,
    pub dest_path: String,
    pub total: Option<u64>,
    pub downloaded: u64,
}

/// The integer percentage reported for a partial transfer: zero while the
/// total size is unknown (or zero), otherwise the transferred share capped
/// at one hundred.
pub open spec fn spec_progress_percent(total: Option<u64>, downloaded: u64) -> int {
    match total {
        Some(t) => if t > 0 {
            if downloaded * 100 / (t as int) > 100 {
                100int
            } else {
                downloaded * 100 / (t as int)
            }
        } else {
            0
        },
        None => 0,
    }
}

impl DownloadJob {
    /// Starts the bookkeeping for one download: nothing transferred, total
    /// unknown until response headers arrive.
    pub fn new(url: String, dest_path: String) -> (job: DownloadJob)
        ensures
            job.url == url,
            job.dest_path == dest_path,
            job.total is None,
            job.downloaded == 0,
    {
        DownloadJob { url, dest_path, total: None, downloaded: 0 }
    }

    /// Records the total size announced by the response headers, if any.
    pub fn set_total(&mut self, total: Option<u64>)
        ensures
            final(self).url == old(self).url,
            final(self).dest_path == old(self).dest_path,
            final(self).total == total,
            final(self).downloaded == old(self).downloaded,
    {
        self.total = total;
    }

    /// Accounts for one received chunk; the cumulative count never
    /// decreases.
    pub fn record_chunk(&mut self, len: u64)
        requires
            old(self).downloaded + len <= u64::MAX,
        ensures
            final(self).url == old(self).url,
            final(self).dest_path == old(self).dest_path,
            final(self).total == old(self).total,
            final(self).downloaded == old(self).downloaded + len,
    {
        self.downloaded = self.downloaded + len;
    }

    /// The percentage carried by a progress event.
    pub fn progress_percent(&self) -> (p: u64)
        ensures
            p == spec_progress_percent(self.total, self.downloaded),
            p <= 100,
    {
        match self.total {
            Some(t) => {
                if t > 0 {
                    let raw: u128 = (self.downloaded as u128) * 100 / (t as u128);
                    proof {
                        assert(raw == self.downloaded * 100 / (t as int));
                    }
                    if raw > 100 {
                        100
                    } else {
                        raw as u64
                    }
                } else {
                    0
                }
            },
            None => 0,
        }
    }

    /// The progress event for the current state.
    pub fn progress_event(&self) -> (e: DownloadProgress)
        ensures
            e.url == self.url,
            e.path == self.dest_path,
            e.progress == spec_progress_percent(self.total, self.downloaded),
            e.total == self.total,
            e.downloaded == self.downloaded,
    {
        DownloadProgress {
            url: self.url.clone(),
            path: self.dest_path.clone(),
            progress: self.progress_percent(),
            total: self.total,
            downloaded: self.downloaded,
        }
    }
}

/// The payload of one progress event, emitted per received chunk.
pub struct DownloadProgress {
    pub url: String,
    pub path: String,
    pub progress: u64,
    pub total: Option<u64>,
    pub downloaded: u64,
}

/// The payload of the single terminal event of a download: exactly one of
/// destination path and error message is populated.
pub struct DownloadFinished {
    pub url: String,
    pub path: Option<String>,
    pub error: Option<String>,
}

/// The terminal payload is well formed: exactly one of path and error.
pub open spec fn finished_wf(e: DownloadFinished) -> bool {
    (e.path is Some) <==> (e.error is None)
}

/// The terminal event of a completed download.
pub fn finished_success(url: String, path: String) -> (e: DownloadFinished)
    ensures
        finished_wf(e),
        e.url == url,
        e.path == Some(path),
        e.error is None,
{
    DownloadFinished { url, path: Some(path), error: None }
}

/// The terminal event of a failed download; the partial file stays in place.
pub fn finished_failure(url: String, error: String) -> (e: DownloadFinished)
    ensures
        finished_wf(e),
        e.url == url,
        e.path is None,
        e.error == Some(error),
{
    DownloadFinished { url, path: None, error: Some(error) }
}

/// The number of bytes a download has received after a sequence of chunks.
pub open spec fn sum_chunks(lens: Seq<u64>) -> int
    decreases lens.len(),
{
    if lens.len() == 0 {
        0
    } else {
        sum_chunks(lens.drop_last()) + lens.last()
    }
}

/// The cumulative byte counts a download reports are non-decreasing over the
/// received chunks, and after all chunks the count equals the total number
/// of bytes handed to the destination file.
pub proof fn lemma_progress_monotonic(lens: Seq<u64>, i: int, j: int)
    requires
        0 <= i <= j <= lens.len(),
    ensures
        sum_chunks(lens.take(i)) <= sum_chunks(lens.take(j)),
        sum_chunks(lens.take(lens.len() as int)) == sum_chunks(lens),
    decreases j - i,
{
    assert(lens.take(lens.len() as int) =~= lens);
    if i < j {
        lemma_progress_monotonic(lens, i, j - 1);
        assert(lens.take(j).drop_last() =~= lens.take(j - 1));
        assert(sum_chunks(lens.take(j)) == sum_chunks(lens.take(j - 1)) + lens[j - 1]);
    }
}

} // verus!
