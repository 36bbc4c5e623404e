//! The commit protocol of the PAM sync engine: deciding whether a write is
//! privileged, naming the backup sibling, building the single elevated
//! command, and the backed-up write itself, proved against a file-store
//! model that the unverified executor mirrors step for step.

use vstd::prelude::*;
use vstd::string::*;

use crate::errors::{ErrorKind, NativeError};
use crate::strutil::{contains_seq_at, last_index_of, str_eq, str_last_index_of, str_starts_with,
    substring_owned};

verus! {

/// A path under the system-wide protected configuration directory: writes
/// there are privileged.
pub open spec fn protected_path(p: Seq<char>) -> bool {
    contains_seq_at(p, "/etc/"@, 0)
}

/// Whether a write to `path` needs privilege elevation.
pub fn is_protected_path(path: &str) -> (r: bool)
    ensures
        r == protected_path(path@),
{
    str_starts_with(path, "/etc/")
}

/// The file name of the staged copy placed in the temporary directory for a
/// privileged commit.
pub fn pam_staging_filename() -> (s: &'static str)
    ensures
        s@ == "facepass_pam_config_tmp"@,
{
    "facepass_pam_config_tmp"
}

/// The last path component of `p`.
pub open spec fn file_name_of(p: Seq<char>) -> Seq<char> {
    p.subrange(last_index_of(p, '/') + 1, p.len() as int)
}

/// The backup sibling of `p`: the extension of its file name replaced by
/// `bak`, or `.bak` appended when the name has none (a leading dot alone
/// does not begin an extension).
pub open spec fn spec_backup_path(p: Seq<char>) -> Seq<char> {
    let s = last_index_of(p, '/');
    let d = last_index_of(file_name_of(p), '.');
    if d >= 1 {
        p.subrange(0, s + 1 + d) + ".bak"@
    } else {
        p + ".bak"@
    }
}

/// Names the backup sibling of `path`.
pub fn backup_path_for(path: &str) -> (r: String)
    ensures
        r@ == spec_backup_path(path@),
{
    let n = path.unicode_len();
    let start: usize = match str_last_index_of(path, '/') {
        Some(i) => i + 1,
        None => 0,
    };
    proof {
        assert(start as int == last_index_of(path@, '/') + 1);
    }
    let name = path.substring_char(start, n);
    proof {
        assert(name@ == file_name_of(path@));
    }
    let mut r: String = match str_last_index_of(name, '.') {
        Some(d) if d >= 1 => substring_owned(path, 0, start + d),
        _ => String::from_str(path),
    };
    r.append(".bak");
    r
}

/// `p` already ends in the backup suffix.
pub open spec fn ends_with_bak(p: Seq<char>) -> bool {
    contains_seq_at(p, ".bak"@, p.len() - 4)
}

/// A path that does not already end in the backup suffix never collides
/// with its own backup sibling.
pub proof fn lemma_backup_path_differs(p: Seq<char>)
    requires
        !ends_with_bak(p),
    ensures
        spec_backup_path(p) != p,
{
    reveal_strlit(".bak");
    let b = spec_backup_path(p);
    let s = last_index_of(p, '/');
    let d = last_index_of(file_name_of(p), '.');
    crate::strutil::lemma_last_index_of(p, '/');
    crate::strutil::lemma_last_index_of(file_name_of(p), '.');
    if b == p {
        if d >= 1 {
            assert(b.len() == s + 1 + d + 4);
            assert forall|t: int| 0 <= t < 4 implies p[p.len() - 4 + t] == ".bak"@[t] by {
                assert(b[s + 1 + d + t] == ".bak"@[t]);
            }
            assert(p.subrange(p.len() - 4, p.len() as int) =~= ".bak"@);
            assert(ends_with_bak(p));
        } else {
            assert(b.len() == p.len() + 4);
        }
    }
}

/// The shell command run under one elevation prompt: back the target up if
/// it exists, then install the staged file over it.
pub open spec fn spec_elevation_script(p: Seq<char>, temp: Seq<char>, target_exists: bool) -> Seq<
    char,
> {
    let install = "cp "@ + temp + " "@ + p;
    if target_exists {
        "cp "@ + p + " "@ + spec_backup_path(p) + " && "@ + install
    } else {
        install
    }
}

/// Builds the elevated two-step (or one-step) command.
pub fn elevation_script(path: &str, temp_path: &str, target_exists: bool) -> (s: String)
    ensures
        s@ == spec_elevation_script(path@, temp_path@, target_exists),
{
    let mut s = String::new();
    if target_exists {
        s.append("cp ");
        s.append(path);
        s.append(" ");
        let bak = backup_path_for(path);
        s.append(bak.as_str());
        s.append(" && ");
    }
    s.append("cp ");
    s.append(temp_path);
    s.append(" ");
    s.append(path);
    proof {
        assert(s@ =~= spec_elevation_script(path@, temp_path@, target_exists));
    }
    s
}

/// The error surfaced verbatim when the elevation prompt is refused or the
/// elevated command fails.
pub fn elevation_denied_error() -> (e: NativeError)
    ensures
        e.kind == ErrorKind::PermissionDenied,
        e.message@ == "Failed to write config with elevated privileges. User might have cancelled."@,
{
    NativeError::new(
        ErrorKind::PermissionDenied,
        "Failed to write config with elevated privileges. User might have cancelled.",
    )
}

/// One file of the store model.
pub struct FileEntry {
    pub path: String,
    pub content: String,
}

/// The content filed under `p`, scanning from the front.
pub open spec fn lookup_entries(entries: Seq<FileEntry>, p: Seq<char>) -> Option<Seq<char>>
    decreases entries.len(),
{
    if entries.len() == 0 {
        None
    } else if entries[0].path@ == p {
        Some(entries[0].content@)
    } else {
        lookup_entries(entries.drop_first(), p)
    }
}

/// The map a sequence of entries stores.
pub open spec fn store_map(entries: Seq<FileEntry>) -> Map<Seq<char>, Seq<char>> {
    Map::new(
        |p: Seq<char>| lookup_entries(entries, p) is Some,
        |p: Seq<char>|
            match lookup_entries(entries, p) {
                Some(c) => c,
                None => Seq::empty(),
            },
    )
}

proof fn lemma_lookup_update(a: Seq<FileEntry>, i: int, e: FileEntry, q: Seq<char>)
    requires
        0 <= i < a.len(),
        a[i].path@ == e.path@,
        forall|j: int| 0 <= j < i ==> a[j].path@ != e.path@,
    ensures
        lookup_entries(a.update(i, e), q) == if q == e.path@ {
            Some(e.content@)
        } else {
            lookup_entries(a, q)
        },
    decreases i,
{
    let b = a.update(i, e);
    if i == 0 {
        assert(b[0] == e);
        if q != e.path@ {
            assert(b.drop_first() =~= a.drop_first());
        }
    } else {
        assert(b[0] == a[0]);
        assert(a[0].path@ != e.path@);
        if q == a[0].path@ {
        } else {
            assert(b.drop_first() =~= a.drop_first().update(i - 1, e));
            assert forall|j: int| 0 <= j < i - 1 implies a.drop_first()[j].path@ != e.path@ by {
                assert(a.drop_first()[j] == a[j + 1]);
            }
            lemma_lookup_update(a.drop_first(), i - 1, e, q);
        }
    }
}

proof fn lemma_lookup_push(a: Seq<FileEntry>, e: FileEntry, q: Seq<char>)
    requires
        forall|j: int| 0 <= j < a.len() ==> a[j].path@ != e.path@,
    ensures
        lookup_entries(a.push(e), q) == if q == e.path@ {
            Some(e.content@)
        } else {
            lookup_entries(a, q)
        },
    decreases a.len(),
{
    let b = a.push(e);
    if a.len() == 0 {
        assert(b.len() == 1);
        assert(b[0] == e);
        if q != e.path@ {
            assert(b.drop_first() =~= Seq::<FileEntry>::empty());
            assert(lookup_entries(Seq::<FileEntry>::empty(), q) is None);
            assert(lookup_entries(b, q) is None);
            assert(lookup_entries(a, q) is None) by {
                assert(a =~= Seq::<FileEntry>::empty());
            }
        }
    } else {
        assert(b[0] == a[0]);
        assert(a[0].path@ != e.path@);
        if q == a[0].path@ {
        } else {
            assert(b.drop_first() =~= a.drop_first().push(e));
            assert forall|j: int| 0 <= j < a.drop_first().len() implies a.drop_first()[j].path@
                != e.path@ by {
                assert(a.drop_first()[j] == a[j + 1]);
            }
            lemma_lookup_push(a.drop_first(), e, q);
        }
    }
}

proof fn lemma_lookup_first(entries: Seq<FileEntry>, p: Seq<char>, i: int)
    requires
        0 <= i < entries.len(),
        entries[i].path@ == p,
        forall|j: int| 0 <= j < i ==> entries[j].path@ != p,
    ensures
        lookup_entries(entries, p) == Some(entries[i].content@),
    decreases i,
{
    if i > 0 {
        assert forall|j: int| 0 <= j < i - 1 implies entries.drop_first()[j].path@ != p by {
            assert(entries.drop_first()[j] == entries[j + 1]);
        }
        assert(entries.drop_first()[i - 1] == entries[i]);
        lemma_lookup_first(entries.drop_first(), p, i - 1);
    }
}

proof fn lemma_lookup_none(entries: Seq<FileEntry>, p: Seq<char>)
    requires
        forall|j: int| 0 <= j < entries.len() ==> entries[j].path@ != p,
    ensures
        lookup_entries(entries, p) is None,
    decreases entries.len(),
{
    if entries.len() > 0 {
        assert forall|j: int| 0 <= j < entries.drop_first().len() implies entries.drop_first()[j].path@
            != p by {
            assert(entries.drop_first()[j] == entries[j + 1]);
        }
        lemma_lookup_none(entries.drop_first(), p);
    }
}

proof fn lemma_contents_insert(pre: Seq<FileEntry>, post: Seq<FileEntry>, p: Seq<char>, c: Seq<
    char,
>)
    requires
        forall|q: Seq<char>| #[trigger] lookup_entries(post, q) == if q == p {
            Some(c)
        } else {
            lookup_entries(pre, q)
        },
    ensures
        store_map(post) == store_map(pre).insert(p, c),
{
    let m0 = store_map(pre);
    let m1 = store_map(post);
    assert forall|q: Seq<char>| m1.dom().contains(q) == m0.insert(p, c).dom().contains(q) by {
        assert(lookup_entries(post, q) == if q == p {
            Some(c)
        } else {
            lookup_entries(pre, q)
        });
    }
    assert forall|q: Seq<char>| m1.dom().contains(q) implies m1[q] == m0.insert(p, c)[q] by {
        assert(lookup_entries(post, q) == if q == p {
            Some(c)
        } else {
            lookup_entries(pre, q)
        });
    }
    assert(m1 =~= m0.insert(p, c));
}

/// An in-memory model of the files the commit protocol touches; the
/// unverified executor performs the same steps against the real file system.
pub struct FileStore {
    entries: Vec<FileEntry>,
}

impl FileStore {
    /// The files the store holds, by path.
    pub closed spec fn contents(&self) -> Map<Seq<char>, Seq<char>> {
        store_map(self.entries@)
    }

    /// An empty store.
    pub fn new() -> (s: FileStore)
        ensures
            s.contents() == Map::<Seq<char>, Seq<char>>::empty(),
    {
        let s = FileStore { entries: Vec::new() };
        proof {
            assert(s.contents() =~= Map::<Seq<char>, Seq<char>>::empty());
        }
        s
    }

    fn find_index(&self, path: &str) -> (r: Option<usize>)
        ensures
            match r {
                Some(i) => i < self.entries@.len() && self.entries@[i as int].path@ == path@
                    && forall|j: int| 0 <= j < i ==> self.entries@[j].path@ != path@,
                None => forall|j: int| 0 <= j < self.entries@.len() ==> self.entries@[j].path@
                    != path@,
            },
    {
        let mut i: usize = 0;
        while i < self.entries.len()
            invariant
                i <= self.entries@.len(),
                forall|j: int| 0 <= j < i ==> self.entries@[j].path@ != path@,
            decreases self.entries@.len() - i,
        {
            if str_eq(self.entries[i].path.as_str(), path) {
                return Some(i);
            }
            i += 1;
        }
        None
    }

    /// Reads the content filed under `path`, if any.
    pub fn read(&self, path: &str) -> (r: Option<String>)
        ensures
            match r {
                Some(c) => self.contents().contains_key(path@) && c@ == self.contents()[path@],
                None => !self.contents().contains_key(path@),
            },
    {
        match self.find_index(path) {
            Some(i) => {
                proof {
                    lemma_lookup_first(self.entries@, path@, i as int);
                }
                Some(self.entries[i].content.clone())
            },
            None => {
                proof {
                    lemma_lookup_none(self.entries@, path@);
                }
                None
            },
        }
    }

    /// Whether a file is filed under `path`.
    pub fn exists_file(&self, path: &str) -> (r: bool)
        ensures
            r == self.contents().contains_key(path@),
    {
        match self.find_index(path) {
            Some(i) => {
                proof {
                    lemma_lookup_first(self.entries@, path@, i as int);
                }
                true
            },
            None => {
                proof {
                    lemma_lookup_none(self.entries@, path@);
                }
                false
            },
        }
    }

    /// Files `content` under `path`, replacing what was there.
    pub fn write(&mut self, path: &str, content: &str)
        ensures
            final(self).contents() == old(self).contents().insert(path@, content@),
    {
        let ghost pre = self.entries@;
        let e = FileEntry { path: String::from_str(path), content: String::from_str(content) };
        match self.find_index(path) {
            Some(i) => {
                self.entries.remove(i);
                self.entries.insert(i, e);
                proof {
                    assert(self.entries@ =~= pre.update(i as int, self.entries@[i as int]));
                    let en = self.entries@[i as int];
                    assert(en.path@ == path@ && en.content@ == content@);
                    assert forall|q: Seq<char>| #[trigger] lookup_entries(self.entries@, q) == (
                    if q == path@ {
                        Some(content@)
                    } else {
                        lookup_entries(pre, q)
                    }) by {
                        lemma_lookup_update(pre, i as int, en, q);
                    }
                    lemma_contents_insert(pre, self.entries@, path@, content@);
                }
            },
            None => {
                self.entries.push(e);
                proof {
                    let en = self.entries@[pre.len() as int];
                    assert(self.entries@ =~= pre.push(en));
                    assert(en.path@ == path@ && en.content@ == content@);
                    assert forall|q: Seq<char>| #[trigger] lookup_entries(self.entries@, q) == (
                    if q == path@ {
                        Some(content@)
                    } else {
                        lookup_entries(pre, q)
                    }) by {
                        lemma_lookup_push(pre, en, q);
                    }
                    lemma_contents_insert(pre, self.entries@, path@, content@);
                }
            },
        }
    }
}

/// What one commit does to the stored files: a backup copy of the
/// pre-existing target under its backup sibling, then the new content under
/// the target; a first-time write creates no backup.
pub open spec fn spec_commit(
    m: Map<Seq<char>, Seq<char>>,
    p: Seq<char>,
    c: Seq<char>,
) -> Map<Seq<char>, Seq<char>> {
    if m.contains_key(p) {
        m.insert(spec_backup_path(p), m[p]).insert(p, c)
    } else {
        m.insert(p, c)
    }
}

impl FileStore {
    /// Commits `content` under `path` with the backup step of the protocol.
    pub fn commit_with_backup(&mut self, path: &str, content: &str)
        ensures
            final(self).contents() == spec_commit(old(self).contents(), path@, content@),
    {
        match self.read(path) {
            Some(prev) => {
                let bak = backup_path_for(path);
                self.write(bak.as_str(), prev.as_str());
                self.write(path, content);
            },
            None => {
                self.write(path, content);
            },
        }
    }
}

/// After a commit, the committed path reads back exactly the committed
/// content.
pub proof fn lemma_commit_round_trip(m: Map<Seq<char>, Seq<char>>, p: Seq<char>, c: Seq<char>)
    ensures
        spec_commit(m, p, c).contains_key(p),
        spec_commit(m, p, c)[p] == c,
{
}

/// After two successive commits to the same pre-existing path, the backup
/// holds the content written by the first commit, not the second.
pub proof fn lemma_backup_after_recommit(
    m: Map<Seq<char>, Seq<char>>,
    p: Seq<char>,
    c1: Seq<char>,
    c2: Seq<char>,
)
    requires
        m.contains_key(p),
        spec_backup_path(p) != p,
    ensures
        spec_commit(spec_commit(m, p, c1), p, c2)[spec_backup_path(p)] == c1,
{
}

} // verus!
