//! The PAM sync engine: reconciles a desired enabled/disabled state for the
//! biometric authentication module with the literal lines of the system
//! authentication stack file.

use vstd::prelude::*;
use vstd::string::*;

use crate::lines::{join_lines, join_lines_spec, split_lines, split_lines_spec};
use crate::strutil::{contains_seq, contains_seq_at, str_contains, str_eq};

verus! {

/// The fixed substring identifying the biometric module's line, unique to
/// its shared-object name.
pub open spec fn module_marker() -> Seq<char> {
    "libfacepass_pam.so"@
}

/// The substring identifying the standard Unix password-check module, the
/// insertion anchor.
pub open spec fn unix_marker() -> Seq<char> {
    "pam_unix.so"@
}

/// The canonical module entry: enabled with skip-on-success semantics.
pub open spec fn module_entry() -> Seq<char> {
    "auth\t[success=2 default=ignore]\tlibfacepass_pam.so"@
}

/// The canonical module entry as an owned line.
pub fn pam_module_entry() -> (s: String)
    ensures
        s@ == module_entry(),
{
    String::from_str("auth\t[success=2 default=ignore]\tlibfacepass_pam.so")
}

/// The fixed path of the system-wide authentication stack file.
pub fn pam_config_path() -> (s: &'static str)
    ensures
        s@ == "/etc/pam.d/common-auth"@,
{
    "/etc/pam.d/common-auth"
}

/// The error reported when the stack file is missing: this engine never
/// creates it from scratch.
pub fn pam_file_missing_error() -> (e: crate::errors::NativeError)
    ensures
        e.kind == crate::errors::ErrorKind::NotFound,
        e.message@ == "PAM configuration file not found: /etc/pam.d/common-auth"@,
{
    crate::errors::NativeError::new(
        crate::errors::ErrorKind::NotFound,
        "PAM configuration file not found: /etc/pam.d/common-auth",
    )
}

/// Index of the first line of `lines` that contains `pat`, if any.
pub open spec fn find_line(lines: Seq<Seq<char>>, pat: Seq<char>) -> Option<int>
    decreases lines.len(),
{
    if lines.len() == 0 {
        None
    } else if contains_seq(lines[0], pat) {
        Some(0)
    } else {
        match find_line(lines.drop_first(), pat) {
            Some(i) => Some(i + 1),
            None => None,
        }
    }
}

pub proof fn lemma_find_line(lines: Seq<Seq<char>>, pat: Seq<char>)
    ensures
        match find_line(lines, pat) {
            Some(i) => 0 <= i < lines.len() && contains_seq(lines[i], pat) && forall|j: int|
                0 <= j < i ==> !contains_seq(lines[j], pat),
            None => forall|j: int| 0 <= j < lines.len() ==> !contains_seq(lines[j], pat),
        },
    decreases lines.len(),
{
    if lines.len() != 0 && !contains_seq(lines[0], pat) {
        let tail = lines.drop_first();
        lemma_find_line(tail, pat);
        match find_line(tail, pat) {
            Some(i) => {
                assert(find_line(lines, pat) == Some(i + 1));
                assert(lines[i + 1] == tail[i]);
                assert forall|j: int| 0 <= j < i + 1 implies !contains_seq(lines[j], pat) by {
                    if j > 0 {
                        assert(lines[j] == tail[j - 1]);
                    }
                }
            },
            None => {
                assert forall|j: int| 0 <= j < lines.len() implies !contains_seq(
                    lines[j],
                    pat,
                ) by {
                    if j > 0 {
                        assert(lines[j] == tail[j - 1]);
                    }
                }
            },
        }
    }
}

pub proof fn lemma_find_line_is(lines: Seq<Seq<char>>, pat: Seq<char>, r: Option<int>)
    requires
        match r {
            Some(i) => 0 <= i < lines.len() && contains_seq(lines[i], pat) && forall|j: int|
                0 <= j < i ==> !contains_seq(lines[j], pat),
            None => forall|j: int| 0 <= j < lines.len() ==> !contains_seq(lines[j], pat),
        },
    ensures
        find_line(lines, pat) == r,
{
    lemma_find_line(lines, pat);
    match (find_line(lines, pat), r) {
        (Some(f), Some(i)) => {
            if f < i {
                assert(contains_seq(lines[f], pat));
                assert(false);
            } else if f > i {
                assert(contains_seq(lines[i], pat));
                assert(false);
            }
        },
        (Some(f), None) => {
            assert(contains_seq(lines[f], pat));
            assert(false);
        },
        (None, Some(i)) => {
            assert(contains_seq(lines[i], pat));
            assert(false);
        },
        (None, None) => {},
    }
}

/// The reconciliation step: the minimal line edit that makes the presence of
/// the canonical entry reflect `enabled`, and whether an edit was needed.
pub open spec fn spec_reconcile(lines: Seq<Seq<char>>, enabled: bool) -> (Seq<Seq<char>>, bool) {
    let found = find_line(lines, module_marker());
    if enabled {
        match found {
            Some(i) => if lines[i] == module_entry() {
                (lines, false)
            } else {
                (lines.update(i, module_entry()), true)
            },
            None => match find_line(lines, unix_marker()) {
                Some(u) => (lines.insert(u, module_entry()), true),
                None => (lines.push(module_entry()), true),
            },
        }
    } else {
        match found {
            Some(i) => (lines.remove(i), true),
            None => (lines, false),
        }
    }
}

/// Index of the first line containing `pat`, searched executably.
fn find_line_exec(lines: &Vec<String>, pat: &str) -> (r: Option<usize>)
    ensures
        match r {
            Some(i) => i < lines@.len() && find_line(lines.deep_view(), pat@) == Some(i as int),
            None => find_line(lines.deep_view(), pat@) is None,
        },
{
    let ghost dv = lines.deep_view();
    let mut i: usize = 0;
    while i < lines.len()
        invariant
            dv == lines.deep_view(),
            dv.len() == lines@.len(),
            i <= lines@.len(),
            forall|j: int| 0 <= j < i ==> !contains_seq(dv[j], pat@),
        decreases lines@.len() - i,
    {
        proof {
            assert(dv[i as int] == lines@[i as int]@);
        }
        if str_contains(lines[i].as_str(), pat) {
            proof {
                lemma_find_line_is(dv, pat@, Some(i as int));
            }
            return Some(i);
        }
        i += 1;
    }
    proof {
        lemma_find_line_is(dv, pat@, None);
    }
    None
}

/// Applies the reconciliation step to the lines in place; returns whether
/// anything changed.
pub fn modify_pam_lines(lines: &mut Vec<String>, pam_enabled: bool) -> (changed: bool)
    ensures
        final(lines).deep_view() == spec_reconcile(old(lines).deep_view(), pam_enabled).0,
        changed == spec_reconcile(old(lines).deep_view(), pam_enabled).1,
{
    let ghost dv0 = lines.deep_view();
    let existing = find_line_exec(lines, "libfacepass_pam.so");
    if pam_enabled {
        match existing {
            Some(i) => {
                proof {
                    assert(dv0[i as int] == lines@[i as int]@);
                }
                if str_eq(lines[i].as_str(), "auth\t[success=2 default=ignore]\tlibfacepass_pam.so") {
                    false
                } else {
                    let entry = pam_module_entry();
                    lines.remove(i);
                    lines.insert(i, entry);
                    proof {
                        assert(lines.deep_view() =~= dv0.update(i as int, module_entry())) by {
                            assert(lines@ == old(lines)@.remove(i as int).insert(i as int, entry));
                            old(lines)@.remove_ensures(i as int);
                            old(lines)@.remove(i as int).insert_ensures(i as int, entry);
                            assert(forall|j: int|
                                0 <= j < lines@.len() ==> lines.deep_view()[j] == lines@[j]@);
                        }
                    }
                    true
                }
            },
            None => {
                let entry = pam_module_entry();
                match find_line_exec(lines, "pam_unix.so") {
                    Some(u) => {
                        lines.insert(u, entry);
                        proof {
                            assert(lines.deep_view() =~= dv0.insert(u as int, module_entry())) by {
                                old(lines)@.insert_ensures(u as int, entry);
                                dv0.insert_ensures(u as int, module_entry());
                                assert(forall|j: int|
                                    0 <= j < lines@.len() ==> lines.deep_view()[j] == lines@[j]@);
                            }
                        }
                        true
                    },
                    None => {
                        lines.push(entry);
                        proof {
                            assert(lines.deep_view() =~= dv0.push(module_entry())) by {
                                assert(forall|j: int|
                                    0 <= j < lines@.len() ==> lines.deep_view()[j] == lines@[j]@);
                            }
                        }
                        true
                    },
                }
            },
        }
    } else {
        match existing {
            Some(i) => {
                lines.remove(i);
                proof {
                    assert(lines.deep_view() =~= dv0.remove(i as int)) by {
                        old(lines)@.remove_ensures(i as int);
                        dv0.remove_ensures(i as int);
                        assert(forall|j: int|
                            0 <= j < lines@.len() ==> lines.deep_view()[j] == lines@[j]@);
                    }
                }
                true
            },
            None => false,
        }
    }
}

/// The canonical entry's own text contains the module marker.
pub proof fn lemma_entry_contains_marker()
    ensures
        contains_seq(module_entry(), module_marker()),
{
    reveal_strlit("auth\t[success=2 default=ignore]\tlibfacepass_pam.so");
    reveal_strlit("libfacepass_pam.so");
    assert(module_entry().subrange(32, 50) =~= module_marker());
    assert(contains_seq_at(module_entry(), module_marker(), 32));
}

/// No two distinct lines contain the module marker.
pub open spec fn at_most_one_module_line(lines: Seq<Seq<char>>) -> bool {
    forall|i: int, j: int|
        0 <= i < lines.len() && 0 <= j < lines.len() && contains_seq(
            #[trigger] lines[i],
            module_marker(),
        ) && contains_seq(#[trigger] lines[j], module_marker()) ==> i == j
}

/// Reconciliation is idempotent: a second run with the same intent reports
/// no change and leaves the lines as they are. When disabling, this holds
/// for files that do not carry the module's marker on two distinct lines.
pub proof fn lemma_reconcile_idempotent(lines: Seq<Seq<char>>, enabled: bool)
    requires
        !enabled ==> at_most_one_module_line(lines),
    ensures
        spec_reconcile(spec_reconcile(lines, enabled).0, enabled) == (
            spec_reconcile(lines, enabled).0,
            false,
        ),
{
    lemma_find_line(lines, module_marker());
    lemma_entry_contains_marker();
    let r = spec_reconcile(lines, enabled).0;
    if enabled {
        match find_line(lines, module_marker()) {
            Some(i) => {
                if lines[i] == module_entry() {
                    assert(r == lines);
                } else {
                    assert(r == lines.update(i, module_entry()));
                    assert(r[i] == module_entry());
                    assert forall|j: int| 0 <= j < i implies !contains_seq(
                        r[j],
                        module_marker(),
                    ) by {
                        assert(r[j] == lines[j]);
                    }
                    lemma_find_line_is(r, module_marker(), Some(i));
                }
            },
            None => {
                match find_line(lines, unix_marker()) {
                    Some(u) => {
                        lemma_find_line(lines, unix_marker());
                        assert(r == lines.insert(u, module_entry()));
                        lines.insert_ensures(u, module_entry());
                        assert(r[u] == module_entry());
                        assert forall|j: int| 0 <= j < u implies !contains_seq(
                            r[j],
                            module_marker(),
                        ) by {
                            assert(r[j] == lines[j]);
                        }
                        lemma_find_line_is(r, module_marker(), Some(u));
                    },
                    None => {
                        assert(r == lines.push(module_entry()));
                        let n = lines.len() as int;
                        assert(r[n] == module_entry());
                        assert forall|j: int| 0 <= j < n implies !contains_seq(
                            r[j],
                            module_marker(),
                        ) by {
                            assert(r[j] == lines[j]);
                        }
                        lemma_find_line_is(r, module_marker(), Some(n));
                    },
                }
            },
        }
    } else {
        match find_line(lines, module_marker()) {
            Some(i) => {
                assert(r == lines.remove(i));
                lines.remove_ensures(i);
                assert forall|j: int| 0 <= j < r.len() implies !contains_seq(
                    r[j],
                    module_marker(),
                ) by {
                    if j < i {
                        assert(r[j] == lines[j]);
                    } else {
                        assert(r[j] == lines[j + 1]);
                        if contains_seq(lines[j + 1], module_marker()) {
                            assert(j + 1 == i);
                        }
                    }
                }
                lemma_find_line_is(r, module_marker(), None);
            },
            None => {
                assert(r == lines);
            },
        }
    }
}

/// When enabling on lines that carry no module entry yet, the canonical
/// entry lands strictly before the first Unix password-check line; with no
/// such anchor it is appended last.
pub proof fn lemma_insertion_position(lines: Seq<Seq<char>>)
    requires
        find_line(lines, module_marker()) is None,
    ensures
        match find_line(lines, unix_marker()) {
            Some(u) => {
                let r = spec_reconcile(lines, true).0;
                &&& r.len() == lines.len() + 1
                &&& r[u] == module_entry()
                &&& r[u + 1] == lines[u]
                &&& contains_seq(r[u + 1], unix_marker())
            },
            None => spec_reconcile(lines, true).0 == lines.push(module_entry()),
        },
{
    match find_line(lines, unix_marker()) {
        Some(u) => {
            lemma_find_line(lines, unix_marker());
            lines.insert_ensures(u, module_entry());
        },
        None => {},
    }
}

/// The whole textual update the engine performs on the stack file's content:
/// split into lines, reconcile, join with a trailing newline. Returns the
/// new content and whether the file needs to be committed at all.
pub fn apply_pam_update(content: &str, pam_enabled: bool) -> (r: (String, bool))
    ensures
        r.1 == spec_reconcile(split_lines_spec(content@), pam_enabled).1,
        r.0@ == join_lines_spec(spec_reconcile(split_lines_spec(content@), pam_enabled).0),
{
    let mut lines = split_lines(content);
    let changed = modify_pam_lines(&mut lines, pam_enabled);
    let joined = join_lines(&lines);
    (joined, changed)
}

} // verus!
