//! Verified splitting of file content into lines and joining lines back with
//! a trailing newline, as the PAM sync engine reads and writes the system
//! authentication stack file.

use vstd::prelude::*;
use vstd::string::*;

use crate::strutil::{first_index_of, lemma_first_index_of, lemma_first_index_of_is,
    str_first_index_of, substring_owned};

verus! {

/// A line with a trailing carriage return removed.
pub open spec fn strip_cr(l: Seq<char>) -> Seq<char> {
    if l.len() > 0 && l[l.len() - 1] == '\r' {
        l.drop_last()
    } else {
        l
    }
}

/// The lines of `s`: pieces between newline characters, each with a trailing
/// carriage return removed, and no empty piece after a final newline.
pub open spec fn split_lines_spec(s: Seq<char>) -> Seq<Seq<char>>
    decreases s.len(),
{
    if s.len() == 0 {
        Seq::empty()
    } else {
        let i = first_index_of(s, '\n');
        if 0 <= i < s.len() {
            seq![strip_cr(s.subrange(0, i))] + split_lines_spec(
                s.subrange(i + 1, s.len() as int),
            )
        } else {
            seq![strip_cr(s)]
        }
    }
}

/// Each line followed by one newline, concatenated.
pub open spec fn cat_lines(lines: Seq<Seq<char>>) -> Seq<char>
    decreases lines.len(),
{
    if lines.len() == 0 {
        Seq::empty()
    } else {
        lines[0].push('\n') + cat_lines(lines.drop_first())
    }
}

/// The joined file content: the lines separated by newlines, with one
/// newline appended at the end.
pub open spec fn join_lines_spec(lines: Seq<Seq<char>>) -> Seq<char> {
    if lines.len() == 0 {
        seq!['\n']
    } else {
        cat_lines(lines)
    }
}

proof fn lemma_cat_lines_snoc(lines: Seq<Seq<char>>, i: int)
    requires
        0 <= i < lines.len(),
    ensures
        cat_lines(lines.take(i + 1)) == cat_lines(lines.take(i)) + lines[i].push('\n'),
    decreases i,
{
    if i == 0 {
        assert(lines.take(1).drop_first() =~= Seq::<Seq<char>>::empty());
        assert(lines.take(1)[0] == lines[0]);
        assert(cat_lines(Seq::<Seq<char>>::empty()) =~= Seq::<char>::empty());
        assert(cat_lines(lines.take(1)) == lines.take(1)[0].push('\n') + cat_lines(
            lines.take(1).drop_first(),
        ));
        assert(cat_lines(lines.take(1)) =~= lines[0].push('\n'));
        assert(cat_lines(lines.take(0)) =~= Seq::<char>::empty());
        assert(cat_lines(lines.take(0)) + lines[0].push('\n') =~= lines[0].push('\n'));
    } else {
        let tail = lines.drop_first();
        lemma_cat_lines_snoc(tail, i - 1);
        assert(lines.take(i + 1).drop_first() =~= tail.take(i));
        assert(lines.take(i).drop_first() =~= tail.take(i - 1));
        assert(cat_lines(lines.take(i + 1)) == lines[0].push('\n') + cat_lines(tail.take(i)));
        assert(cat_lines(lines.take(i)) == lines[0].push('\n') + cat_lines(tail.take(i - 1)));
        assert(tail[i - 1] == lines[i]);
        assert(lines[0].push('\n') + (cat_lines(tail.take(i - 1)) + lines[i].push('\n'))
            =~= (lines[0].push('\n') + cat_lines(tail.take(i - 1))) + lines[i].push('\n'));
    }
}

/// Splits file content into lines, as the engine reads the stack file.
pub fn split_lines(s: &str) -> (r: Vec<String>)
    ensures
        r.deep_view() == split_lines_spec(s@),
    decreases s@.len(),
{
    let n = s.unicode_len();
    if n == 0 {
        let r: Vec<String> = Vec::new();
        proof {
            assert(r.deep_view() =~= split_lines_spec(s@));
        }
        return r;
    }
    match str_first_index_of(s, '\n') {
        None => {
            let line = strip_cr_owned(s, n);
            let mut r: Vec<String> = Vec::new();
            r.push(line);
            proof {
                assert(r.deep_view() =~= seq![strip_cr(s@)]);
            }
            r
        },
        Some(i) => {
            let head = substring_owned(s, 0, i);
            let line = strip_cr_of(head);
            let rest = s.substring_char(i + 1, n);
            let mut r = split_lines(rest);
            r.insert(0, line);
            proof {
                assert(r.deep_view() =~= seq![strip_cr(s@.subrange(0, i as int))]
                    + split_lines_spec(s@.subrange(i + 1, s@.len() as int)));
            }
            r
        },
    }
}

/// Removes a trailing carriage return from a borrowed line of length `n`.
fn strip_cr_owned(s: &str, n: usize) -> (r: String)
    requires
        n == s@.len(),
    ensures
        r@ == strip_cr(s@),
{
    if n > 0 && s.get_char(n - 1) == '\r' {
        proof {
            assert(s@.subrange(0, n - 1) =~= s@.drop_last());
        }
        substring_owned(s, 0, n - 1)
    } else {
        String::from_str(s)
    }
}

/// Removes a trailing carriage return from an owned line.
fn strip_cr_of(s: String) -> (r: String)
    ensures
        r@ == strip_cr(s@),
{
    let n = s.as_str().unicode_len();
    strip_cr_owned(s.as_str(), n)
}

/// Joins lines back into file content with a trailing newline, as the engine
/// writes the stack file.
pub fn join_lines(lines: &Vec<String>) -> (r: String)
    ensures
        r@ == join_lines_spec(lines.deep_view()),
{
    let ghost dv = lines.deep_view();
    if lines.len() == 0 {
        let r = String::from_str("\n");
        proof {
            reveal_strlit("\n");
            assert(r@ =~= seq!['\n']);
        }
        return r;
    }
    let mut r = String::new();
    let mut i: usize = 0;
    proof {
        assert(r@ =~= cat_lines(dv.take(0)));
    }
    while i < lines.len()
        invariant
            dv == lines.deep_view(),
            dv.len() == lines@.len(),
            i <= lines@.len(),
            r@ == cat_lines(dv.take(i as int)),
        decreases lines@.len() - i,
    {
        r.append(lines[i].as_str());
        r.append("\n");
        proof {
            reveal_strlit("\n");
            lemma_cat_lines_snoc(dv, i as int);
            assert(dv[i as int] == lines@[i as int]@);
            assert(r@ =~= cat_lines(dv.take(i as int)) + dv[i as int].push('\n'));
        }
        i += 1;
    }
    proof {
        assert(dv.take(dv.len() as int) =~= dv);
    }
    r
}

/// Splitting the joined content recovers the lines: the computational heart
/// of the commit round trip, for line sequences that a split can produce
/// (no embedded newlines, no line ending in a carriage return).
pub proof fn lemma_split_join_round_trip(lines: Seq<Seq<char>>)
    requires
        lines.len() > 0,
        forall|i: int| 0 <= i < lines.len() ==> !lines[i].contains('\n'),
        forall|i: int|
            0 <= i < lines.len() ==> (lines[i].len() == 0 || lines[i][lines[i].len() - 1] != '\r'),
    ensures
        split_lines_spec(join_lines_spec(lines)) == lines,
    decreases lines.len(),
{
    let l0 = lines[0];
    let s = cat_lines(lines);
    assert(s == l0.push('\n') + cat_lines(lines.drop_first()));
    assert(s.len() >= l0.len() + 1);
    assert forall|j: int| 0 <= j < l0.len() implies s[j] != '\n' by {
        assert(s[j] == l0[j]);
        assert(l0[j] != '\n') by {
            if l0[j] == '\n' {
                assert(l0.contains('\n'));
            }
        }
    }
    assert(s[l0.len() as int] == '\n');
    lemma_first_index_of_is(s, '\n', l0.len() as int);
    assert(s.len() > 0) by {
        assert(l0.push('\n').len() == l0.len() + 1);
    }
    let i = first_index_of(s, '\n');
    assert(i == l0.len());
    assert(s.subrange(0, i) =~= l0);
    assert(strip_cr(l0) == l0);
    let rest = s.subrange(i + 1, s.len() as int);
    assert(split_lines_spec(s) == seq![strip_cr(s.subrange(0, i))] + split_lines_spec(
        s.subrange(i + 1, s.len() as int),
    ));
    if lines.len() == 1 {
        assert(cat_lines(lines.drop_first()) =~= Seq::<char>::empty());
        assert(rest =~= Seq::<char>::empty());
        assert(split_lines_spec(Seq::<char>::empty()) =~= Seq::<Seq<char>>::empty());
        assert(split_lines_spec(s) =~= seq![l0]);
        assert(seq![l0] =~= lines);
    } else {
        assert(rest =~= cat_lines(lines.drop_first()));
        assert(lines.drop_first().len() > 0);
        assert forall|k: int| 0 <= k < lines.drop_first().len() implies !lines.drop_first()[k].contains(
            '\n',
        ) by {
            assert(lines.drop_first()[k] == lines[k + 1]);
        }
        assert forall|k: int|
            0 <= k < lines.drop_first().len() implies (lines.drop_first()[k].len() == 0
            || lines.drop_first()[k][lines.drop_first()[k].len() - 1] != '\r') by {
            assert(lines.drop_first()[k] == lines[k + 1]);
        }
        lemma_split_join_round_trip(lines.drop_first());
        assert(join_lines_spec(lines.drop_first()) == rest);
        assert(split_lines_spec(s) =~= seq![l0] + lines.drop_first());
        assert(seq![l0] + lines.drop_first() =~= lines);
    }
}

} // verus!
