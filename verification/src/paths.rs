//! Path handling: extracting the extension of a path and comparing paths
//! lexicographically, both stated over the paths' character sequences.

use vstd::prelude::*;
use vstd::string::StrSliceExecFns;

verus! {

/// The index of the last occurrence of `c` in `s`, or -1 when `c` does not
/// occur.
pub open spec fn last_occurrence(s: Seq<char>, c: char) -> int
    decreases s.len(),
{
    if s.len() == 0 {
        -1
    } else if s.last() == c {
        s.len() - 1
    } else {
        last_occurrence(s.drop_last(), c)
    }
}

/// The final path component: everything after the last separator, or the
/// whole path when it has none.
pub open spec fn file_name_of(p: Seq<char>) -> Seq<char> {
    p.skip(last_occurrence(p, '/') + 1)
}

/// The extension of a path: the substring of its file name after the final
/// dot, excluding the dot. A name without a dot, or with its only dot first
/// (a hidden file), has no extension, written as the empty sequence.
pub open spec fn ext_of(p: Seq<char>) -> Seq<char> {
    let name = file_name_of(p);
    let d = last_occurrence(name, '.');
    if d <= 0 {
        Seq::empty()
    } else {
        name.skip(d + 1)
    }
}

proof fn lemma_last_occurrence_bounds(s: Seq<char>, c: char)
    ensures
        -1 <= last_occurrence(s, c) < s.len(),
    decreases s.len(),
{
    if s.len() > 0 && s.last() != c {
        lemma_last_occurrence_bounds(s.drop_last(), c);
    }
}

proof fn lemma_last_occurrence_take_step(s: Seq<char>, c: char, i: int)
    requires
        0 <= i < s.len(),
        s[i] != c,
    ensures
        last_occurrence(s.take(i + 1), c) == last_occurrence(s.take(i), c),
{
    assert(s.take(i + 1).drop_last() =~= s.take(i));
}

/// The index of the last occurrence of `c` among the characters of `s`, if
/// any.
fn rfind_char(s: &str, c: char) -> (r: Option<usize>)
    ensures
        r matches Some(i) ==> i < s@.len() && last_occurrence(s@, c) == i as int,
        r is None ==> last_occurrence(s@, c) == -1,
{
    let n = s.unicode_len();
    proof {
        assert(s@.take(n as int) =~= s@);
    }
    let mut i = n;
    while i > 0
        invariant
            i <= n == s@.len(),
            last_occurrence(s@, c) == last_occurrence(s@.take(i as int), c),
        decreases i,
    {
        i = i - 1;
        if s.get_char(i) == c {
            proof {
                assert(s@.take(i + 1).last() == s@[i as int]);
                assert(last_occurrence(s@.take(i + 1), c) == i as int);
            }
            return Some(i);
        }
        proof {
            lemma_last_occurrence_take_step(s@, c, i as int);
        }
    }
    proof {
        assert(s@.take(0) =~= Seq::<char>::empty());
    }
    None
}

/// Extracts the extension of `path`: the part of the file name after the
/// final dot. A name without one yields the empty string.
pub fn extension_of(path: &String) -> (r: String)
    ensures
        r@ == ext_of(path@),
{
    let s = path.as_str();
    let n = s.unicode_len();
    proof {
        assert(s@.take(n as int) =~= s@);
        lemma_last_occurrence_bounds(s@, '/');
    }
    let name_start: usize = match rfind_char(s, '/') {
        Some(i) => i + 1,
        None => 0,
    };
    let name = s.substring_char(name_start, n);
    proof {
        assert(name@ =~= file_name_of(path@));
        lemma_last_occurrence_bounds(name@, '.');
    }
    let m = name.unicode_len();
    match rfind_char(name, '.') {
        Some(d) => {
            if d > 0 {
                let ext = name.substring_char(d + 1, m);
                proof {
                    assert(ext@ =~= ext_of(path@));
                }
                ext.to_owned()
            } else {
                proof {
                    assert(ext_of(path@) =~= Seq::<char>::empty());
                }
                String::new()
            }
        },
        None => {
            proof {
                assert(ext_of(path@) =~= Seq::<char>::empty());
            }
            String::new()
        },
    }
}

/// Lexicographic order on character sequences, by code point; a prefix comes
/// before every extension of it.
pub open spec fn lex_le(a: Seq<char>, b: Seq<char>) -> bool
    decreases a.len(),
{
    if a.len() == 0 {
        true
    } else if b.len() == 0 {
        false
    } else if (a.first() as u32) < (b.first() as u32) {
        true
    } else if (a.first() as u32) > (b.first() as u32) {
        false
    } else {
        lex_le(a.drop_first(), b.drop_first())
    }
}

/// The order is total: of any two sequences, one comes no later than the
/// other.
pub proof fn lemma_lex_le_total(a: Seq<char>, b: Seq<char>)
    ensures
        lex_le(a, b) || lex_le(b, a),
    decreases a.len(),
{
    if a.len() > 0 && b.len() > 0 && (a.first() as u32) == (b.first() as u32) {
        lemma_lex_le_total(a.drop_first(), b.drop_first());
    }
}

/// Compares two paths lexicographically by code point.
pub fn path_le(a: &String, b: &String) -> (r: bool)
    ensures
        r == lex_le(a@, b@),
{
    let sa = a.as_str();
    let sb = b.as_str();
    let na = sa.unicode_len();
    let nb = sb.unicode_len();
    proof {
        assert(a@.skip(0) =~= a@);
        assert(b@.skip(0) =~= b@);
    }
    let mut i: usize = 0;
    while i < na && i < nb
        invariant
            sa@ == a@,
            sb@ == b@,
            i <= na == a@.len(),
            i <= nb == b@.len(),
            lex_le(a@, b@) == lex_le(a@.skip(i as int), b@.skip(i as int)),
        decreases na - i,
    {
        let ca = sa.get_char(i) as u32;
        let cb = sb.get_char(i) as u32;
        proof {
            assert(a@.skip(i as int).first() == a@[i as int]);
            assert(b@.skip(i as int).first() == b@[i as int]);
        }
        if ca < cb {
            return true;
        } else if ca > cb {
            return false;
        } else {
            proof {
                assert(a@.skip(i as int).drop_first() =~= a@.skip(i + 1));
                assert(b@.skip(i as int).drop_first() =~= b@.skip(i + 1));
            }
            i = i + 1;
        }
    }
    proof {
        if i == na {
            assert(a@.skip(i as int).len() == 0);
        } else {
            assert(b@.skip(i as int).len() == 0);
            assert(a@.skip(i as int).len() > 0);
        }
    }
    i == na
}

} // verus!
