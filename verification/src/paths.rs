//! File names and extensions of `/`-separated paths, as `Path::file_name` and
//! `Path::extension` read them.
use vstd::prelude::*;

use crate::text::{chars_of, push_str, string_of};

verus! {

/// The index of the last `c` in `s`, or -1.
pub open spec fn rfind_char(s: Seq<char>, c: char) -> int
    decreases s.len(),
{
    if s.len() == 0 {
        -1
    } else if s.last() == c {
        s.len() - 1
    } else {
        rfind_char(s.drop_last(), c)
    }
}

/// The final component of `path` when it is a normal name: trailing `/` and
/// `.` components are ignored; `..`, the root and an empty path have none.
pub open spec fn file_name_of(s: Seq<char>) -> Option<Seq<char>>
    decreases s.len(),
{
    if s.len() == 0 {
        None
    } else if s.last() == '/' {
        file_name_of(s.drop_last())
    } else {
        let i = rfind_char(s, '/');
        let seg = s.skip(i + 1);
        if seg == seq!['.'] {
            if i < 0 {
                None
            } else {
                proof {
                    lemma_rfind_char_bound(s, '/');
                }
                file_name_of(s.take(i))
            }
        } else if seg == seq!['.', '.'] {
            None
        } else {
            Some(seg)
        }
    }
}

/// The extension of `path`: what follows the last `.` of its file name, when
/// that `.` is not the name's first character.
pub open spec fn extension_of(s: Seq<char>) -> Option<Seq<char>> {
    match file_name_of(s) {
        None => None,
        Some(name) => {
            let j = rfind_char(name, '.');
            if j <= 0 {
                None
            } else {
                Some(name.skip(j + 1))
            }
        },
    }
}

pub proof fn lemma_rfind_char_bound(s: Seq<char>, c: char)
    ensures
        -1 <= rfind_char(s, c) < s.len(),
        rfind_char(s, c) >= 0 ==> s[rfind_char(s, c)] == c,
        forall|k: int| rfind_char(s, c) < k < s.len() ==> s[k] != c,
    decreases s.len(),
{
    if s.len() > 0 && s.last() != c {
        lemma_rfind_char_bound(s.drop_last(), c);
        assert forall|k: int| rfind_char(s, c) < k < s.len() implies s[k] != c by {
            if k < s.len() - 1 {
                assert(s[k] == s.drop_last()[k]);
            }
        }
    }
}

/// The index of the last `c` in `v[..hi]`.
fn rfind_exec(v: &Vec<char>, hi: usize, c: char) -> (r: Option<usize>)
    requires
        hi <= v.len(),
    ensures
        r matches Some(j) ==> rfind_char(v@.take(hi as int), c) == j,
        r is None ==> rfind_char(v@.take(hi as int), c) == -1,
{
    let mut j = hi;
    while j > 0
        invariant
            j <= hi <= v.len(),
            rfind_char(v@.take(hi as int), c) == rfind_char(v@.take(j as int), c),
        decreases j,
    {
        if v[j - 1] == c {
            return Some(j - 1);
        }
        assert(v@.take(j as int).drop_last() == v@.take(j - 1));
        j -= 1;
    }
    None
}

/// The file name of `path` (`Path::file_name`).
pub fn file_name(path: &str) -> (r: Option<String>)
    ensures
        r matches Some(n) ==> file_name_of(path@) == Some(n@),
        r is None ==> file_name_of(path@) is None,
{
    let v = chars_of(path);
    let mut hi = v.len();
    assert(v@.take(hi as int) == v@);
    loop
        invariant
            hi <= v.len(),
            v@ == path@,
            file_name_of(path@) == file_name_of(v@.take(hi as int)),
        decreases hi,
    {
        if hi == 0 {
            return None;
        }
        let ghost s = v@.take(hi as int);
        if v[hi - 1] == '/' {
            assert(s.drop_last() == v@.take(hi - 1));
            hi -= 1;
        } else {
            let found = rfind_exec(&v, hi, '/');
            proof {
                lemma_rfind_char_bound(s, '/');
            }
            let start = match found {
                Some(i) => i + 1,
                None => 0,
            };
            let ghost i = rfind_char(s, '/');
            let ghost seg = s.skip(i + 1);
            assert(seg == v@.subrange(start as int, hi as int));
            let len = hi - start;
            if len == 1 && v[start] == '.' {
                assert(seg =~= seq!['.']);
                match found {
                    None => {
                        return None;
                    },
                    Some(i) => {
                        assert(s.take(i as int) == v@.take(i as int));
                        hi = i;
                    },
                }
            } else if len == 2 && v[start] == '.' && v[start + 1] == '.' {
                assert(seg =~= seq!['.', '.']);
                return None;
            } else {
                proof {
                    if seg == seq!['.'] {
                        assert(seg.len() == 1 && seg[0] == '.');
                    }
                    if seg == seq!['.', '.'] {
                        assert(seg.len() == 2 && seg[0] == '.' && seg[1] == '.');
                    }
                }
                return Some(string_of(&v, start, hi));
            }
        }
    }
}

/// Whether the extension of `path` is `ext`.
pub fn has_extension(path: &str, ext: &str) -> (b: bool)
    ensures
        b == (extension_of(path@) == Some(ext@)),
{
    match file_name(path) {
        None => false,
        Some(name) => {
            let v = chars_of(name.as_str());
            assert(v@.take(v@.len() as int) == v@);
            let found = rfind_exec(&v, v.len(), '.');
            proof {
                lemma_rfind_char_bound(v@, '.');
            }
            match found {
                None => false,
                Some(j) => {
                    if j == 0 {
                        return false;
                    }
                    let ev = chars_of(ext);
                    if ev.len() != v.len() - (j + 1) {
                        proof {
                            assert(name@.skip(j + 1).len() != ext@.len());
                        }
                        return false;
                    }
                    let r = crate::text::occurs_at_exec(&v, &ev, j + 1);
                    proof {
                        assert(v@.subrange(j + 1, j + 1 + ev@.len()) == name@.skip(j + 1));
                    }
                    r
                },
            }
        },
    }
}

/// `dir` joined with `name` as `Path::join` does: an absolute `name` replaces
/// `dir`, otherwise one `/` separates them.
pub open spec fn join_path(dir: Seq<char>, name: Seq<char>) -> Seq<char> {
    if name.len() > 0 && name[0] == '/' {
        name
    } else if dir.len() == 0 || dir.last() == '/' {
        dir + name
    } else {
        dir + "/"@ + name
    }
}


/// `Path::join` on `/`-separated paths.
pub fn join(dir: &str, name: &str) -> (r: String)
    ensures
        r@ == join_path(dir@, name@),
{
    let nv = chars_of(name);
    if nv.len() > 0 && nv[0] == '/' {
        return string_of(&nv, 0, nv.len());
    }
    let dv = chars_of(dir);
    let mut r = string_of(&dv, 0, dv.len());
    if dv.len() > 0 && dv[dv.len() - 1] != '/' {
        push_str(&mut r, "/");
    }
    push_str(&mut r, name);
    assert(dv@.subrange(0, dv@.len() as int) == dv@);
    assert(nv@.subrange(0, nv@.len() as int) == nv@);
    r
}

} // verus!
