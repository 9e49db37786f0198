use vstd::prelude::*;

verus! {

/// The position where the base name of `s` begins: just after the last
/// `/`, or 0 when the path holds no `/`.
pub open spec fn basename_start(s: Seq<char>) -> int
    decreases s.len(),
{
    if s.len() == 0 {
        0
    } else if s.last() == '/' {
        s.len() as int
    } else {
        basename_start(s.drop_last())
    }
}

pub proof fn lemma_basename_start_bounds(s: Seq<char>)
    ensures
        0 <= basename_start(s) <= s.len(),
    decreases s.len(),
{
    if s.len() != 0 && s.last() != '/' {
        lemma_basename_start_bounds(s.drop_last());
    }
}

/// Everything after the last `/` of `s`, or all of `s` when it holds none.
pub open spec fn basename(s: Seq<char>) -> Seq<char> {
    s.subrange(basename_start(s), s.len() as int)
}

/// Whether the path ends in a `.` component of its own: it is the string
/// `.` itself, or it ends with `/.`.
pub open spec fn ends_in_dot_component(s: Seq<char>) -> bool {
    s.len() > 0 && s.last() == '.' && (s.len() == 1 || s[s.len() - 2] == '/')
}

/// The path with trailing separators and trailing `.` components removed;
/// a path's file name disregards both.
pub open spec fn strip_trailing(s: Seq<char>) -> Seq<char>
    decreases s.len(),
{
    if s.len() == 0 {
        s
    } else if s.last() == '/' || ends_in_dot_component(s) {
        strip_trailing(s.drop_last())
    } else {
        s
    }
}

/// The base name of a path, read as `Path::file_name` reports one: the
/// final component once trailing separators and `.` components are
/// disregarded, and no name at all when nothing remains of the path or
/// when that component is `..`.
pub open spec fn file_name_of(s: Seq<char>) -> Option<Seq<char>> {
    let b = basename(strip_trailing(s));
    if b.len() == 0 || b == seq!['.', '.'] {
        None
    } else {
        Some(b)
    }
}

/// A hidden entry is one whose base name starts with a `.` character; a
/// path without a base name (such as `/`, `.` or `..`) is not hidden.
pub open spec fn is_hidden_spec(s: Seq<char>) -> bool {
    match file_name_of(s) {
        Some(b) => b[0] == '.',
        None => false,
    }
}

/// Whether the path names a hidden entry: whether its base name, as
/// `Path::file_name` reads one, starts with `.`.
pub fn is_hidden(path: &str) -> (r: bool)
    ensures
        r == is_hidden_spec(path@),
{
    let ghost s = path@;
    let n: usize = path.unicode_len();
    let mut e: usize = n;
    let mut stripped = false;
    proof {
        assert(s.take(n as int) =~= s);
    }
    while !stripped
        invariant
            e <= n,
            n == s.len(),
            s == path@,
            strip_trailing(s) == strip_trailing(s.take(e as int)),
            stripped ==> strip_trailing(s.take(e as int)) == s.take(e as int),
        decreases e as int, (if stripped {
            0int
        } else {
            1int
        }),
    {
        if e == 0 {
            proof {
                assert(s.take(0) =~= Seq::<char>::empty());
            }
            stripped = true;
        } else {
            let c = path.get_char(e - 1);
            let cut = c == '/' || (c == '.' && (e == 1 || path.get_char(e - 2) == '/'));
            proof {
                assert(s.take(e as int).last() == s[e as int - 1]);
                if e >= 2 {
                    assert(s.take(e as int)[e as int - 2] == s[e as int - 2]);
                }
            }
            if cut {
                proof {
                    assert(s.take(e as int).drop_last() =~= s.take(e as int - 1));
                }
                e = e - 1;
            } else {
                stripped = true;
            }
        }
    }
    let ghost t = s.take(e as int);
    let mut i: usize = e;
    let mut start: usize = 0;
    let mut found = false;
    proof {
        assert(t.take(e as int) =~= t);
    }
    while i > 0 && !found
        invariant
            i <= e,
            e <= n,
            n == s.len(),
            s == path@,
            t == s.take(e as int),
            !found ==> basename_start(t) == basename_start(t.take(i as int)),
            !found ==> start == 0,
            found ==> basename_start(t) == start as int && start <= e,
        decreases (if found {
            0int
        } else {
            i as int + 1
        }),
    {
        let c = path.get_char(i - 1);
        proof {
            assert(t.take(i as int).last() == t[i as int - 1]);
            assert(t[i as int - 1] == s[i as int - 1]);
        }
        if c == '/' {
            start = i;
            found = true;
        } else {
            i = i - 1;
            proof {
                assert(t.take(i as int + 1).drop_last() =~= t.take(i as int));
            }
        }
    }
    proof {
        if !found {
            assert(t.take(0) =~= Seq::<char>::empty());
        }
        lemma_basename_start_bounds(t);
        assert(basename_start(t) == start as int);
        assert(basename(t) =~= s.subrange(start as int, e as int));
    }
    if start >= e {
        proof {
            assert(basename(t).len() == 0);
        }
        return false;
    }
    let c0 = path.get_char(start);
    proof {
        assert(basename(t)[0] == s[start as int]);
    }
    if c0 != '.' {
        return false;
    }
    if e - start == 2 {
        let c1 = path.get_char(start + 1);
        proof {
            assert(basename(t)[1] == s[start as int + 1]);
            assert(seq!['.', '.'][1] == '.');
        }
        if c1 == '.' {
            proof {
                assert(basename(t) =~= seq!['.', '.']);
            }
            false
        } else {
            true
        }
    } else {
        proof {
            assert(seq!['.', '.'].len() == 2);
        }
        true
    }
}

} // verus!
