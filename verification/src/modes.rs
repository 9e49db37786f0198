use vstd::prelude::*;
use vstd::string::StringExecFns;

verus! {

/// What the permission string is computed from, for one listed entry:
/// whether it is a directory, and its raw POSIX permission bits.
pub struct EntryMeta {
    pub is_dir: bool,
    pub mode: u32,
}

/// The four characters of an entry's permission string: `d` or `-` for the
/// kind, then `r`, `w`, `x` or `-` for the owner's read, write and execute
/// bits. Group and other bits are not reported.
pub open spec fn mode_chars(is_dir: bool, mode: u32) -> Seq<char> {
    seq![
        if is_dir {
            'd'
        } else {
            '-'
        },
        if mode & 0o400 != 0 {
            'r'
        } else {
            '-'
        },
        if mode & 0o200 != 0 {
            'w'
        } else {
            '-'
        },
        if mode & 0o100 != 0 {
            'x'
        } else {
            '-'
        },
    ]
}

/// The permission strings of a sequence of entries, one per entry, in order.
pub open spec fn modes_of(entries: Seq<EntryMeta>) -> Seq<Seq<char>> {
    entries.map_values(|e: EntryMeta| mode_chars(e.is_dir, e.mode))
}

/// The permission string of one entry: exactly `mode_chars` of its kind and
/// permission bits.
pub fn format_mode(is_dir: bool, mode: u32) -> (r: String)
    ensures
        r@ == mode_chars(is_dir, mode),
{
    proof {
        reveal_strlit("d");
        reveal_strlit("r");
        reveal_strlit("w");
        reveal_strlit("x");
        reveal_strlit("-");
    }
    let mut s = String::new();
    s.append(if is_dir { "d" } else { "-" });
    s.append(if mode & 0o400 != 0 { "r" } else { "-" });
    s.append(if mode & 0o200 != 0 { "w" } else { "-" });
    s.append(if mode & 0o100 != 0 { "x" } else { "-" });
    proof {
        assert(s@ =~= mode_chars(is_dir, mode));
    }
    s
}

/// The permission strings of the given entries: one output per input, in
/// the same order, each the `mode_chars` of its entry.
pub fn format_modes(entries: &Vec<EntryMeta>) -> (r: Vec<String>)
    ensures
        r@.len() == entries@.len(),
        r.deep_view() == modes_of(entries@),
{
    let mut out: Vec<String> = Vec::new();
    let n = entries.len();
    let mut i: usize = 0;
    while i < n
        invariant
            i <= n,
            n == entries@.len(),
            out@.len() == i,
            out.deep_view() == modes_of(entries@.take(i as int)),
        decreases n - i,
    {
        let ghost prev = out.deep_view();
        let line = format_mode(entries[i].is_dir, entries[i].mode);
        out.push(line);
        proof {
            assert(out.deep_view() =~= prev.push(
                mode_chars(entries@[i as int].is_dir, entries@[i as int].mode),
            ));
            assert(entries@.take(i as int + 1).drop_last() =~= entries@.take(i as int));
            assert(modes_of(entries@.take(i as int + 1)) =~= prev.push(
                mode_chars(entries@[i as int].is_dir, entries@[i as int].mode),
            ));
        }
        i = i + 1;
    }
    proof {
        assert(entries@.take(n as int) =~= entries@);
    }
    out
}

} // verus!
