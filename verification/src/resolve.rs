use vstd::prelude::*;

use crate::hidden::is_hidden;
use crate::hidden::is_hidden_spec;

verus! {

/// What the filesystem says about one requested path: whether it exists,
/// what kind of entry it names, and, for a readable directory, the full
/// paths of its direct children in discovery order.
pub enum PathInfo {
    /// The path does not exist.
    Missing,
    /// The path names a regular file.
    File,
    /// The path names a directory whose direct children could all be read;
    /// each child is given as a full path.
    Directory(Vec<String>),
    /// The path names a directory, but reading it or one of its entries failed.
    UnreadableDirectory,
    /// The path names some other kind of entry; such paths are skipped.
    Other,
}

/// Why a resolution failed.
#[derive(Debug)]
pub enum ResolveError {
    /// A requested path does not exist; holds that path.
    NotFound(String),
    /// A directory or one of its entries could not be read.
    IoError,
}

/// What a resolution comes to: either the listed entries, in order, or the
/// first failure met while walking the requested paths.
pub enum Outcome {
    Entries(Seq<Seq<char>>),
    NotFound(Seq<char>),
    ReadFailed,
}

/// Whether an entry with this path is kept in the listing.
pub open spec fn kept(path: Seq<char>, show_hidden: bool) -> bool {
    show_hidden || !is_hidden_spec(path)
}

/// The paths of a sequence of strings, one view per element.
pub open spec fn views_of(paths: Seq<String>) -> Seq<Seq<char>> {
    paths.map_values(|p: String| p@)
}

/// The children of a directory that the listing keeps, in discovery order.
pub open spec fn kept_children(children: Seq<String>, show_hidden: bool) -> Seq<Seq<char>>
    decreases children.len(),
{
    if children.len() == 0 {
        Seq::empty()
    } else {
        let rest = kept_children(children.drop_last(), show_hidden);
        if kept(children.last()@, show_hidden) {
            rest.push(children.last()@)
        } else {
            rest
        }
    }
}

/// The entries that one requested path contributes to the listing: a kept
/// regular file stands for itself, a readable directory for its kept
/// children, and any other kind of entry for nothing.
pub open spec fn entries_for(path: Seq<char>, info: PathInfo, show_hidden: bool) -> Seq<Seq<char>> {
    match info {
        PathInfo::File => if kept(path, show_hidden) {
            seq![path]
        } else {
            Seq::empty()
        },
        PathInfo::Directory(children) => kept_children(children@, show_hidden),
        _ => Seq::empty(),
    }
}

/// The outcome of resolving `paths`, where `infos` holds the filesystem's
/// answer for each path in order: the kept entries of every path,
/// concatenated in order, unless some path is missing or unreadable, in
/// which case the outcome is the first such failure.
pub open spec fn resolve_spec(paths: Seq<String>, infos: Seq<PathInfo>, show_hidden: bool) -> Outcome
    recommends
        paths.len() == infos.len(),
    decreases paths.len(),
{
    if paths.len() == 0 {
        Outcome::Entries(Seq::empty())
    } else if infos[0] is Missing {
        Outcome::NotFound(paths[0]@)
    } else if infos[0] is UnreadableDirectory {
        Outcome::ReadFailed
    } else {
        match resolve_spec(paths.drop_first(), infos.drop_first(), show_hidden) {
            Outcome::Entries(rest) => Outcome::Entries(
                entries_for(paths[0]@, infos[0], show_hidden) + rest,
            ),
            Outcome::NotFound(p) => Outcome::NotFound(p),
            Outcome::ReadFailed => Outcome::ReadFailed,
        }
    }
}

/// An outcome with further entries put in front of it: a failure is left as
/// it stands.
pub open spec fn prepend_entries(prefix: Seq<Seq<char>>, rest: Outcome) -> Outcome {
    match rest {
        Outcome::Entries(es) => Outcome::Entries(prefix + es),
        Outcome::NotFound(p) => Outcome::NotFound(p),
        Outcome::ReadFailed => Outcome::ReadFailed,
    }
}

proof fn lemma_prepend_empty(rest: Outcome)
    ensures
        prepend_entries(Seq::empty(), rest) == rest,
{
    match rest {
        Outcome::Entries(es) => {
            assert(Seq::empty() + es =~= es);
        },
        _ => {},
    }
}

proof fn lemma_prepend_assoc(a: Seq<Seq<char>>, b: Seq<Seq<char>>, rest: Outcome)
    ensures
        prepend_entries(a + b, rest) == prepend_entries(a, prepend_entries(b, rest)),
{
    match rest {
        Outcome::Entries(es) => {
            assert((a + b) + es =~= a + (b + es));
        },
        _ => {},
    }
}

/// Resolves the requested paths into the listed entries, given the
/// filesystem's answer for each path in `infos` (one per path, in order).
/// A kept regular file is listed as itself, a readable directory as its
/// kept children; an entry is kept when hidden entries are shown or its
/// base name does not start with `.`. The call fails fast: the first
/// missing path gives `NotFound` with that path, the first unreadable
/// directory gives `IoError`, and no partial listing is returned.
pub fn resolve(paths: &Vec<String>, infos: &Vec<PathInfo>, show_hidden: bool) -> (r: Result<
    Vec<String>,
    ResolveError,
>)
    requires
        paths@.len() == infos@.len(),
    ensures
        match r {
            Ok(files) => resolve_spec(paths@, infos@, show_hidden) == Outcome::Entries(
                files.deep_view(),
            ),
            Err(e) => match e {
                ResolveError::NotFound(p) => resolve_spec(paths@, infos@, show_hidden)
                    == Outcome::NotFound(p@),
                ResolveError::IoError => resolve_spec(paths@, infos@, show_hidden)
                    == Outcome::ReadFailed,
            },
        },
{
    let mut files: Vec<String> = Vec::new();
    let n = paths.len();
    let mut i: usize = 0;
    proof {
        assert(paths@.skip(0) =~= paths@);
        assert(infos@.skip(0) =~= infos@);
        assert(files.deep_view() =~= Seq::<Seq<char>>::empty());
        lemma_prepend_empty(resolve_spec(paths@, infos@, show_hidden));
    }
    while i < n
        invariant
            i <= n,
            n == paths@.len(),
            paths@.len() == infos@.len(),
            resolve_spec(paths@, infos@, show_hidden) == prepend_entries(
                files.deep_view(),
                resolve_spec(paths@.skip(i as int), infos@.skip(i as int), show_hidden),
            ),
        decreases n - i,
    {
        let ghost rest_paths = paths@.skip(i as int);
        let ghost rest_infos = infos@.skip(i as int);
        let ghost files_before = files.deep_view();
        proof {
            assert(rest_paths[0] == paths@[i as int]);
            assert(rest_infos[0] == infos@[i as int]);
            assert(rest_paths.drop_first() =~= paths@.skip(i as int + 1));
            assert(rest_infos.drop_first() =~= infos@.skip(i as int + 1));
        }
        match &infos[i] {
            PathInfo::Missing => {
                return Err(ResolveError::NotFound(paths[i].clone()));
            },
            PathInfo::UnreadableDirectory => {
                return Err(ResolveError::IoError);
            },
            PathInfo::File => {
                if show_hidden || !is_hidden(paths[i].as_str()) {
                    files.push(paths[i].clone());
                    proof {
                        assert(files.deep_view() =~= files_before + seq![paths@[i as int]@]);
                    }
                } else {
                    proof {
                        assert(files.deep_view() =~= files_before + Seq::<Seq<char>>::empty());
                    }
                }
            },
            PathInfo::Directory(children) => {
                let m = children.len();
                let mut j: usize = 0;
                proof {
                    assert(children@.take(0) =~= Seq::<String>::empty());
                    assert(files.deep_view() =~= files_before + kept_children(
                        children@.take(0),
                        show_hidden,
                    ));
                }
                while j < m
                    invariant
                        j <= m,
                        m == children@.len(),
                        files.deep_view() == files_before + kept_children(
                            children@.take(j as int),
                            show_hidden,
                        ),
                    decreases m - j,
                {
                    let ghost taken = children@.take(j as int + 1);
                    proof {
                        assert(taken.drop_last() =~= children@.take(j as int));
                        assert(taken.last() == children@[j as int]);
                    }
                    if show_hidden || !is_hidden(children[j].as_str()) {
                        files.push(children[j].clone());
                        proof {
                            assert(files.deep_view() =~= (files_before + kept_children(
                                children@.take(j as int),
                                show_hidden,
                            )).push(children@[j as int]@));
                            assert((files_before + kept_children(
                                children@.take(j as int),
                                show_hidden,
                            )).push(children@[j as int]@) =~= files_before + kept_children(
                                taken,
                                show_hidden,
                            ));
                        }
                    }
                    j = j + 1;
                }
                proof {
                    assert(children@.take(m as int) =~= children@);
                }
            },
            PathInfo::Other => {
                proof {
                    assert(files.deep_view() =~= files_before + Seq::<Seq<char>>::empty());
                }
            },
        }
        proof {
            lemma_prepend_assoc(
                files_before,
                entries_for(paths@[i as int]@, infos@[i as int], show_hidden),
                resolve_spec(paths@.skip(i as int + 1), infos@.skip(i as int + 1), show_hidden),
            );
        }
        i = i + 1;
    }
    proof {
        assert(paths@.skip(n as int) =~= Seq::<String>::empty());
        assert(infos@.skip(n as int) =~= Seq::<PathInfo>::empty());
        assert(files.deep_view() + Seq::<Seq<char>>::empty() =~= files.deep_view());
    }
    Ok(files)
}

/// The predicate a listing without hidden entries keeps: the base name
/// does not start with `.`.
pub open spec fn visible_pred() -> spec_fn(Seq<char>) -> bool {
    (|p: Seq<char>| !is_hidden_spec(p))
}

proof fn lemma_single(p: String, info: PathInfo, show_hidden: bool)
    requires
        !(info is Missing),
        !(info is UnreadableDirectory),
    ensures
        resolve_spec(seq![p], seq![info], show_hidden) == Outcome::Entries(
            entries_for(p@, info, show_hidden),
        ),
{
    let paths = seq![p];
    let infos = seq![info];
    assert(paths.drop_first() =~= Seq::<String>::empty());
    assert(infos.drop_first() =~= Seq::<PathInfo>::empty());
    assert(resolve_spec(paths.drop_first(), infos.drop_first(), show_hidden) == Outcome::Entries(
        Seq::<Seq<char>>::empty(),
    ));
    assert(paths[0] == p);
    assert(infos[0] == info);
    assert(entries_for(p@, info, show_hidden) + Seq::<Seq<char>>::empty() =~= entries_for(
        p@,
        info,
        show_hidden,
    ));
}

proof fn lemma_kept_children_all(children: Seq<String>)
    ensures
        kept_children(children, true) == views_of(children),
    decreases children.len(),
{
    if children.len() == 0 {
        assert(views_of(children) =~= Seq::<Seq<char>>::empty());
    } else {
        lemma_kept_children_all(children.drop_last());
        assert(views_of(children.drop_last()) =~= views_of(children).drop_last());
        assert(views_of(children) =~= views_of(children).drop_last().push(children.last()@));
    }
}

proof fn lemma_kept_children_filter(children: Seq<String>)
    ensures
        kept_children(children, false) == views_of(children).filter(visible_pred()),
    decreases children.len(),
{
    reveal(Seq::filter);
    let vs = views_of(children);
    if children.len() == 0 {
        assert(vs =~= Seq::<Seq<char>>::empty());
    } else {
        lemma_kept_children_filter(children.drop_last());
        assert(vs.drop_last() =~= views_of(children.drop_last()));
        assert(vs.last() == children.last()@);
        assert(visible_pred()(children.last()@) == !is_hidden_spec(children.last()@));
    }
}

/// An existing regular file whose base name is not hidden is listed as
/// itself even when hidden entries are not shown.
pub proof fn lemma_visible_file_listed(p: String)
    requires
        !is_hidden_spec(p@),
    ensures
        resolve_spec(seq![p], seq![PathInfo::File], false) == Outcome::Entries(seq![p@]),
{
    lemma_single(p, PathInfo::File, false);
}

/// A regular file with a hidden base name is left out when hidden entries
/// are not shown, and listed as itself when they are.
pub proof fn lemma_hidden_file_listing(p: String)
    requires
        is_hidden_spec(p@),
    ensures
        resolve_spec(seq![p], seq![PathInfo::File], false) == Outcome::Entries(
            Seq::<Seq<char>>::empty(),
        ),
        resolve_spec(seq![p], seq![PathInfo::File], true) == Outcome::Entries(seq![p@]),
{
    lemma_single(p, PathInfo::File, false);
    lemma_single(p, PathInfo::File, true);
}

/// A readable directory is listed, when hidden entries are not shown, as
/// exactly those of its children whose base names are not hidden, in
/// discovery order; the directory itself is never listed.
pub proof fn lemma_directory_visible_children(d: String, children: Vec<String>)
    ensures
        resolve_spec(seq![d], seq![PathInfo::Directory(children)], false) == Outcome::Entries(
            children.deep_view().filter(visible_pred()),
        ),
{
    lemma_single(d, PathInfo::Directory(children), false);
    lemma_kept_children_filter(children@);
    assert(children.deep_view() =~= views_of(children@));
}

/// With hidden entries shown, a readable directory is listed as exactly all
/// its children, in discovery order.
pub proof fn lemma_directory_all_children(d: String, children: Vec<String>)
    ensures
        resolve_spec(seq![d], seq![PathInfo::Directory(children)], true) == Outcome::Entries(
            children.deep_view(),
        ),
{
    lemma_single(d, PathInfo::Directory(children), true);
    lemma_kept_children_all(children@);
    assert(children.deep_view() =~= views_of(children@));
}

/// Resolution fails fast: when every path before position `k` is present
/// and readable and the path at position `k` is missing, the outcome is
/// `NotFound` for that path, whatever stands after it; no entries are
/// returned.
pub proof fn lemma_missing_path_not_found(
    paths: Seq<String>,
    infos: Seq<PathInfo>,
    show_hidden: bool,
    k: int,
)
    requires
        paths.len() == infos.len(),
        0 <= k < infos.len(),
        infos[k] is Missing,
        forall|j: int| 0 <= j < k ==> !(#[trigger] infos[j] is Missing) && !(infos[j]
            is UnreadableDirectory),
    ensures
        resolve_spec(paths, infos, show_hidden) == Outcome::NotFound(paths[k]@),
    decreases k,
{
    if k > 0 {
        assert forall|j: int| 0 <= j < k - 1 implies !(#[trigger] infos.drop_first()[j]
            is Missing) && !(infos.drop_first()[j] is UnreadableDirectory) by {
            assert(infos.drop_first()[j] == infos[j + 1]);
        }
        lemma_missing_path_not_found(paths.drop_first(), infos.drop_first(), show_hidden, k - 1);
        assert(paths.drop_first()[k - 1] == paths[k]);
    }
}

} // verus!
