//! Which files a run looks at: the path itself when it is a file, else the
//! files found under it that no exclusion glob matches. Walking the file
//! system is left to the caller, which hands in what it found.

use vstd::prelude::*;
use vstd::string::*;
use crate::bindings::{
    build_glob_set, builder_add, builder_globs, find_byte, glob_accepts, glob_error_text, glob_set_error_text,
    new_glob_builder, set_globs, set_is_match,
};
use crate::rules::custom::texts;

verus! {

/// What the path of a run names.
#[derive(Debug, Clone, Copy, PartialEq, Eq, Structural)]
pub enum PathKind {
    File,
    Directory,
    /// Nothing, or something that is neither.
    Missing,
}

/// Why the files of a run cannot be found.
#[derive(Debug)]
pub enum ScanError {
    /// An exclusion glob does not compile: the glob library's message.
    InvalidGlob(String),
    /// The path names neither a file nor a directory.
    NotFound(String),
}

/// The files of a run.
pub struct Scanner {
    files: Vec<String>,
}

impl View for Scanner {
    type V = Seq<Seq<char>>;

    /// The paths of the files.
    closed spec fn view(&self) -> Seq<Seq<char>> {
        texts(self.files@)
    }
}

/// The index of the first glob that does not compile, if any.
pub open spec fn first_bad_glob(globs: Seq<Seq<char>>, k: int) -> Option<int>
    decreases globs.len() - k,
{
    if k < 0 || k >= globs.len() {
        None
    } else if glob_error_text(globs[k]) is Some {
        Some(k)
    } else {
        first_bad_glob(globs, k + 1)
    }
}

/// Some glob matches the path.
pub open spec fn excluded(globs: Seq<Seq<char>>, path: Seq<char>) -> bool {
    exists|k: int| 0 <= k < globs.len() && glob_accepts(#[trigger] globs[k], path)
}

/// The paths that no glob matches, in order.
pub open spec fn kept_paths(paths: Seq<Seq<char>>, globs: Seq<Seq<char>>) -> Seq<Seq<char>>
    decreases paths.len(),
{
    if paths.len() == 0 {
        seq![]
    } else {
        kept_paths(paths.drop_last(), globs) + if excluded(globs, paths.last()) {
            seq![]
        } else {
            seq![paths.last()]
        }
    }
}

/// A directory's files are exactly the paths found that no exclusion glob
/// matches: none of them is excluded, and none of the others is left out.
pub proof fn lemma_kept_paths(paths: Seq<Seq<char>>, globs: Seq<Seq<char>>)
    ensures
        forall|k: int|
            0 <= k < kept_paths(paths, globs).len() ==> !excluded(globs, #[trigger] kept_paths(paths, globs)[k])
                && paths.contains(kept_paths(paths, globs)[k]),
        forall|j: int|
            0 <= j < paths.len() && !excluded(globs, #[trigger] paths[j]) ==> kept_paths(
                paths,
                globs,
            ).contains(paths[j]),
    decreases paths.len(),
{
    if paths.len() > 0 {
        let init = paths.drop_last();
        lemma_kept_paths(init, globs);
        let r = kept_paths(paths, globs);
        let q = kept_paths(init, globs);
        assert forall|k: int| 0 <= k < r.len() implies !excluded(globs, #[trigger] r[k]) && paths.contains(
            r[k],
        ) by {
            if k < q.len() {
                assert(r[k] == q[k]);
                let j = choose|j: int| 0 <= j < init.len() && init[j] == q[k];
                assert(paths[j] == init[j]);
            } else {
                assert(r[k] == paths.last());
                assert(paths[paths.len() - 1] == paths.last());
            }
        }
        assert forall|j: int| 0 <= j < paths.len() && !excluded(globs, #[trigger] paths[j]) implies r.contains(
            paths[j],
        ) by {
            if j < init.len() {
                assert(init[j] == paths[j]);
                let k = choose|k: int| 0 <= k < q.len() && q[k] == paths[j];
                assert(r[k] == q[k]);
            } else {
                assert(r[r.len() - 1] == paths[j]);
            }
        }
    }
}

/// Whether the content holds a NUL byte.
pub fn is_binary(content: &[u8]) -> (r: bool)
    ensures
        r == exists|j: int| 0 <= j < content@.len() && content@[j] == 0u8,
{
    match find_byte(0u8, content) {
        Some(i) => {
            assert(content@[i as int] == 0u8);
            true
        },
        None => false,
    }
}

impl Scanner {
    /// The files of a run on `path`: an exclusion glob that does not
    /// compile is an error first, then a set of them that the glob library
    /// cannot build (one over its size limits); then a file is the only
    /// file, whatever the globs; a directory gives the files found under it
    /// (`listing`) that no glob matches, in the order found; anything else
    /// is an error.
    pub fn discover(path: &str, kind: PathKind, listing: Vec<String>, excludes: &[String]) -> (r:
        Result<Scanner, ScanError>)
        ensures
            match first_bad_glob(texts(excludes@), 0) {
                Some(k) => r matches Err(ScanError::InvalidGlob(m)) && glob_error_text(
                    texts(excludes@)[k],
                ) == Some(m@),
                None => match glob_set_error_text(texts(excludes@)) {
                    Some(m) => r matches Err(ScanError::InvalidGlob(e)) && e@ == m,
                    None => match kind {
                        PathKind::File => r matches Ok(s) && s@ == seq![path@],
                        PathKind::Missing => r matches Err(ScanError::NotFound(p)) && p@ == path@,
                        PathKind::Directory => r matches Ok(s) && s@ == kept_paths(
                            texts(listing@),
                            texts(excludes@),
                        ),
                    },
                },
            },
    {
        let ghost g = texts(excludes@);
        let mut builder = new_glob_builder();
        let mut k: usize = 0;
        while k < excludes.len()
            invariant
                g == texts(excludes@),
                k <= g.len(),
                first_bad_glob(g, 0) == first_bad_glob(g, k as int),
                builder_globs(builder) == g.take(k as int),
            decreases g.len() - k,
        {
            assert(g[k as int] == excludes@[k as int]@);
            if let Some(m) = builder_add(&mut builder, excludes[k].as_str()) {
                return Err(ScanError::InvalidGlob(m));
            }
            assert(g.take(k + 1) =~= g.take(k as int).push(g[k as int]));
            k = k + 1;
        }
        assert(g.take(k as int) =~= g);
        let set = match build_glob_set(&builder) {
            Ok(set) => set,
            Err(m) => {
                return Err(ScanError::InvalidGlob(m));
            },
        };
        match kind {
            PathKind::File => {
                let mut files: Vec<String> = Vec::new();
                files.push(path.to_owned());
                assert(texts(files@) =~= seq![path@]);
                Ok(Scanner { files })
            },
            PathKind::Missing => Err(ScanError::NotFound(path.to_owned())),
            PathKind::Directory => {
                let ghost all = texts(listing@);
                let mut files: Vec<String> = Vec::new();
                let mut k: usize = 0;
                proof {
                    assert(all.take(0) == Seq::<Seq<char>>::empty());
                    assert(texts(files@) =~= kept_paths(all.take(0), texts(excludes@)));
                }
                while k < listing.len()
                    invariant
                        all == texts(listing@),
                        set_globs(set) == texts(excludes@),
                        k <= listing@.len(),
                        texts(files@) == kept_paths(all.take(k as int), texts(excludes@)),
                    decreases listing@.len() - k,
                {
                    proof {
                        assert(all.take(k + 1).drop_last() == all.take(k as int));
                        assert(all.take(k + 1).last() == listing@[k as int]@);
                    }
                    if !set_is_match(&set, listing[k].as_str()) {
                        let ghost before = files@;
                        files.push(listing[k].clone());
                        assert(files@ == before.push(files@.last()));
                        assert(texts(files@) =~= texts(before).push(listing@[k as int]@));
                    }
                    k = k + 1;
                }
                assert(all.take(k as int) == all);
                Ok(Scanner { files })
            },
        }
    }

    /// The files, in the order found.
    pub fn files(&self) -> (r: &[String])
        ensures
            texts(r@) == self@,
    {
        self.files.as_slice()
    }
}

} // verus!
