//! Whether a built front end is older than its sources: which files count as
//! sources, which are newer than the build, and the report on it. Walking the
//! directories and reading times is left to the caller.
use vstd::prelude::*;
use crate::text::{decimal_of, same_str, with_number};

verus! {

/// Outcome of comparing sources with the build.
#[derive(Debug, Clone)]
pub struct BuildFreshness {
    pub is_fresh: bool,
    /// Modification time of the build output, in seconds, if known.
    pub dist_modified: Option<u64>,
    /// Newest modification time among the sources, in seconds, if any.
    pub src_modified: Option<u64>,
    /// Sources modified after the build, in the order given.
    pub stale_files: Vec<String>,
    pub message: String,
}

/// `s` ends with `suffix`.
pub open spec fn ends_with(s: Seq<char>, suffix: Seq<char>) -> bool {
    suffix.len() <= s.len() && s.subrange(s.len() - suffix.len(), s.len() as int) == suffix
}

/// Does `s` end with `suffix`?
fn ends_with_str(s: &str, suffix: &str) -> (r: bool)
    ensures
        r == ends_with(s@, suffix@),
{
    let n = s.unicode_len();
    let m = suffix.unicode_len();
    if m > n {
        return false;
    }
    let tail = s.substring_char(n - m, n);
    same_str(tail, suffix)
}

/// A file with one of the watched source extensions: ts, tsx, css or html.
pub open spec fn watched(name: Seq<char>) -> bool {
    ends_with(name, ".ts"@) || ends_with(name, ".tsx"@) || ends_with(name, ".css"@) || ends_with(name, ".html"@)
}

/// Whether the file `name` is a watched source.
pub fn is_watched_source(name: &str) -> (r: bool)
    ensures
        r == watched(name@),
{
    proof {
        reveal_strlit(".ts");
        reveal_strlit(".tsx");
        reveal_strlit(".css");
        reveal_strlit(".html");
    }
    ends_with_str(name, ".ts") || ends_with_str(name, ".tsx") || ends_with_str(name, ".css") || ends_with_str(name, ".html")
}

/// A directory left out of the walk: dependencies and build outputs.
pub open spec fn skipped(name: Seq<char>) -> bool {
    name == "node_modules"@ || name == "dist"@ || name == "target"@
}

/// Whether the directory `name` is left out of the walk.
pub fn is_skipped_dir(name: &str) -> (r: bool)
    ensures
        r == skipped(name@),
{
    proof {
        reveal_strlit("node_modules");
        reveal_strlit("dist");
        reveal_strlit("target");
    }
    same_str(name, "node_modules") || same_str(name, "dist") || same_str(name, "target")
}

/// The newest time among `ts`.
pub open spec fn newest(ts: Seq<u64>) -> Option<u64>
    decreases ts.len(),
{
    if ts.len() == 0 {
        None
    } else {
        match newest(ts.drop_last()) {
            None => Some(ts.last()),
            Some(m) => Some(if ts.last() > m { ts.last() } else { m }),
        }
    }
}

/// The names among `files` modified after `dist`.
pub open spec fn stale(files: Seq<(Seq<char>, u64)>, dist: Option<u64>) -> Seq<Seq<char>>
    decreases files.len(),
{
    if files.len() == 0 {
        Seq::empty()
    } else if dist.is_some() && files.last().1 > dist.unwrap() {
        stale(files.drop_last(), dist).push(files.last().0)
    } else {
        stale(files.drop_last(), dist)
    }
}

/// Sources with their times, as plain values.
pub open spec fn sources_view(v: Seq<(String, u64)>) -> Seq<(Seq<char>, u64)> {
    v.map_values(|e: (String, u64)| (e.0@, e.1))
}

/// The times of the sources.
pub open spec fn times(v: Seq<(String, u64)>) -> Seq<u64> {
    v.map_values(|e: (String, u64)| e.1)
}

/// Compares the sources (name and modification time, in seconds) with the
/// build's time: the stale sources are those newer than the build, and the
/// build is fresh when there are none.
pub fn assess_build(dist_modified: Option<u64>, sources: &Vec<(String, u64)>) -> (r: BuildFreshness)
    ensures
        r.dist_modified == dist_modified,
        r.src_modified == newest(times(sources@)),
        r.stale_files@.map_values(|s: String| s@) == stale(sources_view(sources@), dist_modified),
        r.is_fresh == (r.stale_files@.len() == 0),
        r.is_fresh ==> r.message@ == "Build is up to date"@,
        !r.is_fresh ==> r.message@ == decimal_of(r.stale_files@.len() as nat) + " file(s) modified since last build"@,
{
    let ghost sv = sources_view(sources@);
    let ghost tv = times(sources@);
    let mut newest_time: Option<u64> = None;
    let mut stale_files: Vec<String> = Vec::new();
    let mut k: usize = 0;
    while k < sources.len()
        invariant
            k <= sources@.len(),
            sv == sources_view(sources@),
            tv == times(sources@),
            newest_time == newest(tv.subrange(0, k as int)),
            stale_files@.map_values(|s: String| s@) == stale(sv.subrange(0, k as int), dist_modified),
        decreases sources.len() - k,
    {
        assert(tv.subrange(0, k + 1).drop_last() =~= tv.subrange(0, k as int));
        assert(sv.subrange(0, k + 1).drop_last() =~= sv.subrange(0, k as int));
        let t = sources[k].1;
        newest_time = match newest_time {
            None => Some(t),
            Some(m) => Some(if t > m { t } else { m }),
        };
        let newer = match dist_modified {
            Some(d) => t > d,
            None => false,
        };
        if newer {
            stale_files.push(sources[k].0.clone());
        }
        assert(stale_files@.map_values(|s: String| s@) =~= stale(sv.subrange(0, k + 1), dist_modified));
        k = k + 1;
    }
    assert(tv.subrange(0, tv.len() as int) =~= tv);
    assert(sv.subrange(0, sv.len() as int) =~= sv);
    let is_fresh = stale_files.len() == 0;
    let message = if is_fresh {
        proof {
            reveal_strlit("Build is up to date");
        }
        String::from_str("Build is up to date")
    } else {
        proof {
            reveal_strlit(" file(s) modified since last build");
            reveal_strlit("");
        }
        let count = with_number("", stale_files.len() as u64);
        assert(count@ =~= decimal_of(stale_files@.len() as nat));
        count.concat(" file(s) modified since last build")
    };
    BuildFreshness { is_fresh, dist_modified, src_modified: newest_time, stale_files, message }
}

} // verus!
