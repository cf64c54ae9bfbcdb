//! Classification of archive entry paths: host-detail pages live in a
//! `host` directory and end in `.html`; the summary page is the entry whose
//! file name is `index.html`; everything else is ignored.

use vstd::prelude::*;
use vstd::string::*;
use crate::text::{lemma_split_len, split_char, split_on, str_eq, views_of};

verus! {

/// What one archive entry is taken for.
#[derive(PartialEq, Eq, Structural, Clone, Copy, Debug)]
pub enum EntryKind {
    /// A per-host detail page.
    HostDetail,
    /// The archive's summary page.
    Summary,
    /// Not a report page; the entry contributes nothing.
    Ignored,
}

/// Index of the last dot of a file name; negative when there is none.
pub open spec fn last_dot(f: Seq<char>) -> int
    decreases f.len(),
{
    if f.len() == 0 {
        -1
    } else if f.last() == '.' {
        f.len() - 1
    } else {
        last_dot(f.drop_last())
    }
}

/// Whether a file name carries the `html` extension: a last dot that is
/// neither the leading character nor absent, followed by exactly `html`.
pub open spec fn has_html_ext(f: Seq<char>) -> bool {
    last_dot(f) > 0 && f.skip(last_dot(f) + 1) == "html"@
}

/// The classification rule over the `/`-separated components of a path.
pub open spec fn classify_spec(path: Seq<char>) -> EntryKind {
    let comps = split_char(path, '/');
    if comps.len() >= 2 && comps[comps.len() - 2] == "host"@ && has_html_ext(comps.last()) {
        EntryKind::HostDetail
    } else if comps.last() == "index.html"@ {
        EntryKind::Summary
    } else {
        EntryKind::Ignored
    }
}

fn has_html_ext_exec(f: &str) -> (r: bool)
    ensures
        r == has_html_ext(f@),
{
    let n = f.unicode_len();
    proof {
        assert(f@.take(n as int) =~= f@);
    }
    let mut j: usize = n;
    while j > 0 && f.get_char(j - 1) != '.'
        invariant
            n == f@.len(),
            j <= n,
            last_dot(f@) == last_dot(f@.take(j as int)),
            j > 0 ==> f@.take(j as int).last() == f@[j - 1],
        decreases j,
    {
        proof {
            assert(f@.take(j as int).drop_last() =~= f@.take(j - 1));
            if j >= 2 {
                assert(f@.take(j - 1).last() == f@[j - 2]);
            }
        }
        j -= 1;
    }
    if j == 0 {
        proof {
            assert(f@.take(0).len() == 0);
            assert(last_dot(f@) == -1);
        }
        return false;
    }
    proof {
        assert(f@[j - 1] == '.');
        assert(last_dot(f@) == j - 1);
    }
    if j == 1 {
        return false;
    }
    let ext = f.substring_char(j, n);
    let r = str_eq(ext, "html");
    proof {
        assert(f@.skip(j as int) =~= f@.subrange(j as int, n as int));
    }
    r
}

/// Classifies one archive entry by its relative path.
pub fn classify_entry(path: &str) -> (r: EntryKind)
    ensures
        r == classify_spec(path@),
{
    let comps = split_on(path, '/');
    let n = comps.len();
    proof {
        lemma_split_len(path@, '/');
        assert(views_of(comps@).len() == n);
        assert(n >= 1);
        assert(views_of(comps@)[n - 1] == comps@[n - 1]@);
        if n >= 2 {
            assert(views_of(comps@)[n - 2] == comps@[n - 2]@);
        }
        assert(split_char(path@, '/').last() == comps@[n - 1]@);
    }
    if n >= 2 {
        if str_eq(comps[n - 2].as_str(), "host") {
            if has_html_ext_exec(comps[n - 1].as_str()) {
                return EntryKind::HostDetail;
            }
        }
    }
    if str_eq(comps[n - 1].as_str(), "index.html") {
        EntryKind::Summary
    } else {
        EntryKind::Ignored
    }
}

} // verus!
