//! Filesystem index: lightweight entries over an already-built snapshot,
//! prefix-triggered substring search, and wholesale snapshot replacement.
//! The directory walk itself is I/O and happens outside the crate; each
//! walked entry is turned into a [`FileEntry`] here.

use vstd::prelude::*;

use crate::matcher::{ResultSource, SearchResult};
use crate::text::{
    chars_of, contains_chars, lower_of, lowercase_chars, string_from_chars, sub_chars,
};

verus! {

/// One indexed file or directory.
#[derive(Clone, Debug)]
pub struct FileEntry {
    /// File name lowercased, for matching.
    pub name: String,
    /// File name in original case, for display.
    pub name_display: String,
    /// Full path.
    pub path: String,
    /// `"dir"` for a directory, else `"file:<lowercase extension>"`, or
    /// `"file"` when the name has no extension.
    pub icon: String,
}

/// Index of the last occurrence of `c`, if any.
pub open spec fn spec_rfind(s: Seq<char>, c: char) -> Option<int>
    decreases s.len(),
{
    if s.len() == 0 {
        None
    } else if s[s.len() - 1] == c {
        Some(s.len() - 1)
    } else {
        spec_rfind(s.drop_last(), c)
    }
}

/// The extension of a file name: what follows the last dot, unless the
/// only dot is the leading character (a hidden file has no extension).
pub open spec fn spec_extension(s: Seq<char>) -> Option<Seq<char>> {
    match spec_rfind(s, '.') {
        Some(i) => if i > 0 {
            Some(s.skip(i + 1))
        } else {
            None
        },
        None => None,
    }
}

/// The icon tag a walked entry gets.
pub open spec fn spec_icon_tag(is_dir: bool, display: Seq<char>) -> Seq<char> {
    if is_dir {
        "dir"@
    } else {
        match spec_extension(display) {
            Some(e) => "file:"@ + lower_of(e),
            None => "file"@,
        }
    }
}

/// Last index of `c` in `v`, if any.
pub fn rfind_char(v: &[char], c: char) -> (r: Option<usize>)
    ensures
        match r {
            Some(i) => 0 <= i < v@.len() && Some(i as int) == spec_rfind(v@, c),
            None => spec_rfind(v@, c) is None,
        },
{
    let ghost n = v@.len() as int;
    proof {
        assert(v@.subrange(0, n) =~= v@);
    }
    let mut i: usize = v.len();
    while i > 0
        invariant
            0 <= i <= v@.len(),
            n == v@.len(),
            spec_rfind(v@, c) == spec_rfind(v@.subrange(0, i as int), c),
        decreases i,
    {
        if v[i - 1] == c {
            proof {
                assert(v@.subrange(0, i as int)[i - 1] == c);
            }
            return Some(i - 1);
        }
        proof {
            assert(v@.subrange(0, i as int).drop_last() =~= v@.subrange(0, i as int - 1));
        }
        i = i - 1;
    }
    None
}

/// Builds the index entry for one walked file or directory.  The walk
/// itself runs outside the crate and hands in the display name, the full
/// path and whether the entry is a directory.
pub fn make_file_entry(name_display: String, path: String, is_dir: bool) -> (r: FileEntry)
    ensures
        r.name@ == lower_of(name_display@),
        r.name_display@ == name_display@,
        r.path@ == path@,
        r.icon@ == spec_icon_tag(is_dir, name_display@),
{
    let dc = chars_of(name_display.as_str());
    let lowered = lowercase_chars(dc.as_slice());
    let name = string_from_chars(lowered.as_slice());
    let dlen = dc.len();
    let icon: String = if is_dir {
        let s = string_from_chars(chars_of("dir").as_slice());
        s
    } else {
        match rfind_char(dc.as_slice(), '.') {
            Some(i) if i > 0 => {
                let ext = sub_chars(dc.as_slice(), i + 1, dlen);
                proof {
                    assert(ext@ =~= name_display@.skip(i + 1));
                }
                let ext_lower = lowercase_chars(ext.as_slice());
                let mut tag = chars_of("file:");
                tag.extend_from_slice(ext_lower.as_slice());
                string_from_chars(tag.as_slice())
            },
            _ => string_from_chars(chars_of("file").as_slice()),
        }
    };
    FileEntry { name, name_display, path, icon }
}

/// The search term: the query with its `~/` or `/` trigger prefix removed.
pub open spec fn spec_strip_term(q: Seq<char>) -> Seq<char> {
    if q.len() >= 2 && q[0] == '~' && q[1] == '/' {
        q.skip(2)
    } else if q.len() >= 1 && q[0] == '/' {
        q.skip(1)
    } else {
        q
    }
}

/// Fixed base score of a file-index hit; rescaling is the caller's business.
pub open spec fn file_base_score() -> u32 {
    50
}

/// Whether an entry matches the lowercased term: an empty term matches
/// everything, otherwise the term must occur in the lowercased name.
pub open spec fn spec_file_match(e: FileEntry, term: Seq<char>) -> bool {
    term.len() == 0 || crate::text::spec_contains(e.name@, term)
}

/// Indices of the matching entries among the first `n`, in index order.
pub open spec fn spec_matched_files(index: Seq<FileEntry>, term: Seq<char>, n: int) -> Seq<int>
    decreases n,
{
    if n <= 0 {
        Seq::<int>::empty()
    } else {
        spec_matched_files(index, term, n - 1) + (if spec_file_match(index[n - 1], term) {
            seq![n - 1]
        } else {
            Seq::<int>::empty()
        })
    }
}

proof fn lemma_matched_files_bounds(index: Seq<FileEntry>, term: Seq<char>, n: int)
    ensures
        forall|k: int|
            0 <= k < spec_matched_files(index, term, n).len() ==> 0 <= #[trigger] spec_matched_files(
                index,
                term,
                n,
            )[k] < n,
    decreases n,
{
    if n > 0 {
        lemma_matched_files_bounds(index, term, n - 1);
        let mp = spec_matched_files(index, term, n - 1);
        let m = spec_matched_files(index, term, n);
        if spec_file_match(index[n - 1], term) {
            assert(m =~= mp + seq![n - 1]);
            assert forall|k: int| 0 <= k < m.len() implies 0 <= #[trigger] m[k] < n by {
                if k < mp.len() {
                    assert(m[k] == mp[k]);
                } else {
                    assert(m[k] == n - 1);
                }
            }
        } else {
            assert(m =~= mp);
        }
    }
}

proof fn lemma_matched_files_prefix(index: Seq<FileEntry>, term: Seq<char>, m: int, n: int)
    requires
        m <= n,
    ensures
        spec_matched_files(index, term, m).len() <= spec_matched_files(index, term, n).len(),
        forall|k: int|
            0 <= k < spec_matched_files(index, term, m).len() ==> #[trigger] spec_matched_files(
                index,
                term,
                n,
            )[k] == spec_matched_files(index, term, m)[k],
    decreases n - m,
{
    if m < n {
        lemma_matched_files_prefix(index, term, m, n - 1);
    }
}

/// The indices the query matches in the index, after prefix-stripping and
/// lowercasing.
pub open spec fn spec_query_matched(index: Seq<FileEntry>, q: Seq<char>) -> Seq<int> {
    spec_matched_files(index, lower_of(spec_strip_term(q)), index.len() as int)
}

/// `sr` is exactly the result owed for file entry `e`.
pub open spec fn spec_file_result(e: FileEntry, sr: SearchResult) -> bool {
    &&& sr.title@ == e.name_display@
    &&& sr.subtitle is Some && sr.subtitle->0@ == e.path@
    &&& sr.icon is Some && sr.icon->0@ == e.icon@
    &&& sr.exec_cmd@ == e.path@
    &&& sr.score == file_base_score()
    &&& sr.match_indices@ == Seq::<u32>::empty()
    &&& sr.source == ResultSource::File
    &&& sr.actions is None
}

/// The result list is pointwise owed for the matched entries, in order.
pub open spec fn spec_search_results_ok(
    index: Seq<FileEntry>,
    q: Seq<char>,
    rs: Seq<SearchResult>,
) -> bool {
    forall|k: int|
        0 <= k < rs.len() ==> 0 <= spec_query_matched(index, q)[k] < index.len()
            && spec_file_result(index[spec_query_matched(index, q)[k]], #[trigger] rs[k])
}

/// Substring search over the in-memory index.  The query's `~/` or `/`
/// trigger prefix is stripped and the remainder lowercased; an empty term
/// lists everything.  Matches are returned in index order, at most `limit`
/// of them, each with the fixed base score.
pub fn search_index(index: &Vec<FileEntry>, query: &str, limit: usize) -> (r: Vec<SearchResult>)
    ensures
        r@.len() == (if spec_query_matched(index@, query@).len() <= limit {
            spec_query_matched(index@, query@).len() as int
        } else {
            limit as int
        }),
        spec_search_results_ok(index@, query@, r@),
{
    let qc = chars_of(query);
    let stripped: Vec<char> = if qc.len() >= 2 && qc[0] == '~' && qc[1] == '/' {
        proof {
            assert(qc@.subrange(2, qc@.len() as int) =~= query@.skip(2));
        }
        sub_chars(qc.as_slice(), 2, qc.len())
    } else if qc.len() >= 1 && qc[0] == '/' {
        proof {
            assert(qc@.subrange(1, qc@.len() as int) =~= query@.skip(1));
        }
        sub_chars(qc.as_slice(), 1, qc.len())
    } else {
        proof {
            assert(qc@.subrange(0, qc@.len() as int) =~= query@);
        }
        sub_chars(qc.as_slice(), 0, qc.len())
    };
    let term = lowercase_chars(stripped.as_slice());
    let ghost gterm = lower_of(spec_strip_term(query@));
    proof {
        assert(term@ == gterm);
    }
    let mut results: Vec<SearchResult> = Vec::new();
    let mut i: usize = 0;
    while i < index.len() && results.len() < limit
        invariant
            0 <= i <= index@.len(),
            term@ == gterm,
            results@.len() == spec_matched_files(index@, gterm, i as int).len(),
            results@.len() <= limit,
            forall|k: int|
                0 <= k < results@.len() ==> 0 <= spec_matched_files(index@, gterm, i as int)[k]
                    < index@.len() && spec_file_result(
                    index@[spec_matched_files(index@, gterm, i as int)[k]],
                    #[trigger] results@[k],
                ),
        decreases index@.len() - i,
    {
        let ghost mprev = spec_matched_files(index@, gterm, i as int);
        proof {
            lemma_matched_files_prefix(index@, gterm, i as int, i as int + 1);
            lemma_matched_files_bounds(index@, gterm, i as int + 1);
        }
        let e = &index[i];
        let is_match = if term.len() == 0 {
            true
        } else {
            let nc = chars_of(e.name.as_str());
            contains_chars(nc.as_slice(), term.as_slice())
        };
        if is_match {
            let sr = SearchResult {
                title: e.name_display.clone(),
                subtitle: Some(e.path.clone()),
                icon: Some(e.icon.clone()),
                exec_cmd: e.path.clone(),
                score: 50,
                match_indices: Vec::new(),
                source: ResultSource::File,
                actions: None,
            };
            let ghost rprev = results@;
            results.push(sr);
            proof {
                let mnow = spec_matched_files(index@, gterm, i as int + 1);
                assert(mnow =~= mprev + seq![i as int]);
                assert(results@ == rprev.push(sr));
                assert(spec_file_result(index@[i as int], sr));
                assert(forall|k: int| 0 <= k < rprev.len() ==> results@[k] == rprev[k]);
                assert(forall|k: int| 0 <= k < mprev.len() ==> mnow[k] == mprev[k]);
                assert(mnow[mprev.len() as int] == i as int);
            }
        } else {
            proof {
                assert(spec_matched_files(index@, gterm, i as int + 1) =~= mprev);
            }
        }
        i = i + 1;
    }
    proof {
        let matched = spec_matched_files(index@, gterm, index@.len() as int);
        lemma_matched_files_prefix(index@, gterm, i as int, index@.len() as int);
        lemma_matched_files_bounds(index@, gterm, index@.len() as int);
        if results@.len() < limit {
            assert(i == index@.len());
        } else {
            assert(results@.len() == limit);
            assert(matched.len() >= spec_matched_files(index@, gterm, i as int).len());
        }
        assert forall|k: int| 0 <= k < results@.len() implies 0 <= matched[k] < index@.len()
            && spec_file_result(index@[matched[k]], #[trigger] results@[k]) by {
            assert(matched[k] == spec_matched_files(index@, gterm, i as int)[k]);
        }
    }
    results
}

/// Replaces the whole index snapshot; readers see either the old or the
/// new list, never a mixture.
pub fn rebuild(index: &mut Vec<FileEntry>, new_entries: Vec<FileEntry>)
    ensures
        final(index)@ == new_entries@,
{
    *index = new_entries;
}

} // verus!
