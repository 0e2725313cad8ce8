//! Query engine: dispatches a query to the enabled providers, scales each
//! provider's scores by its configured weight, merges and ranks the
//! results.  Filesystem probes used by the install-suggestion mode go
//! through trusted wrappers; everything around them is verified.

use vstd::prelude::*;

use crate::files::{spec_query_matched, FileEntry};
use crate::history::UsageMap;
use crate::matcher::{fuzzy_search, opt_view_eq, ResultSource, SearchResult};
use crate::rank::{sort_results_desc, sorted_desc};
use crate::scanner::AppEntry;
use crate::score::{spec_weighted_score, weighted_score};
use crate::scripts::ScriptAction;
use crate::text::{
    chars_of, contains_chars, eq_ignore_ascii_chars, is_space, is_space_char, lower_of,
    lowercase_chars, seq_ascii_lower, spec_contains, spec_starts_with, spec_trim, spec_trim_start,
    starts_with_chars, string_from_chars, sub_chars, trim_chars,
};
use crate::windows::WindowEntry;
use vstd::multiset::Multiset;

verus! {

/// Whether one provider contributes, and its percentage weight.
#[derive(Clone, Copy, Debug)]
pub struct ProviderConfig {
    pub enabled: bool,
    pub weight: u32,
}

/// Per-provider search settings.
#[derive(Clone, Copy, Debug)]
pub struct SearchConfig {
    pub applications: ProviderConfig,
    pub windows: ProviderConfig,
    pub calculator: ProviderConfig,
    pub files: ProviderConfig,
}

pub open spec fn sat_add_u64(a: u64, b: u64) -> u64 {
    if a + b > u64::MAX {
        u64::MAX
    } else {
        (a + b) as u64
    }
}

/// Latency counters for one engine entry point: call count, total and
/// maximum observed milliseconds.  Reading them never perturbs them.
#[derive(Clone, Copy, Debug)]
pub struct Metrics {
    pub calls: u64,
    pub total_ms: u64,
    pub max_ms: u64,
}

impl Metrics {
    pub fn new() -> (r: Metrics)
        ensures
            r.calls == 0 && r.total_ms == 0 && r.max_ms == 0,
    {
        Metrics { calls: 0, total_ms: 0, max_ms: 0 }
    }

    /// Records one timed call: the call count and total time accumulate
    /// (saturating), and the maximum is raised when exceeded.
    pub fn record_latency(&mut self, elapsed_ms: u64)
        ensures
            final(self).calls == sat_add_u64(old(self).calls, 1),
            final(self).total_ms == sat_add_u64(old(self).total_ms, elapsed_ms),
            final(self).max_ms == (if elapsed_ms > old(self).max_ms {
                elapsed_ms
            } else {
                old(self).max_ms
            }),
    {
        self.calls = if self.calls < u64::MAX {
            self.calls + 1
        } else {
            u64::MAX
        };
        self.total_ms = if self.total_ms <= u64::MAX - elapsed_ms {
            self.total_ms + elapsed_ms
        } else {
            u64::MAX
        };
        if elapsed_ms > self.max_ms {
            self.max_ms = elapsed_ms;
        }
    }
}

/// The three instrumented entry points of the engine.
#[derive(Clone, Copy, Debug)]
pub struct EngineMetrics {
    pub search: Metrics,
    pub suggestions: Metrics,
    pub launch: Metrics,
}

impl EngineMetrics {
    pub fn new() -> (r: EngineMetrics)
        ensures
            r.search.calls == 0 && r.suggestions.calls == 0 && r.launch.calls == 0,
    {
        EngineMetrics { search: Metrics::new(), suggestions: Metrics::new(), launch: Metrics::new() }
    }
}

/// Relies on `std::path::Path::exists`: whether something exists at the
/// path right now.  The answer depends on the disk, so nothing more is
/// assumed of it.
#[verifier::external_body]
pub(crate) fn path_exists(p: &str) -> bool {
    std::path::Path::new(p).exists()
}

/// Relies on `std::path::Path::is_dir`: whether the path names a
/// directory right now.  The answer depends on the disk, so nothing more
/// is assumed of it.
#[verifier::external_body]
fn path_is_dir(p: &str) -> bool {
    std::path::Path::new(p).is_dir()
}

/// Relies on walkdir: lists the names directly inside a directory with a
/// directory flag for each, in whatever order the walk yields them; `None`
/// when the directory cannot be read.  The listing depends on the disk,
/// so nothing more is assumed of it.
#[verifier::external_body]
fn list_dir(p: &str) -> Option<Vec<(String, bool)>> {
    let mut out: Vec<(String, bool)> = Vec::new();
    for entry in walkdir::WalkDir::new(p).min_depth(1).max_depth(1).follow_links(false) {
        match entry {
            Ok(e) => {
                let is_dir = e.file_type().is_dir();
                out.push((e.file_name().to_string_lossy().into_owned(), is_dir));
            },
            Err(_) => return None,
        }
    }
    Some(out)
}

/// The suggestion owed for an application: its fields, the fixed weighted
/// score, no match positions.
pub open spec fn spec_suggestion_result(app: AppEntry, weight: u32, sr: SearchResult) -> bool {
    &&& sr.title@ == app.name@
    &&& (match app.generic_name {
        Some(g) => sr.subtitle is Some && sr.subtitle->0@ == g@,
        None => opt_view_eq(sr.subtitle, app.comment),
    })
    &&& opt_view_eq(sr.icon, app.icon)
    &&& sr.exec_cmd@ == app.exec_cmd@
    &&& sr.score == spec_weighted_score(100, weight)
    &&& sr.match_indices@.len() == 0
    &&& sr.source == ResultSource::Application
    &&& sr.actions is None
}

/// Application `a` has its suggestion somewhere in the list.
pub open spec fn spec_suggestion_covered(
    apps: Seq<AppEntry>,
    weight: u32,
    a: int,
    rs: Seq<SearchResult>,
) -> bool {
    exists|k: int| 0 <= k < rs.len() && spec_suggestion_result(apps[a], weight, #[trigger] rs[k])
}

/// `sr` is the suggestion owed for some application in the snapshot.
pub open spec fn spec_suggested_from(apps: Seq<AppEntry>, weight: u32, sr: SearchResult) -> bool {
    exists|i: int| 0 <= i < apps.len() && spec_suggestion_result(#[trigger] apps[i], weight, sr)
}

fn suggestion_result(app: &AppEntry, weight: u32) -> (sr: SearchResult)
    ensures
        spec_suggestion_result(*app, weight, sr),
{
    let subtitle: Option<String> = match &app.generic_name {
        Some(g) => Some(g.clone()),
        None => match &app.comment {
            Some(c) => Some(c.clone()),
            None => None,
        },
    };
    let icon: Option<String> = match &app.icon {
        Some(i) => Some(i.clone()),
        None => None,
    };
    SearchResult {
        title: app.name.clone(),
        subtitle,
        icon,
        exec_cmd: app.exec_cmd.clone(),
        score: weighted_score(100, weight),
        match_indices: Vec::new(),
        source: ResultSource::Application,
        actions: None,
    }
}

/// Sorts usage-tagged results by usage count descending; first maximum
/// first.
fn sort_by_usage_desc(v: Vec<(u32, SearchResult)>) -> (r: Vec<(u32, SearchResult)>)
    ensures
        r@.to_multiset() == v@.to_multiset(),
        r@.len() == v@.len(),
        forall|i: int, j: int| 0 <= i < j < r@.len() ==> r@[i].0 >= r@[j].0,
{
    broadcast use vstd::seq_lib::group_to_multiset_ensures;

    let ghost orig = v@;
    let mut input = v;
    let mut out: Vec<(u32, SearchResult)> = Vec::new();
    proof {
        assert(out@.to_multiset().add(input@.to_multiset()) =~= orig.to_multiset());
    }
    while input.len() > 0
        invariant
            out@.to_multiset().add(input@.to_multiset()) == orig.to_multiset(),
            forall|i: int, j: int| 0 <= i < j < out@.len() ==> out@[i].0 >= out@[j].0,
            forall|i: int, j: int|
                0 <= i < out@.len() && 0 <= j < input@.len() ==> out@[i].0 >= input@[j].0,
        decreases input@.len(),
    {
        let mut best: usize = 0;
        let mut bi: usize = 1;
        while bi < input.len()
            invariant
                0 <= best < input@.len(),
                1 <= bi <= input@.len(),
                forall|j: int| 0 <= j < bi ==> input@[best as int].0 >= input@[j].0,
            decreases input@.len() - bi,
        {
            if input[bi].0 > input[best].0 {
                best = bi;
            }
            bi = bi + 1;
        }
        let ghost prev_in = input@;
        let ghost prev_out = out@;
        let x = input.remove(best);
        out.push(x);
        proof {
            prev_in.to_multiset_ensures();
            prev_out.to_multiset_ensures();
            assert(input@ == prev_in.remove(best as int));
            assert(out@ == prev_out.push(x));
            assert(input@.to_multiset() =~= prev_in.to_multiset().remove(x));
            assert(out@.to_multiset() =~= prev_out.to_multiset().insert(x));
            assert(prev_in.to_multiset().count(x) > 0);
            assert(out@.to_multiset().add(input@.to_multiset()) =~= orig.to_multiset());
            assert forall|i: int, j: int|
                0 <= i < out@.len() && 0 <= j < input@.len() implies out@[i].0 >= input@[j].0 by {
                assert(prev_in.contains(input@[j]));
            }
            assert forall|i: int, j: int| 0 <= i < j < out@.len() implies out@[i].0
                >= out@[j].0 by {
                if j == out@.len() - 1 {
                    assert(prev_in.contains(x));
                }
            }
        }
    }
    proof {
        input@.to_multiset_ensures();
        out@.to_multiset_ensures();
        orig.to_multiset_ensures();
        assert(input@.to_multiset() =~= Multiset::<(u32, SearchResult)>::empty());
        assert(out@.to_multiset() =~= orig.to_multiset());
    }
    out
}

/// Ranks all applications by recorded usage, most used first, ignoring the
/// query text, and returns up to `max_results` of them with the fixed
/// suggestion score.  A disabled application provider yields nothing.
pub fn get_suggestions(
    apps: &Vec<AppEntry>,
    usage: &UsageMap,
    max_results: usize,
    enabled: bool,
    weight: u32,
) -> (r: Vec<SearchResult>)
    requires
        usage.wf(),
    ensures
        !enabled ==> r@.len() == 0,
        enabled ==> r@.len() == (if apps@.len() <= max_results {
            apps@.len() as int
        } else {
            max_results as int
        }),
        enabled ==> (forall|k: int|
            0 <= k < r@.len() ==> spec_suggested_from(apps@, weight, #[trigger] r@[k])),
        enabled ==> (forall|k1: int, k2: int|
            0 <= k1 < k2 < r@.len() ==> usage.spec_usage(r@[k1].exec_cmd@) >= usage.spec_usage(
                r@[k2].exec_cmd@,
            )),
        enabled && apps@.len() <= max_results ==> (forall|a: int|
            0 <= a < apps@.len() ==> #[trigger] spec_suggestion_covered(apps@, weight, a, r@)),
{
    broadcast use vstd::seq_lib::group_to_multiset_ensures;

    if !enabled {
        return Vec::new();
    }
    let mut tagged: Vec<(u32, SearchResult)> = Vec::new();
    let mut i: usize = 0;
    while i < apps.len()
        invariant
            usage.wf(),
            0 <= i <= apps@.len(),
            tagged@.len() == i,
            forall|k: int|
                0 <= k < tagged@.len() ==> spec_suggested_from(
                    apps@,
                    weight,
                    (#[trigger] tagged@[k]).1,
                ) && tagged@[k].0 == usage.spec_usage(tagged@[k].1.exec_cmd@),
            forall|a: int|
                0 <= a < i ==> spec_suggestion_result(
                    #[trigger] apps@[a],
                    weight,
                    tagged@[a].1,
                ),
        decreases apps@.len() - i,
    {
        let app = &apps[i];
        let count = usage.get(app.exec_cmd.as_str());
        let sr = suggestion_result(app, weight);
        let ghost prev = tagged@;
        tagged.push((count, sr));
        proof {
            assert(forall|k: int| 0 <= k < prev.len() ==> tagged@[k] == prev[k]);
            assert(tagged@[prev.len() as int].1 == sr);
            assert(spec_suggestion_result(apps@[i as int], weight, sr));
            assert(spec_suggested_from(apps@, weight, sr));
        }
        i = i + 1;
    }
    let ghost cand = tagged@;
    let ranked = sort_by_usage_desc(tagged);
    let ghost rview = ranked@;
    proof {
        assert forall|k: int| 0 <= k < rview.len() implies spec_suggested_from(
            apps@,
            weight,
            (#[trigger] rview[k]).1,
        ) && rview[k].0 == usage.spec_usage(rview[k].1.exec_cmd@) by {
            assert(rview.to_multiset().count(rview[k]) > 0);
            assert(cand.to_multiset().count(rview[k]) > 0);
            assert(cand.contains(rview[k]));
            let j = choose|j: int| 0 <= j < cand.len() && cand[j] == rview[k];
            assert(spec_suggested_from(apps@, weight, cand[j].1) && cand[j].0
                == usage.spec_usage(cand[j].1.exec_cmd@));
        }
        assert(rview.len() == cand.len());
    }
    let mut rest = ranked;
    let mut out: Vec<SearchResult> = Vec::new();
    let mut k: usize = 0;
    while rest.len() > 0 && out.len() < max_results
        invariant
            0 <= k,
            k + rest@.len() == rview.len(),
            out@.len() == k,
            k <= max_results,
            forall|a: int| 0 <= a < rest@.len() ==> rest@[a] == rview[k + a],
            forall|a: int| 0 <= a < out@.len() ==> #[trigger] out@[a] == rview[a].1,
            forall|a: int|
                0 <= a < rview.len() ==> spec_suggested_from(
                    apps@,
                    weight,
                    (#[trigger] rview[a]).1,
                ) && rview[a].0 == usage.spec_usage(rview[a].1.exec_cmd@),
            forall|a: int, b: int| 0 <= a < b < rview.len() ==> rview[a].0 >= rview[b].0,
            cand.len() == apps@.len(),
            rview.len() == cand.len(),
            cand.to_multiset() == rview.to_multiset(),
            forall|a: int|
                0 <= a < apps@.len() ==> spec_suggestion_result(
                    #[trigger] apps@[a],
                    weight,
                    cand[a].1,
                ),
        decreases rest@.len(),
    {
        let p = rest.remove(0);
        out.push(p.1);
        k = k + 1;
    }
    proof {
        assert forall|a: int| 0 <= a < out@.len() implies spec_suggested_from(
            apps@,
            weight,
            #[trigger] out@[a],
        ) by {
            assert(out@[a] == (#[trigger] rview[a]).1);
        }
        assert forall|k1: int, k2: int| 0 <= k1 < k2 < out@.len() implies usage.spec_usage(
            out@[k1].exec_cmd@,
        ) >= usage.spec_usage(out@[k2].exec_cmd@) by {
            assert(out@[k1] == rview[k1].1);
            assert(out@[k2] == rview[k2].1);
            assert(rview[k1].0 >= rview[k2].0);
            assert(rview[k1].0 == usage.spec_usage(rview[k1].1.exec_cmd@));
            assert(rview[k2].0 == usage.spec_usage(rview[k2].1.exec_cmd@));
        }
        if apps@.len() <= max_results {
            broadcast use vstd::seq_lib::group_to_multiset_ensures;

            assert(out@.len() == rview.len());
            assert forall|a: int| 0 <= a < apps@.len() implies #[trigger] spec_suggestion_covered(
                apps@,
                weight,
                a,
                out@,
            ) by {
                assert(spec_suggestion_result(apps@[a], weight, cand[a].1));
                assert(cand.to_multiset().count(cand[a]) > 0);
                assert(rview.to_multiset().count(cand[a]) > 0);
                assert(rview.contains(cand[a]));
                let k = choose|k: int| 0 <= k < rview.len() && rview[k] == cand[a];
                assert(out@[k] == rview[k].1);
                assert(spec_suggestion_result(apps@[a], weight, out@[k]));
            }
        }
    }
    out
}


/// The query is an explicit file-path query: it starts with `/` or `~/`.
pub open spec fn spec_is_file_query(q: Seq<char>) -> bool {
    (q.len() >= 1 && q[0] == '/') || (q.len() >= 2 && q[0] == '~' && q[1] == '/')
}

/// The install-mode prefix.
pub open spec fn install_prefix() -> Seq<char> {
    "install "@
}

/// The argument of an install query: the query with every repetition of
/// the prefix removed, trimmed.
pub open spec fn spec_install_arg(q: Seq<char>) -> Seq<char> {
    spec_trim(crate::launcher::spec_strip_prefix_all(q, install_prefix()))
}

/// The file name at the end of a path: what follows the last `/`.
pub open spec fn spec_path_file_name(p: Seq<char>) -> Seq<char> {
    match crate::files::spec_rfind(p, '/') {
        Some(i) => p.skip(i + 1),
        None => p,
    }
}

/// The top-priority action result of an install query.  `is_local` is
/// whether something exists at the literal argument path right now.
pub open spec fn spec_install_action(url: Seq<char>, is_local: bool, sr: SearchResult) -> bool {
    &&& sr.title@ == (if is_local {
        "Install Local File: "@ + spec_path_file_name(url)
    } else {
        "Install Web Script: "@ + url
    })
    &&& sr.subtitle is Some && sr.subtitle->0@ == (if is_local {
        "Press Enter to extract/copy this file directly into the Vanta Store"@
    } else {
        "Press Enter to download and install this script from GitHub"@
    })
    &&& sr.icon is Some
    &&& sr.exec_cmd@ == "install:"@ + url
    &&& sr.score == 1000000
    &&& sr.match_indices@.len() == 0
    &&& sr.source == ResultSource::Application
    &&& sr.actions is None
}

/// The calculator result owed for a rendered value.
pub open spec fn spec_calc_result(val: Seq<char>, weight: u32, sr: SearchResult) -> bool {
    &&& sr.title@ == "= "@ + val
    &&& sr.subtitle is Some && sr.subtitle->0@ == "Click to Copy"@
    &&& sr.icon is Some && sr.icon->0@ == "calculator"@
    &&& sr.exec_cmd@ == "copy:"@ + val
    &&& sr.score == spec_weighted_score(900000, weight)
    &&& sr.match_indices@.len() == 0
    &&& sr.source == ResultSource::Calculator
    &&& sr.actions is None
}

fn concat_str(a: &str, b: &[char]) -> (r: String)
    ensures
        r@ == a@ + b@,
{
    let mut v = chars_of(a);
    v.extend_from_slice(b);
    string_from_chars(v.as_slice())
}

fn calc_result(val: &[char], weight: u32) -> (sr: SearchResult)
    ensures
        spec_calc_result(val@, weight, sr),
{
    SearchResult {
        title: concat_str("= ", val),
        subtitle: Some("Click to Copy".to_owned()),
        icon: Some("calculator".to_owned()),
        exec_cmd: concat_str("copy:", val),
        score: weighted_score(900000, weight),
        match_indices: Vec::new(),
        source: ResultSource::Calculator,
        actions: None,
    }
}

fn install_action_result(url: &[char], is_local: bool) -> (sr: SearchResult)
    ensures
        spec_install_action(url@, is_local, sr),
{
    let title: String = if is_local {
        let ul = url.len();
        let fname = match crate::files::rfind_char(url, '/') {
            Some(i) => sub_chars(url, i + 1, ul),
            None => sub_chars(url, 0, ul),
        };
        proof {
            assert(fname@ =~= spec_path_file_name(url@));
        }
        concat_str("Install Local File: ", fname.as_slice())
    } else {
        concat_str("Install Web Script: ", url)
    };
    let subtitle: String = if is_local {
        "Press Enter to extract/copy this file directly into the Vanta Store".to_owned()
    } else {
        "Press Enter to download and install this script from GitHub".to_owned()
    };
    SearchResult {
        title,
        subtitle: Some(subtitle),
        icon: Some(
            "<svg xmlns=\"http://www.w3.org/2000/svg\" width=\"24\" height=\"24\" viewBox=\"0 0 24 24\" fill=\"none\" stroke=\"currentColor\" stroke-width=\"1.5\" stroke-linecap=\"round\" stroke-linejoin=\"round\"><path d=\"M21 15v4a2 2 0 0 1-2 2H5a2 2 0 0 1-2-2v-4\"/><polyline points=\"7 10 12 15 17 10\"/><line x1=\"12\" x2=\"12\" y1=\"15\" y2=\"3\"/></svg>".to_owned(),
        ),
        exec_cmd: concat_str("install:", url),
        score: 1000000,
        match_indices: Vec::new(),
        source: ResultSource::Application,
        actions: None,
    }
}

/// The leading run of non-whitespace characters.
pub open spec fn spec_token_of(t: Seq<char>) -> Seq<char>
    decreases t.len(),
{
    if t.len() == 0 {
        Seq::<char>::empty()
    } else if is_space_char(t[0]) {
        Seq::<char>::empty()
    } else {
        seq![t[0]] + spec_token_of(t.drop_first())
    }
}

/// The first whitespace-delimited token of a command line.
pub open spec fn spec_first_token(s: Seq<char>) -> Seq<char> {
    spec_token_of(spec_trim_start(s))
}

/// First whitespace-delimited token of an Exec line.
fn first_token(v: &[char]) -> (r: Vec<char>)
    ensures
        r@ == spec_first_token(v@),
{
    let ghost n = v@.len() as int;
    proof {
        assert(v@.subrange(0, n) =~= v@);
    }
    let mut lo: usize = 0;
    while lo < v.len() && is_space(v[lo])
        invariant
            0 <= lo <= v@.len(),
            n == v@.len(),
            spec_trim_start(v@) == spec_trim_start(v@.subrange(lo as int, n)),
        decreases v@.len() - lo,
    {
        proof {
            assert(v@.subrange(lo as int, n).drop_first() =~= v@.subrange(lo as int + 1, n));
        }
        lo = lo + 1;
    }
    proof {
        assert(spec_trim_start(v@.subrange(lo as int, n)) == v@.subrange(lo as int, n));
    }
    let mut hi: usize = lo;
    while hi < v.len() && !is_space(v[hi])
        invariant
            lo <= hi <= v@.len(),
            n == v@.len(),
            spec_token_of(v@.subrange(lo as int, n)) == v@.subrange(lo as int, hi as int)
                + spec_token_of(v@.subrange(hi as int, n)),
        decreases v@.len() - hi,
    {
        proof {
            let tail = v@.subrange(hi as int, n);
            assert(tail.drop_first() =~= v@.subrange(hi as int + 1, n));
            assert(tail[0] == v@[hi as int]);
            assert(v@.subrange(lo as int, hi as int) + seq![v@[hi as int]] =~= v@.subrange(
                lo as int,
                hi as int + 1,
            ));
            assert(v@.subrange(lo as int, hi as int) + spec_token_of(tail) =~= v@.subrange(
                lo as int,
                hi as int + 1,
            ) + spec_token_of(v@.subrange(hi as int + 1, n)));
        }
        hi = hi + 1;
    }
    proof {
        assert(spec_token_of(v@.subrange(hi as int, n)) =~= Seq::<char>::empty());
        assert(spec_token_of(v@.subrange(lo as int, n)) =~= v@.subrange(lo as int, hi as int));
    }
    sub_chars(v, lo, hi)
}

/// Whether an application is the one an open window belongs to: its
/// startup class, else the first token of its exec line, else its name
/// equals the window class, ignoring ASCII case.
pub open spec fn spec_app_matches_window(app: AppEntry, class: Seq<char>) -> bool {
    ||| (app.startup_wm_class is Some && seq_ascii_lower(app.startup_wm_class->0@)
        == seq_ascii_lower(class))
    ||| (spec_first_token(app.exec_cmd@).len() > 0 && seq_ascii_lower(
        spec_first_token(app.exec_cmd@),
    ) == seq_ascii_lower(class))
    ||| seq_ascii_lower(app.name@) == seq_ascii_lower(class)
}

/// Index of the first application matching the window class, from `i` on.
pub open spec fn spec_win_app_idx(apps: Seq<AppEntry>, class: Seq<char>, i: int) -> Option<int>
    decreases apps.len() - i,
{
    if i < 0 || i >= apps.len() {
        None
    } else if spec_app_matches_window(apps[i], class) {
        Some(i)
    } else {
        spec_win_app_idx(apps, class, i + 1)
    }
}

/// The icon of the first application matching an open window's class.
fn window_icon(apps: &Vec<AppEntry>, class: &[char]) -> (r: Option<String>)
    ensures
        (match spec_win_app_idx(apps@, class@, 0) {
            Some(i) => opt_view_eq(r, apps@[i].icon),
            None => r is None,
        }),
{
    let mut i: usize = 0;
    while i < apps.len()
        invariant
            0 <= i <= apps@.len(),
            spec_win_app_idx(apps@, class@, 0) == spec_win_app_idx(apps@, class@, i as int),
        decreases apps@.len() - i,
    {
        let app = &apps[i];
        let mut m = false;
        match &app.startup_wm_class {
            Some(wm) => {
                let wc = chars_of(wm.as_str());
                if eq_ignore_ascii_chars(wc.as_slice(), class) {
                    m = true;
                }
            },
            None => {
            },
        }
        if !m {
            let ec = chars_of(app.exec_cmd.as_str());
            let tok = first_token(ec.as_slice());
            if tok.len() > 0 && eq_ignore_ascii_chars(tok.as_slice(), class) {
                m = true;
            }
        }
        if !m {
            let nc = chars_of(app.name.as_str());
            if eq_ignore_ascii_chars(nc.as_slice(), class) {
                m = true;
            }
        }
        proof {
            assert(m == spec_app_matches_window(apps@[i as int], class@));
        }
        if m {
            return match &app.icon {
                Some(ic) => Some(ic.clone()),
                None => None,
            };
        }
        i = i + 1;
    }
    None
}

/// Whether an open window matches the lowercased query: substring
/// containment against the lowercased title or class.
pub open spec fn spec_window_matches(w: WindowEntry, lq: Seq<char>) -> bool {
    spec_contains(lower_of(w.title@), lq) || spec_contains(lower_of(w.class@), lq)
}

/// How many of the first `n` open windows match.
pub open spec fn spec_window_count(ws: Seq<WindowEntry>, lq: Seq<char>, n: int) -> int
    decreases n,
{
    if n <= 0 {
        0
    } else {
        spec_window_count(ws, lq, n - 1) + (if spec_window_matches(ws[n - 1], lq) {
            1int
        } else {
            0int
        })
    }
}

proof fn lemma_window_count_nonneg(ws: Seq<WindowEntry>, lq: Seq<char>, n: int)
    ensures
        spec_window_count(ws, lq, n) >= 0,
    decreases n,
{
    if n > 0 {
        lemma_window_count_nonneg(ws, lq, n - 1);
    }
}

proof fn lemma_window_count_mono(ws: Seq<WindowEntry>, lq: Seq<char>, m: int, n: int)
    requires
        m <= n,
    ensures
        spec_window_count(ws, lq, m) <= spec_window_count(ws, lq, n),
    decreases n - m,
{
    if m < n {
        lemma_window_count_mono(ws, lq, m, n - 1);
    }
}

/// Positions `base + k` of `list` hold, in order, the focus results owed
/// for the matching windows among the first `n`.
pub open spec fn spec_windows_recorded(
    apps: Seq<AppEntry>,
    ws: Seq<WindowEntry>,
    lq: Seq<char>,
    weight: u32,
    base: int,
    n: int,
    list: Seq<SearchResult>,
) -> bool {
    forall|wi: int|
        0 <= wi < n && #[trigger] spec_window_matches(ws[wi], lq) ==> 0 <= base
            + spec_window_count(ws, lq, wi) < list.len() && spec_window_result(
            apps,
            ws[wi],
            weight,
            list[base + spec_window_count(ws, lq, wi)],
        )
}

/// `sr` is exactly the focus result owed for open window `w`.
pub open spec fn spec_window_result(
    apps: Seq<AppEntry>,
    w: WindowEntry,
    weight: u32,
    sr: SearchResult,
) -> bool {
    &&& sr.title@ == w.title@
    &&& sr.subtitle is Some && sr.subtitle->0@ == "Switch to Window (Workspace "@ + w.workspace@
        + ")"@
    &&& (match spec_win_app_idx(apps, w.class@, 0) {
        Some(i) => opt_view_eq(sr.icon, apps[i].icon),
        None => sr.icon is None,
    })
    &&& sr.exec_cmd@ == "focus:"@ + w.address@
    &&& sr.score == spec_weighted_score(950000, weight)
    &&& sr.match_indices@.len() == 0
    &&& sr.source == ResultSource::Window
    &&& sr.actions is None
}

/// The window-switch result for one open window./// The window-switch result for one open window.
fn window_result(w: &WindowEntry, icon: Option<String>, weight: u32) -> (sr: SearchResult)
    ensures
        sr.title@ == w.title@,
        sr.subtitle is Some && sr.subtitle->0@ == "Switch to Window (Workspace "@ + w.workspace@
            + ")"@,
        sr.icon == icon,
        sr.exec_cmd@ == "focus:"@ + w.address@,
        sr.score == spec_weighted_score(950000, weight),
        sr.match_indices@.len() == 0,
        sr.source == ResultSource::Window,
        sr.actions is None,
{
    let ac = chars_of(w.address.as_str());
    let mut sub = chars_of("Switch to Window (Workspace ");
    sub.extend_from_slice(chars_of(w.workspace.as_str()).as_slice());
    sub.push(')');
    proof {
        reveal_strlit(")");
        assert(seq![')'] =~= ")"@);
        assert(sub@ =~= "Switch to Window (Workspace "@ + w.workspace@ + ")"@);
    }
    SearchResult {
        title: w.title.clone(),
        subtitle: Some(string_from_chars(sub.as_slice())),
        icon,
        exec_cmd: concat_str("focus:", ac.as_slice()),
        score: weighted_score(950000, weight),
        match_indices: Vec::new(),
        source: ResultSource::Window,
        actions: None,
    }
}

/// Expands an install argument to an absolute path under the home
/// directory: `~/x` becomes `home/x`; an absolute path already under home
/// stays; `/` alone becomes `home/`; any other absolute path is re-rooted
/// under home.
fn expand_install_path(url: &[char], home: &[char]) -> (r: Vec<char>)
{
    if url.len() >= 2 && url[0] == '~' && url[1] == '/' {
        let mut v = sub_chars(home, 0, home.len());
        v.push('/');
        let rest = sub_chars(url, 2, url.len());
        v.extend_from_slice(rest.as_slice());
        v
    } else if url.len() >= 1 && url[0] == '/' {
        if starts_with_chars(url, home) {
            sub_chars(url, 0, url.len())
        } else if url.len() == 1 {
            let mut v = sub_chars(home, 0, home.len());
            v.push('/');
            v
        } else {
            let mut v = sub_chars(home, 0, home.len());
            v.push('/');
            let rest = sub_chars(url, 1, url.len());
            v.extend_from_slice(rest.as_slice());
            v
        }
    } else {
        sub_chars(url, 0, url.len())
    }
}

/// One install-mode suggestion from a directory listing entry.
fn install_suggestion(
    name: &[char],
    entry_is_dir: bool,
    dir: &[char],
    url_tilde: bool,
    url_under_home: bool,
    home: &[char],
) -> (sr: SearchResult)
    ensures
        sr.title@ == name@,
        sr.score == (if entry_is_dir {
            900000u32
        } else {
            800000u32
        }),
        sr.source == ResultSource::File,
        sr.actions is None,
{
    let mut spath = sub_chars(dir, 0, dir.len());
    if !(dir.len() >= 1 && dir[dir.len() - 1] == '/') {
        spath.push('/');
    }
    spath.extend_from_slice(name);
    if entry_is_dir {
        spath.push('/');
    }
    let display: Vec<char> = if url_tilde {
        if starts_with_chars(spath.as_slice(), home) {
            let mut d = chars_of("~");
            let rest = sub_chars(spath.as_slice(), home.len(), spath.len());
            d.extend_from_slice(rest.as_slice());
            d
        } else {
            sub_chars(spath.as_slice(), 0, spath.len())
        }
    } else if url_under_home {
        sub_chars(spath.as_slice(), 0, spath.len())
    } else {
        if starts_with_chars(spath.as_slice(), home) {
            sub_chars(spath.as_slice(), home.len(), spath.len())
        } else {
            sub_chars(spath.as_slice(), 0, spath.len())
        }
    };
    let subtitle: String = if entry_is_dir {
        let mut s = sub_chars(dir, 0, dir.len());
        s.extend_from_slice(chars_of(" (Dir)").as_slice());
        string_from_chars(s.as_slice())
    } else {
        string_from_chars(dir)
    };
    let exec_cmd: String = if entry_is_dir {
        concat_str("fill:install ", display.as_slice())
    } else {
        concat_str("install:", spath.as_slice())
    };
    let icon: String = if entry_is_dir {
        "dir".to_owned()
    } else {
        concat_str("file:", spath.as_slice())
    };
    SearchResult {
        title: string_from_chars(name),
        subtitle: Some(subtitle),
        icon: Some(icon),
        exec_cmd,
        score: if entry_is_dir {
            900000
        } else {
            800000
        },
        match_indices: Vec::new(),
        source: ResultSource::File,
        actions: None,
    }
}


/// Like [`crate::files::spec_file_result`], but with the score rescaled by
/// the file provider's weight.
pub open spec fn spec_weighted_file_result(e: FileEntry, weight: u32, sr: SearchResult) -> bool {
    &&& sr.title@ == e.name_display@
    &&& sr.subtitle is Some && sr.subtitle->0@ == e.path@
    &&& sr.icon is Some && sr.icon->0@ == e.icon@
    &&& sr.exec_cmd@ == e.path@
    &&& sr.score == spec_weighted_score(crate::files::file_base_score(), weight)
    &&& sr.match_indices@.len() == 0
    &&& sr.source == ResultSource::File
    &&& sr.actions is None
}

/// The calculator owes a result: the trimmed query is non-empty, holds a
/// digit, and evaluates.
pub open spec fn spec_calc_applies(q: Seq<char>) -> bool {
    &&& spec_trim(q).len() > 0
    &&& crate::math::spec_has_digit(spec_trim(q))
    &&& crate::math::math_eval_of(spec_trim(q)) is Some
}

/// The rendered value the calculator owes.
pub open spec fn spec_calc_value(q: Seq<char>) -> Seq<char> {
    crate::math::math_eval_of(spec_trim(q))->0
}

/// The result is the install action for `url`, whether or not the literal
/// path existed when probed.
pub open spec fn spec_is_install_action(url: Seq<char>, sr: SearchResult) -> bool {
    spec_install_action(url, true, sr) || spec_install_action(url, false, sr)
}

/// The file-mode result list is pointwise owed for the matched entries,
/// with rescaled scores.
/// Position `k` of the file-mode result list is owed for the `k`-th
/// matched entry, with its score rescaled.
pub open spec fn spec_weighted_at(
    index: Seq<FileEntry>,
    q: Seq<char>,
    weight: u32,
    rs: Seq<SearchResult>,
    k: int,
) -> bool {
    &&& 0 <= spec_query_matched(index, q)[k] < index.len()
    &&& spec_weighted_file_result(index[spec_query_matched(index, q)[k]], weight, rs[k])
}

pub open spec fn spec_weighted_results_ok(
    index: Seq<FileEntry>,
    q: Seq<char>,
    weight: u32,
    rs: Seq<SearchResult>,
) -> bool {
    forall|k: int| 0 <= k < rs.len() ==> #[trigger] spec_weighted_at(index, q, weight, rs, k)
}

/// File-mode results: the file-index matches for the query, each rescaled
/// by the file provider's weight.
#[verifier::rlimit(60)]
fn file_mode_results(file_index: &Vec<FileEntry>, query: &str, weight: u32) -> (r: Vec<
    SearchResult,
>)
    ensures
        r@.len() == (if spec_query_matched(file_index@, query@).len() <= 20 {
            spec_query_matched(file_index@, query@).len() as int
        } else {
            20int
        }),
        spec_weighted_results_ok(file_index@, query@, weight, r@),
{
    let fr = crate::files::search_index(file_index, query, 20);
    let ghost frv = fr@;
    let ghost matched = spec_query_matched(file_index@, query@);
    proof {
        assert(crate::files::spec_search_results_ok(file_index@, query@, frv));
    }
    let mut rest = fr;
    let mut out: Vec<SearchResult> = Vec::new();
    let mut k: usize = 0;
    while rest.len() > 0
        invariant
            0 <= k,
            k + rest@.len() == frv.len(),
            out@.len() == k,
            forall|a: int| 0 <= a < rest@.len() ==> rest@[a] == frv[k + a],
            frv.len() <= 20,
            matched == spec_query_matched(file_index@, query@),
            crate::files::spec_search_results_ok(file_index@, query@, frv),
            spec_weighted_results_ok(file_index@, query@, weight, out@),
        decreases rest@.len(),
    {
        let e = rest.remove(0);
        proof {
            assert(e == frv[k as int]);
            assert(crate::files::spec_file_result(file_index@[matched[k as int]], e));
            assert(e.score == crate::files::file_base_score());
        }
        let ns = weighted_score(e.score, weight);
        let e2 = SearchResult { score: ns, ..e };
        let ghost prev_out = out@;
        out.push(e2);
        proof {
            assert(spec_weighted_file_result(file_index@[matched[k as int]], weight, e2));
            assert forall|a: int| 0 <= a < out@.len() implies #[trigger] spec_weighted_at(
                file_index@,
                query@,
                weight,
                out@,
                a,
            ) by {
                if a < prev_out.len() {
                    assert(out@[a] == prev_out[a]);
                    assert(spec_weighted_at(file_index@, query@, weight, prev_out, a));
                } else {
                    assert(out@[a] == e2);
                }
            }
            assert(spec_weighted_results_ok(file_index@, query@, weight, out@));
        }
        k = k + 1;
    }
    proof {
        assert(out@.len() == frv.len());
    }
    out
}

/// Resolves one query against the current snapshots, in the engine's fixed
/// precedence: fuzzy application search, open-window filtering, the
/// calculator, then either the exclusive file-path mode or the
/// install-suggestion mode, merged and ranked by score descending.
///
/// A `/` or `~/` query is file mode: it returns only file-index matches,
/// rescaled by the file weight, or nothing at all when file search is
/// disabled.  Otherwise the result list is sorted by score descending;
/// when the calculator owes a result it is in the list, and when the query
/// is an install command with a non-empty argument the top-priority
/// install action is in the list.
#[verifier::rlimit(100)]
pub fn search(
    query: &str,
    apps: &Vec<AppEntry>,
    open_windows: &Vec<WindowEntry>,
    file_index: &Vec<FileEntry>,
    usage: &UsageMap,
    cfg: &SearchConfig,
    home: &str,
    max_results: usize,
) -> (r: Vec<SearchResult>)
    requires
        usage.wf(),
    ensures
        spec_is_file_query(query@) && !cfg.files.enabled ==> r@.len() == 0,
        spec_is_file_query(query@) && cfg.files.enabled ==> r@.len() == (if spec_query_matched(
            file_index@,
            query@,
        ).len() <= 20 {
            spec_query_matched(file_index@, query@).len() as int
        } else {
            20int
        }),
        spec_is_file_query(query@) && cfg.files.enabled ==> spec_weighted_results_ok(
            file_index@,
            query@,
            cfg.files.weight,
            r@,
        ),
        !spec_is_file_query(query@) ==> sorted_desc(r@),
        !spec_is_file_query(query@) && cfg.calculator.enabled && spec_calc_applies(query@)
            ==> exists|k: int|
            0 <= k < r@.len() && spec_calc_result(
                spec_calc_value(query@),
                cfg.calculator.weight,
                #[trigger] r@[k],
            ),
        !spec_is_file_query(query@) && spec_starts_with(query@, install_prefix())
            && spec_install_arg(query@).len() > 0 ==> exists|k: int|
            0 <= k < r@.len() && spec_is_install_action(spec_install_arg(query@), #[trigger] r@[k]),
        !spec_is_file_query(query@) && spec_starts_with(query@, install_prefix())
            && spec_install_arg(query@).len() > 0 ==> r@.len() > 0 && r@[0].score >= 1000000,
        !spec_is_file_query(query@) && cfg.windows.enabled ==> (forall|wi: int|
            0 <= wi < open_windows@.len() && #[trigger] spec_window_matches(
                open_windows@[wi],
                lower_of(query@),
            ) ==> exists|k: int|
                0 <= k < r@.len() && spec_window_result(
                    apps@,
                    open_windows@[wi],
                    cfg.windows.weight,
                    #[trigger] r@[k],
                )),
        !spec_is_file_query(query@) && !spec_starts_with(query@, install_prefix()) ==> r@.len()
            == (if cfg.applications.enabled && query@.len() > 0 {
            let total = crate::matcher::spec_match_count(query@, apps@, *usage, apps@.len() as int);
            if total <= max_results {
                total
            } else {
                max_results as int
            }
        } else {
            0int
        }) + (if cfg.windows.enabled {
            spec_window_count(open_windows@, lower_of(query@), open_windows@.len() as int)
        } else {
            0int
        }) + (if cfg.calculator.enabled && spec_calc_applies(query@) {
            1int
        } else {
            0int
        }),
{
    broadcast use vstd::seq_lib::group_to_multiset_ensures;

    let qc = chars_of(query);
    let is_file_q: bool = (qc.len() >= 1 && qc[0] == '/') || (qc.len() >= 2 && qc[0] == '~'
        && qc[1] == '/');
    let mut results: Vec<SearchResult> = if cfg.applications.enabled {
        fuzzy_search(query, apps, max_results, usage)
    } else {
        Vec::new()
    };
    let ghost base0 = results@;
    let ghost wq = lower_of(query@);
    proof {
        assert(base0.len() == (if cfg.applications.enabled && query@.len() > 0 {
            let total = crate::matcher::spec_match_count(query@, apps@, *usage, apps@.len() as int);
            if total <= max_results {
                total
            } else {
                max_results as int
            }
        } else {
            0int
        }));
    }
    if cfg.windows.enabled {
        let ql = lowercase_chars(qc.as_slice());
        let mut wi: usize = 0;
        while wi < open_windows.len()
            invariant
                0 <= wi <= open_windows@.len(),
                ql@ == wq,
                results@.len() == base0.len() + spec_window_count(open_windows@, wq, wi as int),
                forall|k: int| 0 <= k < base0.len() ==> results@[k] == base0[k],
                spec_windows_recorded(
                    apps@,
                    open_windows@,
                    wq,
                    cfg.windows.weight,
                    base0.len() as int,
                    wi as int,
                    results@,
                ),
            decreases open_windows@.len() - wi,
        {
            let w = &open_windows[wi];
            proof {
                lemma_window_count_nonneg(open_windows@, wq, wi as int);
            }
            let tl = lowercase_chars(chars_of(w.title.as_str()).as_slice());
            let cl = lowercase_chars(chars_of(w.class.as_str()).as_slice());
            let ghost prev = results@;
            if contains_chars(tl.as_slice(), ql.as_slice()) || contains_chars(
                cl.as_slice(),
                ql.as_slice(),
            ) {
                proof {
                    assert(spec_window_matches(open_windows@[wi as int], wq));
                }
                let cc = chars_of(w.class.as_str());
                let icon = window_icon(apps, cc.as_slice());
                let sr = window_result(w, icon, cfg.windows.weight);
                proof {
                    assert(cc@ == open_windows@[wi as int].class@);
                    assert(spec_window_result(apps@, open_windows@[wi as int], cfg.windows.weight, sr));
                }
                results.push(sr);
                proof {
                    assert(forall|k: int| 0 <= k < prev.len() ==> results@[k] == prev[k]);
                    assert(results@[prev.len() as int] == sr);
                    assert forall|wi2: int|
                        0 <= wi2 < wi + 1 && #[trigger] spec_window_matches(
                            open_windows@[wi2],
                            wq,
                        ) implies 0 <= base0.len() + spec_window_count(open_windows@, wq, wi2)
                        < results@.len() && spec_window_result(
                        apps@,
                        open_windows@[wi2],
                        cfg.windows.weight,
                        results@[base0.len() + spec_window_count(open_windows@, wq, wi2)],
                    ) by {
                        lemma_window_count_nonneg(open_windows@, wq, wi2);
                        if wi2 < wi {
                            lemma_window_count_mono(open_windows@, wq, wi2 + 1, wi as int);
                        } else {
                            assert(base0.len() + spec_window_count(open_windows@, wq, wi2)
                                == prev.len());
                        }
                    }
                }
            } else {
                proof {
                    assert(!spec_window_matches(open_windows@[wi as int], wq));
                    assert forall|wi2: int|
                        0 <= wi2 < wi + 1 && #[trigger] spec_window_matches(
                            open_windows@[wi2],
                            wq,
                        ) implies 0 <= base0.len() + spec_window_count(open_windows@, wq, wi2)
                        < results@.len() && spec_window_result(
                        apps@,
                        open_windows@[wi2],
                        cfg.windows.weight,
                        results@[base0.len() + spec_window_count(open_windows@, wq, wi2)],
                    ) by {
                        lemma_window_count_nonneg(open_windows@, wq, wi2);
                        if wi2 < wi {
                            lemma_window_count_mono(open_windows@, wq, wi2 + 1, wi as int);
                        }
                    }
                }
            }
            wi = wi + 1;
        }
    }
    let ghost wlen = results@.len() as int;
    proof {
        assert(wlen == base0.len() + (if cfg.windows.enabled {
            spec_window_count(open_windows@, wq, open_windows@.len() as int)
        } else {
            0int
        }));
        assert(cfg.windows.enabled ==> spec_windows_recorded(
            apps@,
            open_windows@,
            wq,
            cfg.windows.weight,
            base0.len() as int,
            open_windows@.len() as int,
            results@,
        ));
    }
    let ghost mut has_calc: bool = false;
    let ghost mut calc_idx: int = 0;
    let ghost mut calc_elem: SearchResult = vstd::pervasive::arbitrary();
    if cfg.calculator.enabled {
        match crate::math::evaluate(query) {
            Some(v) => {
                let vc = chars_of(v.as_str());
                let c = calc_result(vc.as_slice(), cfg.calculator.weight);
                proof {
                    has_calc = true;
                    calc_idx = results@.len() as int;
                    calc_elem = c;
                    assert(spec_calc_applies(query@));
                }
                results.push(c);
            },
            None => {
                proof {
                    if spec_calc_applies(query@) {
                        assert(false);
                    }
                }
            },
        }
    }
    let ghost csnap = results@;
    proof {
        assert(has_calc == (cfg.calculator.enabled && spec_calc_applies(query@)));
        assert(csnap.len() == wlen + (if has_calc {
            1int
        } else {
            0int
        }));
        if cfg.windows.enabled {
            assert forall|wi: int|
                0 <= wi < open_windows@.len() && #[trigger] spec_window_matches(
                    open_windows@[wi],
                    wq,
                ) implies 0 <= base0.len() + spec_window_count(open_windows@, wq, wi) < csnap.len()
                && spec_window_result(
                apps@,
                open_windows@[wi],
                cfg.windows.weight,
                csnap[base0.len() + spec_window_count(open_windows@, wq, wi)],
            ) by {
                lemma_window_count_nonneg(open_windows@, wq, wi);
                lemma_window_count_mono(open_windows@, wq, wi, open_windows@.len() as int);
            }
            assert(spec_windows_recorded(
                apps@,
                open_windows@,
                wq,
                cfg.windows.weight,
                base0.len() as int,
                open_windows@.len() as int,
                csnap,
            ));
        }
        if has_calc {
            assert(0 <= calc_idx < csnap.len() && csnap[calc_idx] == calc_elem);
        }
    }
    if is_file_q {
        if !cfg.files.enabled {
            return Vec::new();
        }
        return file_mode_results(file_index, query, cfg.files.weight);
    }
    let inst_prefix = chars_of("install ");
    proof {
        reveal_strlit("install ");
        assert(inst_prefix@.len() == 8);
    }
    let is_install = starts_with_chars(qc.as_slice(), inst_prefix.as_slice());
    if is_install {
        let stripped = crate::launcher::strip_prefix_all(qc.as_slice(), inst_prefix.as_slice());
        let url = trim_chars(stripped.as_slice());
        proof {
            assert(url@ == spec_install_arg(query@));
        }
        let ghost snap = results@;
        proof {
            assert(snap == csnap);
            if has_calc {
                assert(0 <= calc_idx < snap.len() && snap[calc_idx] == calc_elem);
            }
        }
        let url_local = url.len() >= 1 && (url[0] == '/' || (url.len() >= 2 && url[0] == '~'
            && url[1] == '/'));
        if url_local {
            let url_tilde = url.len() >= 2 && url[0] == '~' && url[1] == '/';
            let hc = chars_of(home);
            let expanded = expand_install_path(url.as_slice(), hc.as_slice());
            let url_under_home = starts_with_chars(url.as_slice(), hc.as_slice());
            let exp_s = string_from_chars(expanded.as_slice());
            let exp_is_dir = path_is_dir(exp_s.as_str());
            let ends_slash = expanded.len() >= 1 && expanded[expanded.len() - 1] == '/';
            let el = expanded.len();
            let (dir, prefix): (Vec<char>, Vec<char>) = if exp_is_dir && ends_slash {
                (sub_chars(expanded.as_slice(), 0, el), Vec::new())
            } else {
                match crate::files::rfind_char(expanded.as_slice(), '/') {
                    Some(i) => {
                        if i == 0 {
                            (chars_of("/"), sub_chars(expanded.as_slice(), 1, el))
                        } else {
                            (
                                sub_chars(expanded.as_slice(), 0, i),
                                sub_chars(expanded.as_slice(), i + 1, el),
                            )
                        }
                    },
                    None => (chars_of("/"), sub_chars(expanded.as_slice(), 0, el)),
                }
            };
            let dir_s = string_from_chars(dir.as_slice());
            match list_dir(dir_s.as_str()) {
                Some(listing) => {
                    let prefix_l = lowercase_chars(prefix.as_slice());
                    let mut li: usize = 0;
                    while li < listing.len()
                        invariant
                            0 <= li <= listing@.len(),
                            results@.len() >= snap.len(),
                            forall|a: int| 0 <= a < snap.len() ==> results@[a] == snap[a],
                            has_calc ==> 0 <= calc_idx < snap.len() && snap[calc_idx] == calc_elem,
                            cfg.windows.enabled ==> spec_windows_recorded(
                                apps@,
                                open_windows@,
                                wq,
                                cfg.windows.weight,
                                base0.len() as int,
                                open_windows@.len() as int,
                                snap,
                            ),
                        decreases listing@.len() - li,
                    {
                        let (name, entry_is_dir) = &listing[li];
                        let nc = chars_of(name.as_str());
                        let hidden = nc.len() >= 1 && nc[0] == '.';
                        let prefix_hidden = prefix.len() >= 1 && prefix[0] == '.';
                        if !(hidden && !prefix_hidden) {
                            let nl = lowercase_chars(nc.as_slice());
                            if starts_with_chars(nl.as_slice(), prefix_l.as_slice()) {
                                let sr = install_suggestion(
                                    nc.as_slice(),
                                    *entry_is_dir,
                                    dir.as_slice(),
                                    url_tilde,
                                    url_under_home,
                                    hc.as_slice(),
                                );
                                results.push(sr);
                            }
                        }
                        li = li + 1;
                    }
                },
                None => {
                },
            }
        } else if url.len() > 0 && !contains_chars(
            url.as_slice(),
            chars_of("github.com").as_slice(),
        ) && !starts_with_chars(url.as_slice(), chars_of("http").as_slice()) {
            let url_s = string_from_chars(url.as_slice());
            let fr = crate::files::search_index(file_index, url_s.as_str(), 15);
            let mut rest = fr;
            while rest.len() > 0
                invariant
                    results@.len() >= snap.len(),
                    forall|a: int| 0 <= a < snap.len() ==> results@[a] == snap[a],
                    has_calc ==> 0 <= calc_idx < snap.len() && snap[calc_idx] == calc_elem,
                    cfg.windows.enabled ==> spec_windows_recorded(
                        apps@,
                        open_windows@,
                        wq,
                        cfg.windows.weight,
                        base0.len() as int,
                        open_windows@.len() as int,
                        snap,
                    ),
                decreases rest@.len(),
            {
                let e = rest.remove(0);
                let p_is_dir = path_is_dir(e.exec_cmd.as_str());
                let pc = chars_of(e.exec_cmd.as_str());
                let parent: Vec<char> = match crate::files::rfind_char(pc.as_slice(), '/') {
                    Some(i) => sub_chars(pc.as_slice(), 0, i),
                    None => Vec::new(),
                };
                let subtitle: String = if p_is_dir {
                    let mut s = sub_chars(parent.as_slice(), 0, parent.len());
                    s.extend_from_slice(chars_of(" (Dir)").as_slice());
                    string_from_chars(s.as_slice())
                } else {
                    string_from_chars(parent.as_slice())
                };
                let exec_cmd: String = if p_is_dir {
                    let mut s = chars_of("fill:install ");
                    s.extend_from_slice(pc.as_slice());
                    s.push('/');
                    string_from_chars(s.as_slice())
                } else {
                    concat_str("install:", pc.as_slice())
                };
                let sr = SearchResult {
                    title: e.title,
                    subtitle: Some(subtitle),
                    icon: e.icon,
                    exec_cmd,
                    score: if p_is_dir {
                        900000
                    } else {
                        800000
                    },
                    match_indices: Vec::new(),
                    source: ResultSource::File,
                    actions: None,
                };
                results.push(sr);
            }
        }
        if url.len() > 0 {
            let url_s = string_from_chars(url.as_slice());
            let is_local = path_exists(url_s.as_str());
            let act = install_action_result(url.as_slice(), is_local);
            proof {
                assert(spec_is_install_action(url@, act));
            }
            let ghost act_idx = results@.len() as int;
            results.push(act);
            let ghost pre = results@;
            let sorted = sort_results_desc(results);
            proof {
                assert(pre[act_idx] == act);
                assert(pre.to_multiset().count(act) > 0);
                assert(sorted@.to_multiset().count(act) > 0);
                assert(sorted@.contains(act));
                let ka = choose|ka: int| 0 <= ka < sorted@.len() && sorted@[ka] == act;
                assert(sorted@[0].score >= sorted@[ka].score);
                assert(sorted@[0].score >= 1000000);
                if has_calc {
                    assert(pre[calc_idx] == snap[calc_idx]);
                    assert(pre[calc_idx] == calc_elem);
                    assert(pre.to_multiset().count(calc_elem) > 0);
                    assert(sorted@.to_multiset().count(calc_elem) > 0);
                    assert(sorted@.contains(calc_elem));
                }
                if cfg.windows.enabled {
                    assert forall|wi: int|
                        0 <= wi < open_windows@.len() && #[trigger] spec_window_matches(
                            open_windows@[wi],
                            lower_of(query@),
                        ) implies exists|k: int|
                        0 <= k < sorted@.len() && spec_window_result(
                            apps@,
                            open_windows@[wi],
                            cfg.windows.weight,
                            #[trigger] sorted@[k],
                        ) by {
                        assert(spec_window_matches(open_windows@[wi], wq));
                        let p = base0.len() + spec_window_count(open_windows@, wq, wi);
                        assert(0 <= p < snap.len() && spec_window_result(
                            apps@,
                            open_windows@[wi],
                            cfg.windows.weight,
                            snap[p],
                        ));
                        assert(pre[p] == snap[p]);
                        assert(pre.to_multiset().count(pre[p]) > 0);
                        assert(sorted@.to_multiset().count(pre[p]) > 0);
                        assert(sorted@.contains(pre[p]));
                        let k = choose|k: int| 0 <= k < sorted@.len() && sorted@[k] == pre[p];
                        assert(spec_window_result(
                            apps@,
                            open_windows@[wi],
                            cfg.windows.weight,
                            sorted@[k],
                        ));
                    }
                }
            }
            return sorted;
        }
        let ghost pre = results@;
        let sorted = sort_results_desc(results);
        proof {
            if has_calc {
                assert(pre[calc_idx] == snap[calc_idx]);
                assert(pre[calc_idx] == calc_elem);
                assert(pre.to_multiset().count(calc_elem) > 0);
                assert(sorted@.to_multiset().count(calc_elem) > 0);
                assert(sorted@.contains(calc_elem));
            }
                if cfg.windows.enabled {
                    assert forall|wi: int|
                        0 <= wi < open_windows@.len() && #[trigger] spec_window_matches(
                            open_windows@[wi],
                            lower_of(query@),
                        ) implies exists|k: int|
                        0 <= k < sorted@.len() && spec_window_result(
                            apps@,
                            open_windows@[wi],
                            cfg.windows.weight,
                            #[trigger] sorted@[k],
                        ) by {
                        assert(spec_window_matches(open_windows@[wi], wq));
                        let p = base0.len() + spec_window_count(open_windows@, wq, wi);
                        assert(0 <= p < snap.len() && spec_window_result(
                            apps@,
                            open_windows@[wi],
                            cfg.windows.weight,
                            snap[p],
                        ));
                        assert(pre[p] == snap[p]);
                        assert(pre.to_multiset().count(pre[p]) > 0);
                        assert(sorted@.to_multiset().count(pre[p]) > 0);
                        assert(sorted@.contains(pre[p]));
                        let k = choose|k: int| 0 <= k < sorted@.len() && sorted@[k] == pre[p];
                        assert(spec_window_result(
                            apps@,
                            open_windows@[wi],
                            cfg.windows.weight,
                            sorted@[k],
                        ));
                    }
                }
        }
        return sorted;
    }
    let ghost pre = results@;
    let sorted = sort_results_desc(results);
    proof {
        assert(pre == csnap);
        if has_calc {
            assert(pre[calc_idx] == calc_elem);
            assert(pre.to_multiset().count(calc_elem) > 0);
            assert(sorted@.to_multiset().count(calc_elem) > 0);
            assert(sorted@.contains(calc_elem));
        }
                if cfg.windows.enabled {
                    assert forall|wi: int|
                        0 <= wi < open_windows@.len() && #[trigger] spec_window_matches(
                            open_windows@[wi],
                            lower_of(query@),
                        ) implies exists|k: int|
                        0 <= k < sorted@.len() && spec_window_result(
                            apps@,
                            open_windows@[wi],
                            cfg.windows.weight,
                            #[trigger] sorted@[k],
                        ) by {
                        assert(spec_window_matches(open_windows@[wi], wq));
                        let p = base0.len() + spec_window_count(open_windows@, wq, wi);
                        assert(0 <= p < csnap.len() && spec_window_result(
                            apps@,
                            open_windows@[wi],
                            cfg.windows.weight,
                            csnap[p],
                        ));
                        assert(pre[p] == csnap[p]);
                        assert(pre.to_multiset().count(pre[p]) > 0);
                        assert(sorted@.to_multiset().count(pre[p]) > 0);
                        assert(sorted@.contains(pre[p]));
                        let k = choose|k: int| 0 <= k < sorted@.len() && sorted@[k] == pre[p];
                        assert(spec_window_result(
                            apps@,
                            open_windows@[wi],
                            cfg.windows.weight,
                            sorted@[k],
                        ));
                    }
                }
        assert(sorted@.len() == csnap.len());
    }
    sorted
}

} // verus!


