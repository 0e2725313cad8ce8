//! Fuzzy application search: scores every app against the query, applies
//! the usage bonus and field-priority penalties, and returns the ranked
//! top results.

use vstd::prelude::*;

use crate::history::UsageMap;
use crate::rank::{sort_results_desc, sorted_desc};
use crate::scanner::AppEntry;
use crate::score::{spec_usage_bonus, usage_bonus};
use crate::scripts::ScriptAction;

verus! {

/// Which provider produced a result.
#[derive(Clone, Copy, Debug, PartialEq, Eq, Structural)]
pub enum ResultSource {
    Application,
    Window,
    Calculator,
    File,
}

/// The unified record every provider produces: what to show, how to rank
/// it, and the action descriptor to dispatch on activation.
#[derive(Clone, Debug)]
pub struct SearchResult {
    pub title: String,
    pub subtitle: Option<String>,
    pub icon: Option<String>,
    pub exec_cmd: String,
    pub score: u32,
    pub match_indices: Vec<u32>,
    pub source: ResultSource,
    pub actions: Option<Vec<ScriptAction>>,
}

/// What nucleo's fuzzy matcher returns for a query and a haystack: a score
/// and the matched character positions, a function of the two strings alone.
pub uninterp spec fn fuzzy_of(q: Seq<char>, h: Seq<char>) -> Option<(u32, Seq<u32>)>;

/// The score component of a match outcome.
pub open spec fn score_of(o: Option<(u32, Seq<u32>)>) -> u32 {
    let p = o->0;
    p.0
}

/// The match-position component of a match outcome.
pub open spec fn indices_of(o: Option<(u32, Seq<u32>)>) -> Seq<u32> {
    let p = o->0;
    p.1
}

/// Relies on nucleo_matcher's `Atom::indices` over a fuzzy atom with the
/// default configuration, smart case and smart normalization: the score
/// (a `u16` widened to `u32`) and the match positions depend on the query
/// and haystack characters alone.
#[verifier::external_body]
fn fuzzy_match(query: &str, hay: &str) -> (r: Option<(u32, Vec<u32>)>)
    ensures
        r is Some <==> fuzzy_of(query@, hay@) is Some,
        r is Some ==> ({
            let p = r->0;
            score_of(fuzzy_of(query@, hay@)) == p.0 && indices_of(fuzzy_of(query@, hay@)) == p.1@
                && p.0 <= 65535
        }),
{
    let mut matcher = nucleo_matcher::Matcher::new(nucleo_matcher::Config::DEFAULT);
    let pattern = nucleo_matcher::pattern::Atom::new(
        query,
        nucleo_matcher::pattern::CaseMatching::Smart,
        nucleo_matcher::pattern::Normalization::Smart,
        nucleo_matcher::pattern::AtomKind::Fuzzy,
        false,
    );
    let mut buf = Vec::new();
    let hay32 = nucleo_matcher::Utf32Str::new(hay, &mut buf);
    let mut indices: Vec<u32> = Vec::new();
    let score = pattern.indices(hay32, &mut matcher, &mut indices)?;
    Some((score as u32, indices))
}

pub open spec fn sat_add_u32(a: u32, b: u32) -> u32 {
    if a + b > u32::MAX {
        u32::MAX
    } else {
        (a + b) as u32
    }
}

pub open spec fn sat_sub_u32(a: u32, b: u32) -> u32 {
    if a >= b {
        (a - b) as u32
    } else {
        0u32
    }
}

/// Penalty subtracted from a raw match score on the secondary field.
pub open spec fn generic_name_penalty() -> u32 {
    10
}

/// Penalty subtracted from a raw match score on the tertiary field.
pub open spec fn comment_penalty() -> u32 {
    20
}

/// How one application scores against a query: the fields are tried in
/// priority order `name`, `generic_name`, `comment`, and only the first
/// field that matches contributes.  Lower-priority fields pay a fixed
/// penalty before the usage bonus is added.
#[verifier::opaque]
pub open spec fn spec_score_app(q: Seq<char>, app: AppEntry, bonus: u32) -> Option<(u32, Seq<u32>)> {
    if fuzzy_of(q, app.name@) is Some {
        let p = fuzzy_of(q, app.name@)->0;
        Some((sat_add_u32(p.0, bonus), p.1))
    } else if app.generic_name is Some && fuzzy_of(q, app.generic_name->0@) is Some {
        let p = fuzzy_of(q, app.generic_name->0@)->0;
        Some((sat_add_u32(sat_sub_u32(p.0, generic_name_penalty()), bonus), p.1))
    } else if app.comment is Some && fuzzy_of(q, app.comment->0@) is Some {
        let p = fuzzy_of(q, app.comment->0@)->0;
        Some((sat_add_u32(sat_sub_u32(p.0, comment_penalty()), bonus), p.1))
    } else {
        None
    }
}

/// Field priority is exclusive: when the name matches, the score is the
/// name score plus the bonus, whatever the other fields hold — a match is
/// never double-counted.
pub proof fn lemma_name_match_wins(q: Seq<char>, app: AppEntry, bonus: u32)
    requires
        fuzzy_of(q, app.name@) is Some,
    ensures
        spec_score_app(q, app, bonus) == Some(
            (sat_add_u32(score_of(fuzzy_of(q, app.name@)), bonus), indices_of(
                fuzzy_of(q, app.name@),
            )),
        ),
{
    reveal(spec_score_app);
}

/// The usage bonus an application earns from the usage map.
pub open spec fn spec_bonus(usage: UsageMap, app: AppEntry) -> u32 {
    spec_usage_bonus(usage.spec_usage(app.exec_cmd@))
}

/// How many of the first `n` applications match the query.
pub open spec fn spec_match_count(
    q: Seq<char>,
    apps: Seq<AppEntry>,
    usage: UsageMap,
    n: int,
) -> int
    decreases n,
{
    if n <= 0 {
        0
    } else {
        spec_match_count(q, apps, usage, n - 1) + (if spec_score_app(
            q,
            apps[n - 1],
            spec_bonus(usage, apps[n - 1]),
        ) is Some {
            1int
        } else {
            0int
        })
    }
}

pub open spec fn opt_view_eq(a: Option<String>, b: Option<String>) -> bool {
    match b {
        Some(s) => a is Some && a->0@ == s@,
        None => a is None,
    }
}

/// `sr` is exactly the search result the matcher owes for `app`.
pub open spec fn spec_app_result(q: Seq<char>, app: AppEntry, bonus: u32, sr: SearchResult) -> bool {
    &&& spec_score_app(q, app, bonus) is Some
    &&& sr.score == score_of(spec_score_app(q, app, bonus))
    &&& sr.match_indices@ == indices_of(spec_score_app(q, app, bonus))
    &&& sr.title@ == app.name@
    &&& sr.exec_cmd@ == app.exec_cmd@
    &&& (match app.generic_name {
        Some(g) => sr.subtitle is Some && sr.subtitle->0@ == g@,
        None => opt_view_eq(sr.subtitle, app.comment),
    })
    &&& opt_view_eq(sr.icon, app.icon)
    &&& sr.source == ResultSource::Application
    &&& sr.actions is None
}

/// Scores one application; `None` when no field matches.
fn score_app(query: &str, app: &AppEntry, bonus: u32) -> (r: Option<(u32, Vec<u32>)>)
    requires
        bonus <= 200,
    ensures
        r is Some <==> spec_score_app(query@, *app, bonus) is Some,
        r is Some ==> ({
            let p = r->0;
            spec_score_app(query@, *app, bonus) == Some((p.0, p.1@))
        }),
{
    proof {
        reveal(spec_score_app);
    }
    match fuzzy_match(query, app.name.as_str()) {
        Some((s, ix)) => {
            return Some((s + bonus, ix));
        },
        None => {
        },
    }
    match &app.generic_name {
        Some(g) => {
            match fuzzy_match(query, g.as_str()) {
                Some((s, ix)) => {
                    let base: u32 = if s >= 10 {
                        s - 10
                    } else {
                        0
                    };
                    return Some((base + bonus, ix));
                },
                None => {
                },
            }
        },
        None => {
        },
    }
    match &app.comment {
        Some(c) => {
            match fuzzy_match(query, c.as_str()) {
                Some((s, ix)) => {
                    let base: u32 = if s >= 20 {
                        s - 20
                    } else {
                        0
                    };
                    return Some((base + bonus, ix));
                },
                None => {
                },
            }
        },
        None => {
        },
    }
    None
}

/// Builds the search result owed for a matched application.
fn make_app_result(app: &AppEntry, score: u32, indices: Vec<u32>) -> (sr: SearchResult)
    ensures
        sr.score == score,
        sr.match_indices@ == indices@,
        sr.title@ == app.name@,
        sr.exec_cmd@ == app.exec_cmd@,
        (match app.generic_name {
            Some(g) => sr.subtitle is Some && sr.subtitle->0@ == g@,
            None => opt_view_eq(sr.subtitle, app.comment),
        }),
        opt_view_eq(sr.icon, app.icon),
        sr.source == ResultSource::Application,
        sr.actions is None,
{
    let subtitle: Option<String> = match &app.generic_name {
        Some(g) => Some(g.clone()),
        None => match &app.comment {
            Some(c) => Some(c.clone()),
            None => None,
        },
    };
    let icon: Option<String> = match &app.icon {
        Some(i) => Some(i.clone()),
        None => None,
    };
    SearchResult {
        title: app.name.clone(),
        subtitle,
        icon,
        exec_cmd: app.exec_cmd.clone(),
        score,
        match_indices: indices,
        source: ResultSource::Application,
        actions: None,
    }
}

/// Fuzzy search across the application snapshot.  An empty query yields no
/// results.  Otherwise every application is scored by [`spec_score_app`]
/// with its usage bonus; the matches are ranked by score descending and
/// truncated to `max_results`.  The first result, if any, carries the
/// highest score among all matches.

/// Pushing the result owed for application `i` extends the slot map: each
/// matching application seen so far keeps its result at its match-count
/// slot, and application `i` takes the next slot.
#[verifier::rlimit(100)]
proof fn lemma_slots_push(
    q: Seq<char>,
    apps: Seq<AppEntry>,
    usage: UsageMap,
    prev: Seq<SearchResult>,
    m: Seq<SearchResult>,
    sr: SearchResult,
    i: int,
)
    requires
        0 <= i < apps.len(),
        m == prev.push(sr),
        prev.len() == spec_match_count(q, apps, usage, i),
        spec_app_result(q, apps[i], spec_bonus(usage, apps[i]), sr),
        forall|a: int|
            0 <= a < i && spec_score_app(q, #[trigger] apps[a], spec_bonus(usage, apps[a]))
                is Some ==> 0 <= spec_match_count(q, apps, usage, a) < prev.len()
                && spec_app_result(
                q,
                apps[a],
                spec_bonus(usage, apps[a]),
                prev[spec_match_count(q, apps, usage, a)],
            ),
    ensures
        forall|a: int|
            0 <= a < i + 1 && spec_score_app(q, #[trigger] apps[a], spec_bonus(usage, apps[a]))
                is Some ==> 0 <= spec_match_count(q, apps, usage, a) < m.len()
                && spec_app_result(
                q,
                apps[a],
                spec_bonus(usage, apps[a]),
                m[spec_match_count(q, apps, usage, a)],
            ),
{
    assert forall|a: int|
        0 <= a < i + 1 && spec_score_app(q, #[trigger] apps[a], spec_bonus(usage, apps[a]))
            is Some implies 0 <= spec_match_count(q, apps, usage, a) < m.len() && spec_app_result(
        q,
        apps[a],
        spec_bonus(usage, apps[a]),
        m[spec_match_count(q, apps, usage, a)],
    ) by {
        lemma_match_count_nonneg(q, apps, usage, a);
        if a < i {
            lemma_match_count_mono(q, apps, usage, a + 1, i);
            assert(m[spec_match_count(q, apps, usage, a)] == prev[spec_match_count(
                q,
                apps,
                usage,
                a,
            )]);
        } else {
            assert(spec_match_count(q, apps, usage, a) == prev.len());
            assert(m[prev.len() as int] == sr);
        }
    }
}

/// Every slot below the match count belongs to some earlier matching
/// application.
proof fn lemma_match_slot(q: Seq<char>, apps: Seq<AppEntry>, usage: UsageMap, i: int, b: int)
    requires
        0 <= b < spec_match_count(q, apps, usage, i),
    ensures
        exists|a: int|
            0 <= a < i && spec_score_app(q, #[trigger] apps[a], spec_bonus(usage, apps[a]))
                is Some && spec_match_count(q, apps, usage, a) == b,
    decreases i,
{
    lemma_match_count_nonneg(q, apps, usage, i - 1);
    if i > 0 {
        if b < spec_match_count(q, apps, usage, i - 1) {
            lemma_match_slot(q, apps, usage, i - 1, b);
        } else {
            assert(spec_score_app(q, apps[i - 1], spec_bonus(usage, apps[i - 1])) is Some
                && spec_match_count(q, apps, usage, i - 1) == b);
        }
    }
}

/// The match count is never negative./// The match count is never negative.
proof fn lemma_match_count_nonneg(q: Seq<char>, apps: Seq<AppEntry>, usage: UsageMap, n: int)
    ensures
        spec_match_count(q, apps, usage, n) >= 0,
    decreases n,
{
    if n > 0 {
        lemma_match_count_nonneg(q, apps, usage, n - 1);
    }
}

/// The match count only grows as more applications are scanned.
proof fn lemma_match_count_mono(q: Seq<char>, apps: Seq<AppEntry>, usage: UsageMap, m: int, n: int)
    requires
        m <= n,
    ensures
        spec_match_count(q, apps, usage, m) <= spec_match_count(q, apps, usage, n),
    decreases n - m,
{
    if m < n {
        lemma_match_count_mono(q, apps, usage, m, n - 1);
    }
}

/// A matching application contributes one to the match count.
proof fn lemma_match_count_pos(q: Seq<char>, apps: Seq<AppEntry>, usage: UsageMap, a: int, n: int)
    requires
        0 <= a < n,
        spec_score_app(q, apps[a], spec_bonus(usage, apps[a])) is Some,
    ensures
        spec_match_count(q, apps, usage, n) >= 1,
{
    lemma_match_count_nonneg(q, apps, usage, a);
    assert(spec_match_count(q, apps, usage, a + 1) >= 1);
    lemma_match_count_mono(q, apps, usage, a + 1, n);
}

/// Fuzzy search across the application snapshot.  An empty query yields no
/// results.  Otherwise every application is scored by [`spec_score_app`]
/// with its usage bonus; the matches are ranked by score descending and
/// truncated to `max_results`.  The first result, if any, carries the
/// highest score among all matches.
#[verifier::rlimit(100)]
pub fn fuzzy_search(
    query: &str,
    apps: &Vec<AppEntry>,
    max_results: usize,
    usage: &UsageMap,
) -> (r: Vec<SearchResult>)
    requires
        usage.wf(),
    ensures
        query@.len() == 0 ==> r@.len() == 0,
        query@.len() > 0 ==> {
            let total = spec_match_count(query@, apps@, *usage, apps@.len() as int);
            &&& r@.len() == (if total <= max_results {
                total
            } else {
                max_results as int
            })
            &&& sorted_desc(r@)
            &&& (forall|k: int|
                0 <= k < r@.len() ==> exists|i: int|
                    0 <= i < apps@.len() && spec_app_result(
                        query@,
                        apps@[i],
                        spec_bonus(*usage, apps@[i]),
                        #[trigger] r@[k],
                    ))
            &&& (r@.len() > 0 ==> (forall|i: int|
                0 <= i < apps@.len() && spec_score_app(
                    query@,
                    #[trigger] apps@[i],
                    spec_bonus(*usage, apps@[i]),
                ) is Some ==> score_of(
                    spec_score_app(query@, apps@[i], spec_bonus(*usage, apps@[i])),
                ) <= r@[0].score))
            &&& (total <= max_results ==> (forall|i: int|
                0 <= i < apps@.len() && spec_score_app(
                    query@,
                    #[trigger] apps@[i],
                    spec_bonus(*usage, apps@[i]),
                ) is Some ==> exists|k: int|
                    0 <= k < r@.len() && spec_app_result(
                        query@,
                        apps@[i],
                        spec_bonus(*usage, apps@[i]),
                        #[trigger] r@[k],
                    )))
        },
{
    if query.is_empty() {
        return Vec::new();
    }
    let mut matched: Vec<SearchResult> = Vec::new();
    let mut top: u32 = 0;
    let ghost mut top_k: int = 0;
    let mut i: usize = 0;
    while i < apps.len()
        invariant
            usage.wf(),
            query@.len() > 0,
            0 <= i <= apps@.len(),
            matched@.len() == spec_match_count(query@, apps@, *usage, i as int),
            forall|a: int|
                0 <= a < i && spec_score_app(
                    query@,
                    #[trigger] apps@[a],
                    spec_bonus(*usage, apps@[a]),
                ) is Some ==> score_of(spec_score_app(query@, apps@[a], spec_bonus(*usage, apps@[a])))
                    <= top,
            forall|a: int|
                0 <= a < i && spec_score_app(
                    query@,
                    #[trigger] apps@[a],
                    spec_bonus(*usage, apps@[a]),
                ) is Some ==> 0 <= spec_match_count(query@, apps@, *usage, a) < matched@.len()
                    && spec_app_result(
                    query@,
                    apps@[a],
                    spec_bonus(*usage, apps@[a]),
                    matched@[spec_match_count(query@, apps@, *usage, a)],
                ),
            matched@.len() > 0 ==> 0 <= top_k < matched@.len() && matched@[top_k].score == top,
            matched@.len() == 0 ==> top == 0,
        decreases apps@.len() - i,
    {
        let app = &apps[i];
        let count = usage.get(app.exec_cmd.as_str());
        let bonus = usage_bonus(count);
        proof {
            crate::score::lemma_usage_bonus_bounded(count);
        }
        let ghost prev = matched@;
        match score_app(query, app, bonus) {
            Some((score, indices)) => {
                let sr = make_app_result(app, score, indices);
                matched.push(sr);
                if score >= top {
                    top = score;
                    proof {
                        top_k = matched@.len() - 1;
                    }
                }
                proof {
                    lemma_slots_push(query@, apps@, *usage, prev, matched@, sr, i as int);
                }
            },
            None => {
                proof {
                    assert forall|a: int|
                        0 <= a < i + 1 && spec_score_app(
                            query@,
                            #[trigger] apps@[a],
                            spec_bonus(*usage, apps@[a]),
                        ) is Some implies 0 <= spec_match_count(query@, apps@, *usage, a)
                        < matched@.len() && spec_app_result(
                        query@,
                        apps@[a],
                        spec_bonus(*usage, apps@[a]),
                        matched@[spec_match_count(query@, apps@, *usage, a)],
                    ) by {
                        lemma_match_count_nonneg(query@, apps@, *usage, a);
                        if a < i {
                            lemma_match_count_mono(query@, apps@, *usage, a + 1, i as int);
                        }
                    }
                }
            },
        }
        i = i + 1;
    }
    let ghost cand = matched@;
    let ghost gtop = top;
    let ghost gtop_k = top_k;
    let mut ranked = sort_results_desc(matched);
    proof {
        broadcast use vstd::seq_lib::group_to_multiset_ensures;

        assert forall|a: int|
            0 <= a < apps@.len() && spec_score_app(
                query@,
                #[trigger] apps@[a],
                spec_bonus(*usage, apps@[a]),
            ) is Some implies ranked@.len() > 0 && score_of(
            spec_score_app(query@, apps@[a], spec_bonus(*usage, apps@[a])),
        ) <= ranked@[0].score by {
            lemma_match_count_pos(query@, apps@, *usage, a, apps@.len() as int);
            assert(cand.len() >= 1);
            assert(ranked@.len() == cand.len());
            let e = cand[gtop_k];
            assert(cand.to_multiset().count(e) > 0);
            assert(ranked@.to_multiset().count(e) > 0);
            assert(ranked@.contains(e));
            let k2 = choose|k2: int| 0 <= k2 < ranked@.len() && ranked@[k2] == e;
            assert(ranked@[0].score >= ranked@[k2].score);
        }
        assert forall|k: int| 0 <= k < ranked@.len() implies exists|i2: int|
            0 <= i2 < apps@.len() && spec_app_result(
                query@,
                apps@[i2],
                spec_bonus(*usage, apps@[i2]),
                #[trigger] ranked@[k],
            ) by {
            assert(ranked@.to_multiset().count(ranked@[k]) > 0);
            assert(cand.to_multiset().count(ranked@[k]) > 0);
            assert(cand.contains(ranked@[k]));
            let j = choose|j: int| 0 <= j < cand.len() && cand[j] == ranked@[k];
            lemma_match_slot(query@, apps@, *usage, apps@.len() as int, j);
            let a = choose|a: int|
                0 <= a < apps@.len() && spec_score_app(
                    query@,
                    #[trigger] apps@[a],
                    spec_bonus(*usage, apps@[a]),
                ) is Some && spec_match_count(query@, apps@, *usage, a) == j;
            assert(spec_app_result(query@, apps@[a], spec_bonus(*usage, apps@[a]), cand[j]));
        }
        assert(ranked@.len() == cand.len());
        assert forall|a: int|
            0 <= a < apps@.len() && spec_score_app(
                query@,
                #[trigger] apps@[a],
                spec_bonus(*usage, apps@[a]),
            ) is Some implies exists|k: int|
            0 <= k < ranked@.len() && spec_app_result(
                query@,
                apps@[a],
                spec_bonus(*usage, apps@[a]),
                #[trigger] ranked@[k],
            ) by {
            lemma_match_count_nonneg(query@, apps@, *usage, a);
            lemma_match_count_mono(query@, apps@, *usage, a + 1, apps@.len() as int);
            let slot = spec_match_count(query@, apps@, *usage, a);
            assert(spec_app_result(query@, apps@[a], spec_bonus(*usage, apps@[a]), cand[slot]));
            assert(cand.to_multiset().count(cand[slot]) > 0);
            assert(ranked@.to_multiset().count(cand[slot]) > 0);
            assert(ranked@.contains(cand[slot]));
            let k = choose|k: int| 0 <= k < ranked@.len() && ranked@[k] == cand[slot];
            assert(spec_app_result(query@, apps@[a], spec_bonus(*usage, apps@[a]), ranked@[k]));
        }
    }
    if ranked.len() > max_results {
        let ghost full = ranked@;
        ranked.truncate(max_results);
        proof {
            assert(ranked@ == full.subrange(0, max_results as int));
            assert(forall|k: int| 0 <= k < ranked@.len() ==> ranked@[k] == full[k]);
            assert(sorted_desc(ranked@));
        }
    }
    proof {
        lemma_match_count_nonneg(query@, apps@, *usage, apps@.len() as int);
    }
    ranked
}

} // verus!
