//! Application index: desktop-entry parsing, name deduplication across
//! ordered scan directories, icon-cache policy, and the sorted snapshot.
//! Reading directories and files is I/O and happens outside the crate;
//! the parsed text of each descriptor file is handed in, in directory
//! priority order.

use vstd::prelude::*;
use vstd::multiset::Multiset;

use crate::text::{
    chars_of, eq_chars, eq_ignore_ascii_chars, find_char, lex_le, lex_le_chars, lower_of,
    lowercase_chars, seq_ascii_lower, spec_split, spec_trim, split_chars, string_from_chars,
    sub_chars, trim_chars,
};

verus! {

/// One installed application, parsed from a desktop-entry file.  Identity
/// is the display `name`; an index never holds two entries with one name.
#[derive(Clone, Debug)]
pub struct AppEntry {
    pub name: String,
    pub generic_name: Option<String>,
    pub comment: Option<String>,
    pub exec_cmd: String,
    pub icon: Option<String>,
    pub categories: Vec<String>,
    pub terminal: bool,
    pub startup_wm_class: Option<String>,
    pub desktop_file_path: String,
}

/// The text of one descriptor file, with the path it was read from.
/// Files arrive in directory priority order: system-wide first, then
/// user-local, then the environment-declared directories.
#[derive(Clone, Debug)]
pub struct DesktopFile {
    pub path: String,
    pub contents: String,
}

/// Abstract state of a desktop-entry parse: the recognized fields, whether
/// the parser is inside the `[Desktop Entry]` section, and whether a later
/// section header ended it.
pub struct DesktopInfo {
    pub name: Option<Seq<char>>,
    pub generic_name: Option<Seq<char>>,
    pub comment: Option<Seq<char>>,
    pub exec_cmd: Option<Seq<char>>,
    pub icon: Option<Seq<char>>,
    pub categories: Seq<Seq<char>>,
    pub terminal: bool,
    pub startup_wm_class: Option<Seq<char>>,
    pub no_display: bool,
    pub hidden: bool,
    pub in_section: bool,
    pub done: bool,
}

pub open spec fn empty_info() -> DesktopInfo {
    DesktopInfo {
        name: None,
        generic_name: None,
        comment: None,
        exec_cmd: None,
        icon: None,
        categories: Seq::empty(),
        terminal: false,
        startup_wm_class: None,
        no_display: false,
        hidden: false,
        in_section: false,
        done: false,
    }
}

/// The non-empty segments among `parts`, in order (Categories entries).
pub open spec fn spec_nonempty_segments(parts: Seq<Seq<char>>, n: int) -> Seq<Seq<char>>
    decreases n,
{
    if n <= 0 {
        Seq::<Seq<char>>::empty()
    } else {
        spec_nonempty_segments(parts, n - 1) + (if parts[n - 1].len() > 0 {
            seq![parts[n - 1]]
        } else {
            Seq::<Seq<char>>::empty()
        })
    }
}

/// A value equals `true` ignoring ASCII case.
pub open spec fn spec_is_true(value: Seq<char>) -> bool {
    seq_ascii_lower(value) == seq_ascii_lower("true"@)
}

/// How one line of a descriptor file updates the parse state.
pub open spec fn spec_apply_line(st: DesktopInfo, line: Seq<char>) -> DesktopInfo {
    let t = spec_trim(line);
    if st.done {
        st
    } else if t == "[Desktop Entry]"@ {
        DesktopInfo { in_section: true, ..st }
    } else if t.len() >= 2 && t[0] == '[' && t[t.len() - 1] == ']' && st.in_section {
        DesktopInfo { done: true, ..st }
    } else if !st.in_section {
        st
    } else if exists|i: int| 0 <= i < t.len() && #[trigger] t[i] == '=' {
        spec_apply_key_value(st, t)
    } else {
        st
    }
}

/// Splits a trimmed `key=value` line at its first `=` and records the value
/// under a recognized key; unknown keys are ignored.
pub open spec fn spec_apply_key_value(st: DesktopInfo, t: Seq<char>) -> DesktopInfo {
    let eq = spec_first_eq(t);
    let key = spec_trim(t.subrange(0, eq));
    let value = spec_trim(t.subrange(eq + 1, t.len() as int));
    if key == "Name"@ {
        DesktopInfo { name: Some(value), ..st }
    } else if key == "GenericName"@ {
        DesktopInfo { generic_name: Some(value), ..st }
    } else if key == "Comment"@ {
        DesktopInfo { comment: Some(value), ..st }
    } else if key == "Exec"@ {
        DesktopInfo { exec_cmd: Some(value), ..st }
    } else if key == "Icon"@ {
        DesktopInfo { icon: Some(value), ..st }
    } else if key == "StartupWMClass"@ {
        DesktopInfo { startup_wm_class: Some(value), ..st }
    } else if key == "Terminal"@ {
        DesktopInfo { terminal: spec_is_true(value), ..st }
    } else if key == "NoDisplay"@ {
        DesktopInfo { no_display: spec_is_true(value), ..st }
    } else if key == "Hidden"@ {
        DesktopInfo { hidden: spec_is_true(value), ..st }
    } else if key == "Categories"@ {
        let parts = spec_split(value, ';');
        DesktopInfo { categories: spec_nonempty_segments(parts, parts.len() as int), ..st }
    } else {
        st
    }
}

/// Index of the first `=` in a line known to contain one.
pub open spec fn spec_first_eq(t: Seq<char>) -> int {
    choose|i: int| 0 <= i < t.len() && t[i] == '=' && (forall|k: int| 0 <= k < i ==> t[k] != '=')
}

/// The parse state after the first `n` lines.
pub open spec fn spec_fold_lines(lines: Seq<Seq<char>>, n: int) -> DesktopInfo
    decreases n,
{
    if n <= 0 {
        empty_info()
    } else {
        spec_apply_line(spec_fold_lines(lines, n - 1), lines[n - 1])
    }
}

/// The fields a descriptor file's text parses to.
pub open spec fn spec_parse_desktop(contents: Seq<char>) -> DesktopInfo {
    let lines = spec_split(contents, '\n');
    spec_fold_lines(lines, lines.len() as int)
}

/// Whether a parsed file yields an entry: it must not be flagged hidden or
/// no-display, and must carry both a name and an exec line.
pub open spec fn spec_parse_accepts(contents: Seq<char>) -> bool {
    let info = spec_parse_desktop(contents);
    &&& !info.no_display
    &&& !info.hidden
    &&& info.name is Some
    &&& info.exec_cmd is Some
}

pub open spec fn opt_seq_eq(a: Option<String>, b: Option<Seq<char>>) -> bool {
    match b {
        Some(s) => a is Some && a->0@ == s,
        None => a is None,
    }
}

/// `e` carries exactly the fields parsed from a file at `path` whose parse
/// state is `info`, with the raw icon name still unresolved.
pub open spec fn spec_entry_of(e: AppEntry, path: Seq<char>, info: DesktopInfo) -> bool {
    &&& info.name is Some && e.name@ == info.name->0
    &&& info.exec_cmd is Some && e.exec_cmd@ == info.exec_cmd->0
    &&& opt_seq_eq(e.generic_name, info.generic_name)
    &&& opt_seq_eq(e.comment, info.comment)
    &&& opt_seq_eq(e.icon, info.icon)
    &&& e.categories@.map_values(|s: String| s@) == info.categories
    &&& e.terminal == info.terminal
    &&& opt_seq_eq(e.startup_wm_class, info.startup_wm_class)
    &&& e.desktop_file_path@ == path
}

/// Exec mirror of the parse state, with view [`DesktopInfo`].
struct ParseSt {
    name: Option<Vec<char>>,
    generic_name: Option<Vec<char>>,
    comment: Option<Vec<char>>,
    exec_cmd: Option<Vec<char>>,
    icon: Option<Vec<char>>,
    categories: Vec<Vec<char>>,
    terminal: bool,
    startup_wm_class: Option<Vec<char>>,
    no_display: bool,
    hidden: bool,
    in_section: bool,
    done: bool,
}

spec fn opt_chars_view(o: Option<Vec<char>>) -> Option<Seq<char>> {
    match o {
        Some(v) => Some(v@),
        None => None,
    }
}

impl ParseSt {
    spec fn view(&self) -> DesktopInfo {
        DesktopInfo {
            name: opt_chars_view(self.name),
            generic_name: opt_chars_view(self.generic_name),
            comment: opt_chars_view(self.comment),
            exec_cmd: opt_chars_view(self.exec_cmd),
            icon: opt_chars_view(self.icon),
            categories: self.categories@.map_values(|v: Vec<char>| v@),
            terminal: self.terminal,
            startup_wm_class: opt_chars_view(self.startup_wm_class),
            no_display: self.no_display,
            hidden: self.hidden,
            in_section: self.in_section,
            done: self.done,
        }
    }
}


impl ParseSt {
    fn empty() -> (r: ParseSt)
        ensures
            r@ == empty_info(),
    {
        let r = ParseSt {
            name: None,
            generic_name: None,
            comment: None,
            exec_cmd: None,
            icon: None,
            categories: Vec::new(),
            terminal: false,
            startup_wm_class: None,
            no_display: false,
            hidden: false,
            in_section: false,
            done: false,
        };
        proof {
            assert(r@.categories =~= empty_info().categories);
            assert(r@ =~= empty_info());
        }
        r
    }
}

/// Applies one line of a descriptor file to the parse state.
#[verifier::rlimit(60)]
fn apply_line(st: &mut ParseSt, line: &[char])
    ensures
        final(st)@ == spec_apply_line(old(st)@, line@),
{
    let t = trim_chars(line);
    let ghost tv = t@;
    if st.done {
        return ;
    }
    let header = chars_of("[Desktop Entry]");
    if eq_chars(t.as_slice(), header.as_slice()) {
        st.in_section = true;
        proof {
            assert(st@ =~= spec_apply_line(old(st)@, line@));
        }
        return ;
    }
    if t.len() >= 2 && t[0] == '[' && t[t.len() - 1] == ']' && st.in_section {
        st.done = true;
        proof {
            assert(st@ =~= spec_apply_line(old(st)@, line@));
        }
        return ;
    }
    if !st.in_section {
        return ;
    }
    match find_char(t.as_slice(), '=') {
        Some(eq) => {
            proof {
                assert(tv[eq as int] == '=');
                let w = spec_first_eq(tv);
                assert(0 <= w < tv.len() && tv[w] == '=' && (forall|k: int|
                    0 <= k < w ==> tv[k] != '=')) by {
                    assert(0 <= eq < tv.len() && tv[eq as int] == '=' && (forall|k: int|
                        0 <= k < eq ==> tv[k] != '='));
                }
                if w != eq {
                    if w < eq {
                        assert(tv[w] != '=');
                    } else {
                        assert(tv[eq as int] != '=');
                    }
                    assert(false);
                }
            }
            let key = trim_chars(sub_chars(t.as_slice(), 0, eq).as_slice());
            let value = trim_chars(sub_chars(t.as_slice(), eq + 1, t.len()).as_slice());
            let ghost gst = spec_apply_key_value(old(st)@, tv);
            if eq_chars(key.as_slice(), chars_of("Name").as_slice()) {
                st.name = Some(value);
            } else if eq_chars(key.as_slice(), chars_of("GenericName").as_slice()) {
                st.generic_name = Some(value);
            } else if eq_chars(key.as_slice(), chars_of("Comment").as_slice()) {
                st.comment = Some(value);
            } else if eq_chars(key.as_slice(), chars_of("Exec").as_slice()) {
                st.exec_cmd = Some(value);
            } else if eq_chars(key.as_slice(), chars_of("Icon").as_slice()) {
                st.icon = Some(value);
            } else if eq_chars(key.as_slice(), chars_of("StartupWMClass").as_slice()) {
                st.startup_wm_class = Some(value);
            } else if eq_chars(key.as_slice(), chars_of("Terminal").as_slice()) {
                st.terminal = eq_ignore_ascii_chars(value.as_slice(), chars_of("true").as_slice());
            } else if eq_chars(key.as_slice(), chars_of("NoDisplay").as_slice()) {
                st.no_display = eq_ignore_ascii_chars(
                    value.as_slice(),
                    chars_of("true").as_slice(),
                );
            } else if eq_chars(key.as_slice(), chars_of("Hidden").as_slice()) {
                st.hidden = eq_ignore_ascii_chars(value.as_slice(), chars_of("true").as_slice());
            } else if eq_chars(key.as_slice(), chars_of("Categories").as_slice()) {
                let parts = split_chars(value.as_slice(), ';');
                let ghost pviews = parts@.map_values(|x: Vec<char>| x@);
                let mut cats: Vec<Vec<char>> = Vec::new();
                let mut i: usize = 0;
                proof {
                    assert(cats@.map_values(|x: Vec<char>| x@) =~= spec_nonempty_segments(
                        pviews,
                        0,
                    ));
                }
                while i < parts.len()
                    invariant
                        0 <= i <= parts@.len(),
                        pviews == parts@.map_values(|x: Vec<char>| x@),
                        cats@.map_values(|x: Vec<char>| x@) == spec_nonempty_segments(
                            pviews,
                            i as int,
                        ),
                    decreases parts@.len() - i,
                {
                    let ghost prev = cats@;
                    if parts[i].len() > 0 {
                        let p = sub_chars(parts[i].as_slice(), 0, parts[i].len());
                        proof {
                            assert(p@ =~= pviews[i as int]);
                        }
                        cats.push(p);
                        proof {
                            let f = |x: Vec<char>| x@;
                            assert(cats@.map_values(f) =~= prev.map_values(f).push(
                                pviews[i as int],
                            ));
                            assert(cats@.map_values(f) =~= spec_nonempty_segments(
                                pviews,
                                i as int + 1,
                            ));
                        }
                    } else {
                        proof {
                            assert(pviews[i as int].len() == 0);
                            assert(spec_nonempty_segments(pviews, i as int + 1)
                                =~= spec_nonempty_segments(pviews, i as int));
                        }
                    }
                    i = i + 1;
                }
                st.categories = cats;
            }
            proof {
                assert(st@ =~= gst);
                assert(st@ =~= spec_apply_line(old(st)@, line@));
            }
        },
        None => {
            proof {
                assert(st@ =~= spec_apply_line(old(st)@, line@));
            }
        },
    }
}

fn opt_chars_to_string(o: Option<Vec<char>>) -> (r: Option<String>)
    ensures
        opt_seq_eq(r, opt_chars_view(o)),
{
    match o {
        Some(v) => Some(string_from_chars(v.as_slice())),
        None => None,
    }
}

/// Parses one descriptor file's text.  The entry's `icon` field holds the
/// raw icon name from the file; resolution to a path is a separate step.
/// A file flagged hidden or no-display, or missing its name or exec line,
/// yields no entry.
pub fn parse_desktop_file(path: &str, contents: &str) -> (r: Option<AppEntry>)
    ensures
        spec_parse_accepts(contents@) ==> r is Some && spec_entry_of(
            r->0,
            path@,
            spec_parse_desktop(contents@),
        ),
        !spec_parse_accepts(contents@) ==> r is None,
{
    let cc = chars_of(contents);
    let lines = split_chars(cc.as_slice(), '\n');
    let ghost lviews = lines@.map_values(|x: Vec<char>| x@);
    let mut st = ParseSt::empty();
    let mut i: usize = 0;
    while i < lines.len()
        invariant
            0 <= i <= lines@.len(),
            lviews == lines@.map_values(|x: Vec<char>| x@),
            st@ == spec_fold_lines(lviews, i as int),
        decreases lines@.len() - i,
    {
        apply_line(&mut st, lines[i].as_slice());
        proof {
            assert(lviews[i as int] == lines@[i as int]@);
        }
        i = i + 1;
    }
    proof {
        assert(lviews == spec_split(contents@, '\n'));
        assert(st@ == spec_parse_desktop(contents@));
    }
    if st.no_display || st.hidden {
        return None;
    }
    let name = match st.name {
        Some(v) => string_from_chars(v.as_slice()),
        None => {
            return None;
        },
    };
    let exec_cmd = match st.exec_cmd {
        Some(v) => string_from_chars(v.as_slice()),
        None => {
            return None;
        },
    };
    let mut categories: Vec<String> = Vec::new();
    let mut k: usize = 0;
    let ghost cviews = st.categories@.map_values(|x: Vec<char>| x@);
    while k < st.categories.len()
        invariant
            0 <= k <= st.categories@.len(),
            cviews == st.categories@.map_values(|x: Vec<char>| x@),
            categories@.map_values(|s: String| s@) == cviews.subrange(0, k as int),
        decreases st.categories@.len() - k,
    {
        let ghost prev = categories@;
        let s = string_from_chars(st.categories[k].as_slice());
        categories.push(s);
        proof {
            let f = |s: String| s@;
            assert(categories@.map_values(f) =~= prev.map_values(f).push(cviews[k as int]));
            assert(categories@.map_values(f) =~= cviews.subrange(0, k as int + 1));
        }
        k = k + 1;
    }
    proof {
        assert(cviews.subrange(0, cviews.len() as int) =~= cviews);
    }
    let entry = AppEntry {
        name,
        generic_name: opt_chars_to_string(st.generic_name),
        comment: opt_chars_to_string(st.comment),
        exec_cmd,
        icon: opt_chars_to_string(st.icon),
        categories,
        terminal: st.terminal,
        startup_wm_class: opt_chars_to_string(st.startup_wm_class),
        desktop_file_path: path.to_owned(),
    };
    Some(entry)
}


/// Indices of the entries kept by name deduplication: an entry stays
/// exactly when no earlier entry bears its name.
pub open spec fn spec_kept_idx(names: Seq<Seq<char>>, n: int) -> Seq<int>
    decreases n,
{
    if n <= 0 {
        Seq::<int>::empty()
    } else {
        spec_kept_idx(names, n - 1) + (if exists|j: int| 0 <= j < n - 1 && #[trigger] names[j] == names[n - 1] {
            Seq::<int>::empty()
        } else {
            seq![n - 1]
        })
    }
}

/// A later entry with an already-seen name is dropped: its index is never
/// among the kept indices.
pub proof fn lemma_dedup_first_wins(names: Seq<Seq<char>>, i: int, j: int, n: int)
    requires
        0 <= i < j < names.len(),
        names[i] == names[j],
        n <= names.len(),
    ensures
        !spec_kept_idx(names, n).contains(j),
    decreases n,
{
    if n > 0 {
        lemma_dedup_first_wins(names, i, j, n - 1);
        let kp = spec_kept_idx(names, n - 1);
        let k = spec_kept_idx(names, n);
        if n - 1 == j {
            assert(exists|a: int| 0 <= a < n - 1 && #[trigger] names[a] == names[n - 1]);
            assert(k =~= kp);
        }
        if k.contains(j) {
            let a = choose|a: int| 0 <= a < k.len() && k[a] == j;
            if a < kp.len() {
                assert(kp.contains(j));
            } else {
                assert(k[a] == n - 1);
                assert(n - 1 == j);
            }
            assert(false);
        }
    }
}

/// The first entry with a given name is kept.
pub proof fn lemma_dedup_keeps_first(names: Seq<Seq<char>>, i: int, n: int)
    requires
        0 <= i < n <= names.len(),
        forall|j: int| 0 <= j < i ==> names[j] != names[i],
    ensures
        spec_kept_idx(names, n).contains(i),
    decreases n,
{
    if n - 1 == i {
        let k = spec_kept_idx(names, n);
        let kp = spec_kept_idx(names, n - 1);
        assert(!(exists|j: int| 0 <= j < n - 1 && #[trigger] names[j] == names[n - 1]));
        assert(k =~= kp + seq![i]);
        assert(k[kp.len() as int] == i);
    } else {
        lemma_dedup_keeps_first(names, i, n - 1);
        let kp = spec_kept_idx(names, n - 1);
        let k = spec_kept_idx(names, n);
        let a = choose|a: int| 0 <= a < kp.len() && kp[a] == i;
        assert(k[a] == i);
    }
}

proof fn lemma_kept_idx_bounds(names: Seq<Seq<char>>, n: int)
    ensures
        forall|k: int|
            0 <= k < spec_kept_idx(names, n).len() ==> 0 <= #[trigger] spec_kept_idx(names, n)[k]
                < n,
        forall|k1: int, k2: int|
            0 <= k1 < k2 < spec_kept_idx(names, n).len() ==> spec_kept_idx(names, n)[k1]
                < spec_kept_idx(names, n)[k2],
    decreases n,
{
    if n > 0 {
        lemma_kept_idx_bounds(names, n - 1);
        let kp = spec_kept_idx(names, n - 1);
        let k = spec_kept_idx(names, n);
        assert forall|a: int| 0 <= a < k.len() implies 0 <= #[trigger] k[a] < n by {
            if a < kp.len() {
                assert(k[a] == kp[a]);
            }
        }
        assert forall|a: int, b: int| 0 <= a < b < k.len() implies k[a] < k[b] by {
            if b < kp.len() {
                assert(k[a] == kp[a] && k[b] == kp[b]);
            } else {
                assert(k[a] == kp[a] && k[b] == n - 1);
            }
        }
    }
}

/// The name at position `j` is borne by some entry kept among the first `n`.
pub open spec fn spec_name_covered(names: Seq<Seq<char>>, n: int, j: int) -> bool {
    exists|a: int|
        0 <= a < spec_kept_idx(names, n).len() && names[#[trigger] spec_kept_idx(names, n)[a]]
            == names[j]
}

/// Every name among the first `n` is borne by some kept entry.
proof fn lemma_kept_covers(names: Seq<Seq<char>>, n: int)
    ensures
        forall|j: int| 0 <= j < n ==> #[trigger] spec_name_covered(names, n, j),
    decreases n,
{
    lemma_kept_idx_bounds(names, n);
    if n > 0 {
        lemma_kept_covers(names, n - 1);
        lemma_kept_idx_bounds(names, n - 1);
        let kp = spec_kept_idx(names, n - 1);
        let k = spec_kept_idx(names, n);
        assert forall|j: int| 0 <= j < n implies #[trigger] spec_name_covered(names, n, j) by {
            if j < n - 1 {
                assert(spec_name_covered(names, n - 1, j));
                let a = choose|a: int| 0 <= a < kp.len() && names[#[trigger] kp[a]] == names[j];
                assert(k[a] == kp[a]);
                assert(names[k[a]] == names[j]);
            } else {
                if exists|j2: int| 0 <= j2 < n - 1 && #[trigger] names[j2] == names[n - 1] {
                    let j2 = choose|j2: int|
                        0 <= j2 < n - 1 && #[trigger] names[j2] == names[n - 1];
                    assert(spec_name_covered(names, n - 1, j2));
                    let a = choose|a: int| 0 <= a < kp.len() && names[#[trigger] kp[a]] == names[j2];
                    assert(k[a] == kp[a]);
                    assert(names[k[a]] == names[j]);
                } else {
                    assert(k =~= kp + seq![n - 1]);
                    assert(names[k[kp.len() as int]] == names[j]);
                }
            }
        }
    }
}

/// Keeps the first entry of each name, in order: across ordered scan
/// directories the higher-priority occurrence of a name wins and later
/// duplicates are discarded.
pub fn dedup_by_name(entries: Vec<AppEntry>) -> (r: Vec<AppEntry>)
    ensures
        ({
            let names = entries@.map_values(|e: AppEntry| e.name@);
            let kept = spec_kept_idx(names, names.len() as int);
            &&& r@.len() == kept.len()
            &&& (forall|k: int| 0 <= k < r@.len() ==> #[trigger] r@[k] == entries@[kept[k]])
        }),
{
    let n0 = entries.len();
    let ghost orig = entries@;
    let ghost names = entries@.map_values(|e: AppEntry| e.name@);
    let mut input = entries;
    let mut out: Vec<AppEntry> = Vec::new();
    let mut seen: Vec<Vec<char>> = Vec::new();
    let mut i: usize = 0;
    proof {
        lemma_kept_idx_bounds(names, names.len() as int);
    }
    while input.len() > 0
        invariant
            0 <= i <= orig.len(),
            orig.len() == n0,
            input@.len() == orig.len() - i,
            names == orig.map_values(|e: AppEntry| e.name@),
            forall|a: int| 0 <= a < input@.len() ==> input@[a] == orig[i + a],
            out@.len() == spec_kept_idx(names, i as int).len(),
            forall|k: int|
                0 <= k < out@.len() ==> #[trigger] out@[k] == orig[spec_kept_idx(
                    names,
                    i as int,
                )[k]],
            seen@.len() == spec_kept_idx(names, i as int).len(),
            forall|k: int|
                0 <= k < seen@.len() ==> #[trigger] seen@[k]@ == names[spec_kept_idx(
                    names,
                    i as int,
                )[k]],
        decreases input@.len(),
    {
        let e = input.remove(0);
        proof {
            assert(e == orig[i as int]);
            assert(e.name@ == names[i as int]);
            lemma_kept_idx_bounds(names, i as int);
        }
        let nc = chars_of(e.name.as_str());
        let mut dup = false;
        let mut k: usize = 0;
        while k < seen.len()
            invariant
                0 <= k <= seen@.len(),
                nc@ == e.name@,
                dup == (exists|a: int| 0 <= a < k && #[trigger] seen@[a]@ == e.name@),
            decreases seen@.len() - k,
        {
            let sc = sub_chars(seen[k].as_slice(), 0, seen[k].len());
            proof {
                assert(sc@ =~= seen@[k as int]@);
            }
            if eq_chars(sc.as_slice(), nc.as_slice()) {
                dup = true;
            }
            k = k + 1;
        }
        let ghost kp = spec_kept_idx(names, i as int);
        let ghost kn = spec_kept_idx(names, i as int + 1);
        if dup {
            proof {
                let a = choose|a: int| 0 <= a < seen@.len() && #[trigger] seen@[a]@ == e.name@;
                assert(names[kp[a]] == names[i as int]);
                assert(0 <= kp[a] < i);
                assert(exists|j: int| 0 <= j < i && #[trigger] names[j] == names[i as int]);
                assert(kn =~= kp);
            }
        } else {
            proof {
                lemma_kept_covers(names, i as int);
                assert forall|j: int| 0 <= j < i implies #[trigger] names[j] != names[i as int] by {
                    assert(spec_name_covered(names, i as int, j));
                    let a = choose|a: int| 0 <= a < kp.len() && names[#[trigger] kp[a]] == names[j];
                    assert(seen@[a]@ == names[kp[a]]);
                    if names[j] == names[i as int] {
                        assert(seen@[a]@ == e.name@);
                        assert(false);
                    }
                }
                assert(!(exists|j: int| 0 <= j < i && #[trigger] names[j] == names[i as int]));
                assert(kn =~= kp + seq![i as int]);
            }
            let ghost prev_out = out@;
            let ghost prev_seen = seen@;
            out.push(e);
            seen.push(nc);
            proof {
                assert(forall|k2: int| 0 <= k2 < prev_out.len() ==> out@[k2] == prev_out[k2]);
                assert(out@[prev_out.len() as int] == orig[i as int]);
                assert(forall|k2: int| 0 <= k2 < prev_seen.len() ==> seen@[k2] == prev_seen[k2]);
                assert(seen@[prev_seen.len() as int]@ == names[i as int]);
            }
        }
        i = i + 1;
    }
    out
}

/// The names of deduplicated entries are pairwise distinct.
pub proof fn lemma_kept_names_distinct(names: Seq<Seq<char>>, n: int)
    ensures
        forall|a: int, b: int|
            0 <= a < b < spec_kept_idx(names, n).len() ==> names[#[trigger] spec_kept_idx(
                names,
                n,
            )[a]] != names[#[trigger] spec_kept_idx(names, n)[b]],
    decreases n,
{
    lemma_kept_idx_bounds(names, n);
    if n > 0 {
        lemma_kept_names_distinct(names, n - 1);
        lemma_kept_idx_bounds(names, n - 1);
        let kp = spec_kept_idx(names, n - 1);
        let k = spec_kept_idx(names, n);
        assert forall|a: int, b: int| 0 <= a < b < k.len() implies names[#[trigger] k[a]]
            != names[#[trigger] k[b]] by {
            if b < kp.len() {
                assert(k[a] == kp[a] && k[b] == kp[b]);
            } else if k.len() > kp.len() {
                assert(k[b] == n - 1);
                assert(k[a] == kp[a]);
                assert(0 <= k[a] < n - 1);
                assert(!(exists|j: int| 0 <= j < n - 1 && #[trigger] names[j] == names[n - 1]));
            }
        }
    }
}


/// Entries ordered case-insensitively by name.
pub open spec fn sorted_by_name(s: Seq<AppEntry>) -> bool {
    forall|i: int, j: int|
        0 <= i < j < s.len() ==> lex_le(lower_of(s[i].name@), lower_of(s[j].name@))
}

/// Index of an entry whose lowercased name comes first.
fn find_min_name_index(v: &Vec<AppEntry>) -> (r: usize)
    requires
        v@.len() > 0,
    ensures
        0 <= r < v@.len(),
        forall|j: int|
            0 <= j < v@.len() ==> lex_le(lower_of(v@[r as int].name@), lower_of(v@[j].name@)),
{
    let mut best: usize = 0;
    let mut i: usize = 1;
    proof {
        crate::text::lemma_lex_total(lower_of(v@[0].name@), lower_of(v@[0].name@));
    }
    while i < v.len()
        invariant
            0 <= best < v@.len(),
            1 <= i <= v@.len(),
            forall|j: int|
                0 <= j < i ==> lex_le(lower_of(v@[best as int].name@), lower_of(v@[j].name@)),
        decreases v@.len() - i,
    {
        let bn = lowercase_chars(chars_of(v[best].name.as_str()).as_slice());
        let cn = lowercase_chars(chars_of(v[i].name.as_str()).as_slice());
        if !lex_le_chars(bn.as_slice(), cn.as_slice()) {
            proof {
                crate::text::lemma_lex_total(bn@, cn@);
                assert(lex_le(cn@, bn@));
                assert forall|j: int| 0 <= j < i + 1 implies lex_le(
                    lower_of(v@[i as int].name@),
                    lower_of(v@[j].name@),
                ) by {
                    if j < i {
                        crate::text::lemma_lex_trans(
                            lower_of(v@[i as int].name@),
                            lower_of(v@[best as int].name@),
                            lower_of(v@[j].name@),
                        );
                    } else {
                        crate::text::lemma_lex_total(
                            lower_of(v@[i as int].name@),
                            lower_of(v@[i as int].name@),
                        );
                    }
                }
            }
            best = i;
        }
        i = i + 1;
    }
    best
}

/// Sorts entries case-insensitively by name, ascending.  The output is a
/// permutation of the input.
pub fn sort_apps_by_name(v: Vec<AppEntry>) -> (r: Vec<AppEntry>)
    ensures
        sorted_by_name(r@),
        r@.to_multiset() == v@.to_multiset(),
        r@.len() == v@.len(),
{
    broadcast use vstd::seq_lib::group_to_multiset_ensures;

    let ghost orig = v@;
    let mut input = v;
    let mut out: Vec<AppEntry> = Vec::new();
    proof {
        assert(out@.to_multiset().add(input@.to_multiset()) =~= orig.to_multiset());
    }
    while input.len() > 0
        invariant
            out@.to_multiset().add(input@.to_multiset()) == orig.to_multiset(),
            sorted_by_name(out@),
            forall|i: int, j: int|
                0 <= i < out@.len() && 0 <= j < input@.len() ==> lex_le(
                    lower_of(out@[i].name@),
                    lower_of(input@[j].name@),
                ),
        decreases input@.len(),
    {
        let best = find_min_name_index(&input);
        let ghost prev_in = input@;
        let ghost prev_out = out@;
        let x = input.remove(best);
        out.push(x);
        proof {
            prev_in.to_multiset_ensures();
            prev_out.to_multiset_ensures();
            assert(input@ == prev_in.remove(best as int));
            assert(out@ == prev_out.push(x));
            assert(input@.to_multiset() =~= prev_in.to_multiset().remove(x));
            assert(out@.to_multiset() =~= prev_out.to_multiset().insert(x));
            assert(prev_in.to_multiset().count(x) > 0);
            assert(out@.to_multiset().add(input@.to_multiset()) =~= orig.to_multiset());
            assert forall|i: int, j: int|
                0 <= i < out@.len() && 0 <= j < input@.len() implies lex_le(
                lower_of(out@[i].name@),
                lower_of(input@[j].name@),
            ) by {
                assert(prev_in.contains(input@[j]));
            }
            assert forall|i: int, j: int| 0 <= i < j < out@.len() implies lex_le(
                lower_of(out@[i].name@),
                lower_of(out@[j].name@),
            ) by {
                if j == out@.len() - 1 {
                    assert(prev_in.contains(x));
                }
            }
        }
    }
    proof {
        input@.to_multiset_ensures();
        out@.to_multiset_ensures();
        orig.to_multiset_ensures();
        assert(input@.to_multiset() =~= Multiset::<AppEntry>::empty());
        assert(out@.to_multiset() =~= orig.to_multiset());
    }
    out
}

/// The synthetic top-priority entry offering script installation.
pub open spec fn spec_install_entry(e: AppEntry) -> bool {
    &&& e.name@ == "Install Script (Vanta Store)"@
    &&& e.generic_name is Some && e.generic_name->0@
        == "Type 'install <github-url>' or a local file path to fetch"@
    &&& e.comment is Some && e.comment->0@ == "Downloads and installs scripts directly into Vanta"@
    &&& e.exec_cmd@ == "install:"@
    &&& e.icon is Some && e.icon->0@ == "system-software-install"@
    &&& e.categories@.len() == 0
    &&& e.terminal == false
    &&& e.startup_wm_class is None
    &&& e.desktop_file_path@ == "vanta://store"@
}

/// Builds the synthetic store entry that every scan injects first, so it
/// always survives deduplication at top priority.
pub fn install_store_entry() -> (e: AppEntry)
    ensures
        spec_install_entry(e),
{
    AppEntry {
        name: "Install Script (Vanta Store)".to_owned(),
        generic_name: Some("Type 'install <github-url>' or a local file path to fetch".to_owned()),
        comment: Some("Downloads and installs scripts directly into Vanta".to_owned()),
        exec_cmd: "install:".to_owned(),
        icon: Some("system-software-install".to_owned()),
        categories: Vec::new(),
        terminal: false,
        startup_wm_class: None,
        desktop_file_path: "vanta://store".to_owned(),
    }
}

/// `e` is either the synthetic store entry or the parse of some accepted
/// descriptor file, with its raw icon name.
pub open spec fn spec_scan_source(files: Seq<DesktopFile>, e: AppEntry) -> bool {
    spec_install_entry(e) || exists|i: int|
        0 <= i < files.len() && #[trigger] spec_parse_accepts(files[i].contents@) && spec_entry_of(
            e,
            files[i].path@,
            spec_parse_desktop(files[i].contents@),
        )
}

/// File `i` parses to an entry.
pub open spec fn spec_accepted(files: Seq<DesktopFile>, i: int) -> bool {
    0 <= i < files.len() && spec_parse_accepts(files[i].contents@)
}

/// How many of the first `n` files parse to an entry.
pub open spec fn spec_accepted_count(files: Seq<DesktopFile>, n: int) -> int
    decreases n,
{
    if n <= 0 {
        0
    } else {
        spec_accepted_count(files, n - 1) + (if spec_accepted(files, n - 1) {
            1int
        } else {
            0int
        })
    }
}

proof fn lemma_accepted_count_mono(files: Seq<DesktopFile>, m: int, n: int)
    requires
        m <= n,
    ensures
        spec_accepted_count(files, m) <= spec_accepted_count(files, n),
    decreases n - m,
{
    if m < n {
        lemma_accepted_count_mono(files, m, n - 1);
    }
}

proof fn lemma_accepted_count_nonneg(files: Seq<DesktopFile>, n: int)
    ensures
        spec_accepted_count(files, n) >= 0,
    decreases n,
{
    if n > 0 {
        lemma_accepted_count_nonneg(files, n - 1);
    }
}

/// Every slot below the accepted count is taken by some earlier accepted
/// file.
proof fn lemma_accepted_slot(files: Seq<DesktopFile>, i: int, b: int)
    requires
        0 <= b < spec_accepted_count(files, i),
    ensures
        exists|a: int|
            0 <= a < i && #[trigger] spec_accepted(files, a) && spec_accepted_count(files, a) == b,
    decreases i,
{
    lemma_accepted_count_nonneg(files, i - 1);
    if i > 0 {
        if b < spec_accepted_count(files, i - 1) {
            lemma_accepted_slot(files, i - 1, b);
        } else {
            assert(spec_accepted(files, i - 1) && spec_accepted_count(files, i - 1) == b);
        }
    }
}

/// File `i` is the highest-priority accepted file bearing its parsed name,
/// and that name is not the synthetic store entry's.
pub open spec fn spec_first_named(files: Seq<DesktopFile>, i: int) -> bool {
    &&& spec_accepted(files, i)
    &&& spec_parse_desktop(files[i].contents@).name->0 != "Install Script (Vanta Store)"@
    &&& (forall|j: int|
        0 <= j < i && #[trigger] spec_accepted(files, j) ==> spec_parse_desktop(
            files[j].contents@,
        ).name->0 != spec_parse_desktop(files[i].contents@).name->0)
}

/// A permutation carries pairwise-distinct names over.
proof fn lemma_permutation_distinct_names(s: Seq<AppEntry>, t: Seq<AppEntry>)
    requires
        s.to_multiset() == t.to_multiset(),
        forall|i: int, j: int| 0 <= i < j < s.len() ==> s[i].name@ != s[j].name@,
    ensures
        forall|i: int, j: int| 0 <= i < j < t.len() ==> t[i].name@ != t[j].name@,
{
    broadcast use vstd::seq_lib::group_to_multiset_ensures;

    assert forall|i: int, j: int| 0 <= i < j < t.len() implies t[i].name@ != t[j].name@ by {
        let x = t[i];
        let y = t[j];
        if x.name@ == y.name@ {
            if x == y {
                let tr = t.remove(i);
                assert(tr.to_multiset() =~= t.to_multiset().remove(x));
                assert(tr[j - 1] == y);
                assert(tr.contains(y));
                assert(tr.to_multiset().count(x) > 0);
                assert(t.to_multiset().count(x) >= 2);
                assert(s.to_multiset().count(x) >= 2);
                assert(s.contains(x));
                let a = choose|a: int| 0 <= a < s.len() && s[a] == x;
                let sr = s.remove(a);
                assert(sr.to_multiset() =~= s.to_multiset().remove(x));
                assert(sr.to_multiset().count(x) > 0);
                assert(sr.contains(x));
                let b = choose|b: int| 0 <= b < sr.len() && sr[b] == x;
                if b < a {
                    assert(s[b] == x);
                    assert(s[b].name@ == s[a].name@);
                } else {
                    assert(s[b + 1] == x);
                    assert(s[a].name@ == s[b + 1].name@);
                }
                assert(false);
            } else {
                assert(t.to_multiset().count(x) > 0);
                assert(s.to_multiset().count(x) > 0);
                assert(t.to_multiset().count(y) > 0);
                assert(s.to_multiset().count(y) > 0);
                assert(s.contains(x));
                assert(s.contains(y));
                let a = choose|a: int| 0 <= a < s.len() && s[a] == x;
                let b = choose|b: int| 0 <= b < s.len() && s[b] == y;
                assert(a != b);
                if a < b {
                    assert(s[a].name@ == s[b].name@);
                } else {
                    assert(s[b].name@ == s[a].name@);
                }
                assert(false);
            }
        }
    }
}

/// Scans parsed descriptor files into the application snapshot.  `files`
/// arrive in directory priority order.  The synthetic store entry is
/// injected at top priority; each accepted file yields one entry; names
/// are deduplicated with the first occurrence winning; the result is
/// sorted case-insensitively by name and holds no two entries of one name.
pub fn scan_desktop_entries(files: &Vec<DesktopFile>) -> (r: Vec<AppEntry>)
    ensures
        sorted_by_name(r@),
        forall|i: int, j: int| 0 <= i < j < r@.len() ==> r@[i].name@ != r@[j].name@,
        forall|k: int| 0 <= k < r@.len() ==> spec_scan_source(files@, #[trigger] r@[k]),
        exists|k: int| 0 <= k < r@.len() && spec_install_entry(#[trigger] r@[k]),
        forall|i: int|
            #[trigger] spec_first_named(files@, i) ==> exists|k: int|
                0 <= k < r@.len() && spec_entry_of(
                    #[trigger] r@[k],
                    files@[i].path@,
                    spec_parse_desktop(files@[i].contents@),
                ),
{
    broadcast use vstd::seq_lib::group_to_multiset_ensures;

    let mut parsed: Vec<AppEntry> = Vec::new();
    parsed.push(install_store_entry());
    let mut i: usize = 0;
    while i < files.len()
        invariant
            0 <= i <= files@.len(),
            parsed@.len() == 1 + spec_accepted_count(files@, i as int),
            spec_install_entry(parsed@[0]),
            forall|k: int| 0 <= k < parsed@.len() ==> spec_scan_source(files@, #[trigger] parsed@[k]),
            forall|a: int|
                0 <= a < i && #[trigger] spec_accepted(files@, a) ==> 0 < 1 + spec_accepted_count(
                    files@,
                    a,
                ) < parsed@.len() && spec_entry_of(
                    parsed@[1 + spec_accepted_count(files@, a)],
                    files@[a].path@,
                    spec_parse_desktop(files@[a].contents@),
                ),
        decreases files@.len() - i,
    {
        let f = &files[i];
        let ghost prev = parsed@;
        proof {
            lemma_accepted_count_nonneg(files@, i as int);
        }
        match parse_desktop_file(f.path.as_str(), f.contents.as_str()) {
            Some(e) => {
                proof {
                    assert(spec_parse_accepts(files@[i as int].contents@));
                    assert(spec_accepted(files@, i as int));
                    assert(spec_entry_of(
                        e,
                        files@[i as int].path@,
                        spec_parse_desktop(files@[i as int].contents@),
                    ));
                    assert(spec_scan_source(files@, e));
                }
                parsed.push(e);
                proof {
                    assert(forall|k: int| 0 <= k < prev.len() ==> parsed@[k] == prev[k]);
                    assert(parsed@[prev.len() as int] == e);
                    assert forall|a: int|
                        0 <= a < i + 1 && #[trigger] spec_accepted(files@, a) implies 0 < 1
                        + spec_accepted_count(files@, a) < parsed@.len() && spec_entry_of(
                        parsed@[1 + spec_accepted_count(files@, a)],
                        files@[a].path@,
                        spec_parse_desktop(files@[a].contents@),
                    ) by {
                        lemma_accepted_count_nonneg(files@, a);
                        if a < i {
                            lemma_accepted_count_mono(files@, a + 1, i as int);
                        } else {
                            assert(1 + spec_accepted_count(files@, a) == prev.len());
                        }
                    }
                }
            },
            None => {
                proof {
                    assert(!spec_accepted(files@, i as int));
                    assert forall|a: int|
                        0 <= a < i + 1 && #[trigger] spec_accepted(files@, a) implies 0 < 1
                        + spec_accepted_count(files@, a) < parsed@.len() && spec_entry_of(
                        parsed@[1 + spec_accepted_count(files@, a)],
                        files@[a].path@,
                        spec_parse_desktop(files@[a].contents@),
                    ) by {
                        lemma_accepted_count_nonneg(files@, a);
                        if a < i {
                            lemma_accepted_count_mono(files@, a + 1, i as int);
                        }
                    }
                }
            },
        }
        i = i + 1;
    }
    let ghost pview = parsed@;
    let deduped = dedup_by_name(parsed);
    proof {
        let names = pview.map_values(|e: AppEntry| e.name@);
        lemma_accepted_count_nonneg(files@, files@.len() as int);
        assert(names.len() >= 1);
        lemma_kept_idx_bounds(names, names.len() as int);
        lemma_kept_names_distinct(names, names.len() as int);
        assert(deduped@.len() >= 1 && spec_install_entry(deduped@[0])) by {
            lemma_dedup_keeps_first(names, 0, names.len() as int);
            let b = choose|b: int|
                0 <= b < spec_kept_idx(names, names.len() as int).len() && spec_kept_idx(
                    names,
                    names.len() as int,
                )[b] == 0;
            assert(deduped@[b] == pview[0]);
            assert(spec_kept_idx(names, names.len() as int)[0] == 0) by {
                if spec_kept_idx(names, names.len() as int)[0] != 0 {
                    assert(b > 0);
                    assert(spec_kept_idx(names, names.len() as int)[0] < spec_kept_idx(
                        names,
                        names.len() as int,
                    )[b]);
                    assert(false);
                }
            }
            assert(deduped@[0] == pview[0]);
        }
        assert(forall|k: int|
            0 <= k < deduped@.len() ==> spec_scan_source(files@, #[trigger] deduped@[k]));
        assert(forall|a: int, b: int|
            0 <= a < b < deduped@.len() ==> deduped@[a].name@ != deduped@[b].name@);
        assert forall|i: int| #[trigger] spec_first_named(files@, i) implies exists|b: int|
            0 <= b < deduped@.len() && spec_entry_of(
                #[trigger] deduped@[b],
                files@[i].path@,
                spec_parse_desktop(files@[i].contents@),
            ) by {
            lemma_accepted_count_nonneg(files@, i);
            let idx = 1 + spec_accepted_count(files@, i);
            assert(spec_accepted(files@, i));
            assert(0 < idx < pview.len() && spec_entry_of(
                pview[idx],
                files@[i].path@,
                spec_parse_desktop(files@[i].contents@),
            ));
            assert(names[idx] == spec_parse_desktop(files@[i].contents@).name->0);
            assert forall|j: int| 0 <= j < idx implies names[j] != names[idx] by {
                if j == 0 {
                    assert(names[0] == "Install Script (Vanta Store)"@);
                } else {
                    lemma_accepted_slot(files@, i, j - 1);
                    let a = choose|a: int|
                        0 <= a < i && #[trigger] spec_accepted(files@, a)
                            && spec_accepted_count(files@, a) == j - 1;
                    assert(spec_entry_of(
                        pview[j],
                        files@[a].path@,
                        spec_parse_desktop(files@[a].contents@),
                    ));
                    assert(names[j] == spec_parse_desktop(files@[a].contents@).name->0);
                    assert(spec_parse_desktop(files@[a].contents@).name->0 != spec_parse_desktop(
                        files@[i].contents@,
                    ).name->0);
                }
            }
            lemma_dedup_keeps_first(names, idx, names.len() as int);
            let b = choose|b: int|
                0 <= b < spec_kept_idx(names, names.len() as int).len() && spec_kept_idx(
                    names,
                    names.len() as int,
                )[b] == idx;
            assert(deduped@[b] == pview[idx]);
        }
    }
    let ghost dview = deduped@;
    let r = sort_apps_by_name(deduped);
    proof {
        broadcast use vstd::seq_lib::group_to_multiset_ensures;

        lemma_permutation_distinct_names(dview, r@);
        assert forall|k: int| 0 <= k < r@.len() implies spec_scan_source(
            files@,
            #[trigger] r@[k],
        ) by {
            assert(r@.to_multiset().count(r@[k]) > 0);
            assert(dview.to_multiset().count(r@[k]) > 0);
            assert(dview.contains(r@[k]));
            let a = choose|a: int| 0 <= a < dview.len() && dview[a] == r@[k];
            assert(spec_scan_source(files@, dview[a]));
        }
        assert(exists|k: int| 0 <= k < r@.len() && spec_install_entry(#[trigger] r@[k])) by {
            assert(dview.to_multiset().count(dview[0]) > 0);
            assert(r@.to_multiset().count(dview[0]) > 0);
            assert(r@.contains(dview[0]));
            let k = choose|k: int| 0 <= k < r@.len() && r@[k] == dview[0];
            assert(spec_install_entry(r@[k]));
        }
        assert forall|i: int| #[trigger] spec_first_named(files@, i) implies exists|k: int|
            0 <= k < r@.len() && spec_entry_of(
                #[trigger] r@[k],
                files@[i].path@,
                spec_parse_desktop(files@[i].contents@),
            ) by {
            let b = choose|b: int|
                0 <= b < dview.len() && spec_entry_of(
                    #[trigger] dview[b],
                    files@[i].path@,
                    spec_parse_desktop(files@[i].contents@),
                );
            assert(dview.to_multiset().count(dview[b]) > 0);
            assert(r@.to_multiset().count(dview[b]) > 0);
            assert(r@.contains(dview[b]));
            let k = choose|k: int| 0 <= k < r@.len() && r@[k] == dview[b];
            assert(spec_entry_of(
                r@[k],
                files@[i].path@,
                spec_parse_desktop(files@[i].contents@),
            ));
        }
    }
    r
}


/// Persistent cache from icon name to resolved path, kept as an
/// association list with unique keys.
pub struct IconCache {
    entries: Vec<(String, String)>,
}

impl IconCache {
    /// Keys are pairwise distinct.
    pub closed spec fn wf(&self) -> bool {
        forall|i: int, j: int|
            0 <= i < j < self.entries@.len() ==> self.entries@[i].0@ != self.entries@[j].0@
    }

    pub closed spec fn spec_entries(&self) -> Seq<(String, String)> {
        self.entries@
    }

    pub closed spec fn contains_key(&self, k: Seq<char>) -> bool {
        exists|i: int| 0 <= i < self.entries@.len() && self.entries@[i].0@ == k
    }

    pub closed spec fn spec_cached(&self, k: Seq<char>) -> Option<Seq<char>> {
        if self.contains_key(k) {
            let i = choose|i: int| 0 <= i < self.entries@.len() && self.entries@[i].0@ == k;
            Some(self.entries@[i].1@)
        } else {
            None
        }
    }

    proof fn lemma_cached_at(&self, i: int)
        requires
            self.wf(),
            0 <= i < self.spec_entries().len(),
        ensures
            self.contains_key(self.spec_entries()[i].0@),
            self.spec_cached(self.spec_entries()[i].0@) == Some(self.spec_entries()[i].1@),
    {
        let k = self.entries@[i].0@;
        assert(self.contains_key(k));
        let j = choose|j: int| 0 <= j < self.entries@.len() && self.entries@[j].0@ == k;
        if i != j {
            assert(self.entries@[i].0@ == self.entries@[j].0@);
            assert(false);
        }
    }

    /// An empty cache.
    pub fn new() -> (r: IconCache)
        ensures
            r.wf(),
            forall|k: Seq<char>| r.spec_cached(k) is None,
    {
        IconCache { entries: Vec::new() }
    }

    fn find(&self, k: &[char]) -> (r: Option<usize>)
        ensures
            match r {
                Some(i) => 0 <= i < self.spec_entries().len() && self.spec_entries()[i as int].0@
                    == k@,
                None => !self.contains_key(k@),
            },
    {
        let mut i: usize = 0;
        while i < self.entries.len()
            invariant
                0 <= i <= self.entries@.len(),
                forall|j: int| 0 <= j < i ==> self.entries@[j].0@ != k@,
            decreases self.entries@.len() - i,
        {
            let ec = chars_of(self.entries[i].0.as_str());
            if eq_chars(ec.as_slice(), k) {
                return Some(i);
            }
            i = i + 1;
        }
        None
    }

    /// The cached path for an icon name, if any.
    pub fn get(&self, name: &str) -> (r: Option<String>)
        requires
            self.wf(),
        ensures
            match r {
                Some(p) => self.spec_cached(name@) == Some(p@),
                None => self.spec_cached(name@) is None,
            },
    {
        let nc = chars_of(name);
        match self.find(nc.as_slice()) {
            Some(i) => {
                proof {
                    self.lemma_cached_at(i as int);
                }
                let pc = chars_of(self.entries[i].1.as_str());
                Some(string_from_chars(pc.as_slice()))
            },
            None => None,
        }
    }

    /// Records a resolved path under an icon name, replacing any earlier
    /// entry for it.
    pub fn insert(&mut self, name: &str, path: &str)
        requires
            old(self).wf(),
        ensures
            final(self).wf(),
            final(self).spec_cached(name@) == Some(path@),
            forall|k: Seq<char>|
                k != name@ ==> final(self).spec_cached(k) == old(self).spec_cached(k),
    {
        let nc = chars_of(name);
        let ns = string_from_chars(nc.as_slice());
        let pc = chars_of(path);
        let ps = string_from_chars(pc.as_slice());
        match self.find(nc.as_slice()) {
            Some(i) => {
                proof {
                    self.lemma_cached_at(i as int);
                }
                let ghost prev = self.entries@;
                self.entries[i] = (ns, ps);
                proof {
                    assert(self.entries@ =~= prev.update(i as int, (ns, ps)));
                    assert(forall|j: int|
                        0 <= j < self.entries@.len() ==> self.entries@[j].0@ == prev[j].0@);
                    assert(self.wf());
                    self.lemma_cached_at(i as int);
                    assert forall|k: Seq<char>| k != name@ implies self.spec_cached(k) == old(
                        self,
                    ).spec_cached(k) by {
                        if self.contains_key(k) {
                            let j = choose|j: int|
                                0 <= j < self.entries@.len() && self.entries@[j].0@ == k;
                            assert(j != i);
                            assert(prev[j].0@ == k);
                            old(self).lemma_cached_at(j);
                            self.lemma_cached_at(j);
                        } else {
                            assert(!old(self).contains_key(k));
                        }
                    }
                }
            },
            None => {
                let ghost prev = self.entries@;
                self.entries.push((ns, ps));
                proof {
                    assert(self.entries@ =~= prev.push((ns, ps)));
                    assert(forall|j: int| 0 <= j < prev.len() ==> self.entries@[j] == prev[j]);
                    assert(self.entries@[prev.len() as int].0@ == name@);
                    assert(self.wf());
                    self.lemma_cached_at(prev.len() as int);
                    assert forall|k: Seq<char>| k != name@ implies self.spec_cached(k) == old(
                        self,
                    ).spec_cached(k) by {
                        if self.contains_key(k) {
                            let j = choose|j: int|
                                0 <= j < self.entries@.len() && self.entries@[j].0@ == k;
                            assert(j < prev.len());
                            old(self).lemma_cached_at(j);
                            self.lemma_cached_at(j);
                        } else {
                            assert(!old(self).contains_key(k));
                        }
                    }
                }
            },
        }
    }

    /// Evicts the entry for an icon name, if any.
    pub fn remove(&mut self, name: &str)
        requires
            old(self).wf(),
        ensures
            final(self).wf(),
            final(self).spec_cached(name@) is None,
            forall|k: Seq<char>|
                k != name@ ==> final(self).spec_cached(k) == old(self).spec_cached(k),
    {
        let nc = chars_of(name);
        match self.find(nc.as_slice()) {
            Some(i) => {
                let ghost prev = self.entries@;
                self.entries.remove(i);
                proof {
                    assert(self.entries@ =~= prev.remove(i as int));
                    assert forall|a: int, b: int|
                        0 <= a < b < self.entries@.len() implies self.entries@[a].0@
                        != self.entries@[b].0@ by {
                        let a2 = if a < i {
                            a
                        } else {
                            a + 1
                        };
                        let b2 = if b < i {
                            b
                        } else {
                            b + 1
                        };
                        assert(self.entries@[a] == prev[a2]);
                        assert(self.entries@[b] == prev[b2]);
                    }
                    assert(!self.contains_key(name@)) by {
                        if self.contains_key(name@) {
                            let j = choose|j: int|
                                0 <= j < self.entries@.len() && self.entries@[j].0@ == name@;
                            let j2 = if j < i {
                                j
                            } else {
                                j + 1
                            };
                            assert(prev[j2].0@ == name@);
                            assert(prev[i as int].0@ == name@);
                            assert(j2 != i);
                            assert(false);
                        }
                    }
                    assert forall|k: Seq<char>| k != name@ implies self.spec_cached(k) == old(
                        self,
                    ).spec_cached(k) by {
                        if self.contains_key(k) {
                            let j = choose|j: int|
                                0 <= j < self.entries@.len() && self.entries@[j].0@ == k;
                            let j2 = if j < i {
                                j
                            } else {
                                j + 1
                            };
                            assert(self.entries@[j] == prev[j2]);
                            old(self).lemma_cached_at(j2);
                            self.lemma_cached_at(j);
                        } else {
                            if old(self).contains_key(k) {
                                let j2 = choose|j2: int|
                                    0 <= j2 < prev.len() && prev[j2].0@ == k;
                                assert(j2 != i);
                                let j = if j2 < i {
                                    j2
                                } else {
                                    j2 - 1
                                };
                                assert(self.entries@[j] == prev[j2]);
                                assert(self.contains_key(k));
                                assert(false);
                            }
                        }
                    }
                }
            },
            None => {
            },
        }
    }

    /// The entries as plain pairs, for persistence by the caller.
    pub fn pairs(&self) -> (r: &Vec<(String, String)>)
        ensures
            r@ == self.spec_entries(),
    {
        &self.entries
    }

    /// Rebuilds a cache from loaded pairs; on a duplicate name the first
    /// pair wins.
    pub fn from_pairs(pairs: Vec<(String, String)>) -> (r: IconCache)
        ensures
            r.wf(),
    {
        let mut r = IconCache { entries: Vec::new() };
        let mut i: usize = 0;
        while i < pairs.len()
            invariant
                0 <= i <= pairs@.len(),
                r.wf(),
            decreases pairs@.len() - i,
        {
            let kc = chars_of(pairs[i].0.as_str());
            match r.find(kc.as_slice()) {
                Some(_) => {
                },
                None => {
                    let ghost prev = r.entries@;
                    let ks = string_from_chars(kc.as_slice());
                    let vc = chars_of(pairs[i].1.as_str());
                    r.entries.push((ks, string_from_chars(vc.as_slice())));
                    proof {
                        assert(r.entries@ =~= prev.push(r.entries@.last()));
                        assert(forall|j: int|
                            0 <= j < prev.len() ==> r.entries@[j] == prev[j]);
                        assert(r.wf());
                    }
                },
            }
            i = i + 1;
        }
        r
    }
}

/// Relies on `std::path::Path::canonicalize`: the canonical absolute form
/// of an existing path, or nothing.  The answer depends on the disk, so
/// nothing more is assumed of it.
#[verifier::external_body]
fn canonical_path(p: &str) -> Option<String> {
    std::path::Path::new(p).canonicalize().ok().map(|c| c.to_string_lossy().into_owned())
}

/// Relies on freedesktop_icons::default_theme_gtk: the configured icon
/// theme, if one is set.  The answer depends on the environment, so
/// nothing more is assumed of it.
#[verifier::external_body]
fn gtk_default_theme() -> Option<String> {
    freedesktop_icons::default_theme_gtk()
}

/// Relies on freedesktop_icons::lookup at size 48 and scale 1 with its
/// cache: the path of the named icon in the given theme, if found.  The
/// answer depends on the installed themes, so nothing more is assumed of
/// it.
#[verifier::external_body]
fn xdg_icon_lookup(name: &str, theme: &str) -> Option<String> {
    freedesktop_icons::lookup(name)
        .with_scale(1)
        .with_size(48)
        .with_theme(theme)
        .with_cache()
        .find()
        .map(|p| p.to_string_lossy().into_owned())
}

/// Resolves an icon name to a concrete file path.  An absolute path that
/// exists is canonicalized directly; otherwise a live cache entry is
/// used, a dead one evicted; otherwise the themed lookup is tried in the
/// detected theme, falling back to the stock theme, and the hit is
/// cached.  An unresolvable name yields nothing and never fails the
/// entry.
pub fn resolve_icon_path(icon_name: &str, cache: &mut IconCache) -> (r: Option<String>)
    requires
        old(cache).wf(),
    ensures
        final(cache).wf(),
        forall|k: Seq<char>|
            k != icon_name@ ==> final(cache).spec_cached(k) == old(cache).spec_cached(k),
        r is None ==> final(cache).spec_cached(icon_name@) is None,
        (match final(cache).spec_cached(icon_name@) {
            Some(p) => old(cache).spec_cached(icon_name@) == Some(p) || (r is Some && r->0@ == p),
            None => true,
        }),
{
    let nc = chars_of(icon_name);
    if nc.len() >= 1 && nc[0] == '/' {
        if crate::engine::path_exists(icon_name) {
            return match canonical_path(icon_name) {
                Some(c) => Some(c),
                None => Some(icon_name.to_owned()),
            };
        }
    }
    match cache.get(icon_name) {
        Some(cached) => {
            if crate::engine::path_exists(cached.as_str()) {
                return Some(cached);
            }
            cache.remove(icon_name);
        },
        None => {
        },
    }
    let theme: String = match gtk_default_theme() {
        Some(t) => t,
        None => "hicolor".to_owned(),
    };
    match xdg_icon_lookup(icon_name, theme.as_str()) {
        Some(found) => {
            let resolved: String = match canonical_path(found.as_str()) {
                Some(c) => c,
                None => found,
            };
            cache.insert(icon_name, resolved.as_str());
            return Some(resolved);
        },
        None => {
        },
    }
    let tc = chars_of(theme.as_str());
    if !eq_chars(tc.as_slice(), chars_of("hicolor").as_slice()) {
        match xdg_icon_lookup(icon_name, "hicolor") {
            Some(found) => {
                let resolved: String = match canonical_path(found.as_str()) {
                    Some(c) => c,
                    None => found,
                };
                cache.insert(icon_name, resolved.as_str());
                return Some(resolved);
            },
            None => {
            },
        }
    }
    None
}

/// Resolves the raw icon names of freshly scanned entries through the
/// cache; every other field of every entry stays as it was, in order.
pub fn resolve_entry_icons(entries: Vec<AppEntry>, cache: &mut IconCache) -> (r: Vec<AppEntry>)
    requires
        old(cache).wf(),
    ensures
        final(cache).wf(),
        r@.len() == entries@.len(),
        forall|k: int|
            0 <= k < r@.len() && entries@[k].icon is None ==> (#[trigger] r@[k]).icon is None,
        forall|k: int|
            0 <= k < r@.len() ==> (#[trigger] r@[k]).name == entries@[k].name && r@[k].generic_name
                == entries@[k].generic_name && r@[k].comment == entries@[k].comment
                && r@[k].exec_cmd == entries@[k].exec_cmd && r@[k].categories
                == entries@[k].categories && r@[k].terminal == entries@[k].terminal
                && r@[k].startup_wm_class == entries@[k].startup_wm_class
                && r@[k].desktop_file_path == entries@[k].desktop_file_path,
{
    let n0 = entries.len();
    let ghost orig = entries@;
    let mut rest = entries;
    let mut out: Vec<AppEntry> = Vec::new();
    let mut i: usize = 0;
    while rest.len() > 0
        invariant
            cache.wf(),
            0 <= i,
            orig.len() == n0,
            i + rest@.len() == orig.len(),
            out@.len() == i,
            forall|a: int| 0 <= a < rest@.len() ==> rest@[a] == orig[i + a],
            forall|k: int|
                0 <= k < out@.len() && orig[k].icon is None ==> (#[trigger] out@[k]).icon is None,
            forall|k: int|
                0 <= k < out@.len() ==> (#[trigger] out@[k]).name == orig[k].name
                    && out@[k].generic_name == orig[k].generic_name && out@[k].comment
                    == orig[k].comment && out@[k].exec_cmd == orig[k].exec_cmd
                    && out@[k].categories == orig[k].categories && out@[k].terminal
                    == orig[k].terminal && out@[k].startup_wm_class == orig[k].startup_wm_class
                    && out@[k].desktop_file_path == orig[k].desktop_file_path,
        decreases rest@.len(),
    {
        let e = rest.remove(0);
        let resolved: Option<String> = match &e.icon {
            Some(n) => resolve_icon_path(n.as_str(), cache),
            None => None,
        };
        proof {
            assert(e.icon is None ==> resolved is None);
        }
        out.push(AppEntry { icon: resolved, ..e });
        i = i + 1;
    }
    out
}

} // verus!




