//! Launch planning: interpreting an action descriptor string and cleaning
//! desktop-entry Exec lines.  The descriptor's reserved prefixes select a
//! plan; dispatching the plan (spawning, focusing, installing) is I/O and
//! happens outside the crate.

use vstd::prelude::*;

use crate::text::{chars_of, spec_trim, string_from_chars, trim_chars};

verus! {

/// The characters that form a desktop-entry field code after `%`.
pub open spec fn is_field_code_char(c: char) -> bool {
    c == 'u' || c == 'U' || c == 'f' || c == 'F' || c == 'd' || c == 'D' || c == 'n' || c == 'N'
        || c == 'i' || c == 'c' || c == 'k' || c == 'v' || c == 'm'
}

fn is_field_code(c: char) -> (r: bool)
    ensures
        r == is_field_code_char(c),
{
    c == 'u' || c == 'U' || c == 'f' || c == 'F' || c == 'd' || c == 'D' || c == 'n' || c == 'N'
        || c == 'i' || c == 'c' || c == 'k' || c == 'v' || c == 'm'
}

/// Removes `%`-field codes; `%%` becomes a literal `%`; a `%` before any
/// other character, or at the end, stays.
pub open spec fn spec_strip_codes(s: Seq<char>) -> Seq<char>
    decreases s.len(),
{
    if s.len() == 0 {
        Seq::<char>::empty()
    } else if s[0] == '%' && s.len() >= 2 && is_field_code_char(s[1]) {
        spec_strip_codes(s.skip(2))
    } else if s[0] == '%' && s.len() >= 2 && s[1] == '%' {
        seq!['%'] + spec_strip_codes(s.skip(2))
    } else {
        seq![s[0]] + spec_strip_codes(s.skip(1))
    }
}

/// Collapses every run of spaces to a single space.
pub open spec fn spec_collapse_spaces(s: Seq<char>) -> Seq<char>
    decreases s.len(),
{
    if s.len() == 0 {
        Seq::<char>::empty()
    } else if s.len() >= 2 && s[0] == ' ' && s[1] == ' ' {
        spec_collapse_spaces(s.skip(1))
    } else {
        seq![s[0]] + spec_collapse_spaces(s.skip(1))
    }
}

/// The cleaned form of an Exec line: field codes removed, whitespace
/// trimmed, space runs collapsed.
pub open spec fn spec_strip_field_codes(s: Seq<char>) -> Seq<char> {
    spec_collapse_spaces(spec_trim(spec_strip_codes(s)))
}

/// Removes freedesktop field codes (`%u`, `%F`, ...) from an Exec line and
/// normalizes the spacing, so the command can be handed to a shell.
pub fn strip_field_codes(exec: &str) -> (r: String)
    ensures
        r@ == spec_strip_field_codes(exec@),
{
    let s = chars_of(exec);
    let ghost n = s@.len() as int;
    let mut out: Vec<char> = Vec::new();
    let mut i: usize = 0;
    proof {
        assert(s@.skip(0) =~= s@);
    }
    while i < s.len()
        invariant
            0 <= i <= s@.len(),
            n == s@.len(),
            spec_strip_codes(s@) == out@ + spec_strip_codes(s@.skip(i as int)),
        decreases s@.len() - i,
    {
        let ghost tail = s@.skip(i as int);
        let c = s[i];
        if c == '%' && i + 1 < s.len() && is_field_code(s[i + 1]) {
            proof {
                assert(tail.skip(2) =~= s@.skip(i as int + 2));
            }
            i = i + 2;
        } else if c == '%' && i + 1 < s.len() && s[i + 1] == '%' {
            let ghost prev = out@;
            out.push('%');
            proof {
                assert(tail.skip(2) =~= s@.skip(i as int + 2));
                assert(prev + spec_strip_codes(tail) =~= out@ + spec_strip_codes(
                    s@.skip(i as int + 2),
                ));
            }
            i = i + 2;
        } else {
            let ghost prev = out@;
            out.push(c);
            proof {
                assert(tail.skip(1) =~= s@.skip(i as int + 1));
                assert(tail[0] == c);
                assert(prev + spec_strip_codes(tail) =~= out@ + spec_strip_codes(
                    s@.skip(i as int + 1),
                ));
            }
            i = i + 1;
        }
    }
    proof {
        assert(s@.skip(i as int) =~= Seq::<char>::empty());
        assert(out@ + Seq::<char>::empty() =~= out@);
    }
    let trimmed = trim_chars(out.as_slice());
    let ghost t = trimmed@;
    let mut collapsed: Vec<char> = Vec::new();
    let mut j: usize = 0;
    proof {
        assert(t.skip(0) =~= t);
    }
    while j < trimmed.len()
        invariant
            0 <= j <= t.len(),
            t == trimmed@,
            spec_collapse_spaces(t) == collapsed@ + spec_collapse_spaces(t.skip(j as int)),
        decreases t.len() - j,
    {
        let ghost tail = t.skip(j as int);
        let c = trimmed[j];
        if c == ' ' && j + 1 < trimmed.len() && trimmed[j + 1] == ' ' {
            proof {
                assert(tail.skip(1) =~= t.skip(j as int + 1));
            }
        } else {
            let ghost prev = collapsed@;
            collapsed.push(c);
            proof {
                assert(tail.skip(1) =~= t.skip(j as int + 1));
                assert(tail[0] == c);
                assert(prev + spec_collapse_spaces(tail) =~= collapsed@ + spec_collapse_spaces(
                    t.skip(j as int + 1),
                ));
            }
        }
        j = j + 1;
    }
    proof {
        assert(t.skip(j as int) =~= Seq::<char>::empty());
        assert(collapsed@ + Seq::<char>::empty() =~= collapsed@);
    }
    string_from_chars(collapsed.as_slice())
}

/// Repeatedly removes the prefix `p` from the front of `s`.
pub open spec fn spec_strip_prefix_all(s: Seq<char>, p: Seq<char>) -> Seq<char>
    decreases s.len(),
{
    if p.len() > 0 && crate::text::spec_starts_with(s, p) {
        spec_strip_prefix_all(s.skip(p.len() as int), p)
    } else {
        s
    }
}

/// Removes every repetition of the prefix `p` from the front of `s`.
pub fn strip_prefix_all(s: &[char], p: &[char]) -> (r: Vec<char>)
    requires
        p@.len() > 0,
    ensures
        r@ == spec_strip_prefix_all(s@, p@),
{
    let mut i: usize = 0;
    let ghost n = s@.len() as int;
    proof {
        assert(s@.skip(0) =~= s@);
    }
    loop
        invariant
            0 <= i <= s@.len(),
            p@.len() > 0,
            n == s@.len(),
            spec_strip_prefix_all(s@, p@) == spec_strip_prefix_all(s@.skip(i as int), p@),
        decreases s@.len() - i,
    {
        let ghost tail = s@.skip(i as int);
        proof {
            assert(tail.len() == n - i);
        }
        if p.len() <= s.len() - i {
            proof {
                assert(tail.subrange(0, p@.len() as int) =~= s@.subrange(
                    i as int,
                    i + p@.len(),
                ));
            }
            if crate::text::match_at(s, p, i) {
                proof {
                    assert(s@.subrange(i as int, i + p@.len()) == p@);
                    assert(crate::text::spec_starts_with(tail, p@));
                    assert(tail.skip(p@.len() as int) =~= s@.skip(i + p@.len()));
                }
                i = i + p.len();
            } else {
                proof {
                    assert(!crate::text::spec_starts_with(tail, p@));
                    assert(spec_strip_prefix_all(tail, p@) == tail);
                    assert(tail =~= s@.subrange(i as int, n));
                }
                return crate::text::sub_chars(s, i, s.len());
            }
        } else {
            proof {
                assert(tail.len() < p@.len());
                assert(!crate::text::spec_starts_with(tail, p@));
                assert(spec_strip_prefix_all(tail, p@) == tail);
                assert(tail =~= s@.subrange(i as int, n));
            }
            return crate::text::sub_chars(s, i, s.len());
        }
    }
}

/// What activating an action descriptor means.
#[derive(Clone, Debug)]
pub enum LaunchPlan {
    /// Fetch and install a script from the given source.
    Install(String),
    /// Focus the open window with the given address.
    Focus(String),
    /// Run the cleaned command line through a shell.
    Command(String),
}

/// Interprets an action descriptor.  `install:` and `focus:` prefixes
/// select their plans; anything else is cleaned of field codes and run as
/// a command.  An empty install source or an empty cleaned command is an
/// error, as the original caller reported it.
pub fn plan_launch(exec: &str) -> (r: Result<LaunchPlan, String>)
    ensures
        ({
            let e = exec@;
            if crate::text::spec_starts_with(e, "install:"@) {
                let url = spec_strip_prefix_all(e, "install:"@);
                if url.len() == 0 {
                    r is Err && r->Err_0@ == "No URL provided"@
                } else {
                    r is Ok && r->Ok_0 is Install && r->Ok_0->Install_0@ == url
                }
            } else if crate::text::spec_starts_with(e, "focus:"@) {
                let addr = spec_strip_prefix_all(e, "focus:"@);
                r is Ok && r->Ok_0 is Focus && r->Ok_0->Focus_0@ == addr
            } else {
                let cleaned = spec_strip_field_codes(e);
                if cleaned.len() == 0 {
                    r is Err && r->Err_0@ == "Empty exec command after parsing"@
                } else {
                    r is Ok && r->Ok_0 is Command && r->Ok_0->Command_0@ == cleaned
                }
            }
        }),
{
    let e = chars_of(exec);
    let install_prefix = chars_of("install:");
    let focus_prefix = chars_of("focus:");
    proof {
        reveal_strlit("install:");
        reveal_strlit("focus:");
    }
    if crate::text::starts_with_chars(e.as_slice(), install_prefix.as_slice()) {
        let url = strip_prefix_all(e.as_slice(), install_prefix.as_slice());
        if url.len() == 0 {
            Err("No URL provided".to_owned())
        } else {
            Ok(LaunchPlan::Install(string_from_chars(url.as_slice())))
        }
    } else if crate::text::starts_with_chars(e.as_slice(), focus_prefix.as_slice()) {
        let addr = strip_prefix_all(e.as_slice(), focus_prefix.as_slice());
        Ok(LaunchPlan::Focus(string_from_chars(addr.as_slice())))
    } else {
        let cleaned = strip_field_codes(exec);
        let cc = chars_of(cleaned.as_str());
        if cc.len() == 0 {
            Err("Empty exec command after parsing".to_owned())
        } else {
            Ok(LaunchPlan::Command(cleaned))
        }
    }
}

} // verus!
